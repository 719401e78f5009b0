use task_tracker::{parse_command, tasks_with_status, Command, CommandError, TaskRepository, TaskStatus, Timestamp};

fn args(words: &[&str]) -> Vec<String> {
    words.iter().map(|w| w.to_string()).collect()
}

#[test]
fn parse_list_commands() {
    assert_eq!(parse_command(&args(&["task", "list"])), Ok(Command::List));
    assert_eq!(parse_command(&args(&["task", "list", "todo"])), Ok(Command::ListByStatus(TaskStatus::Todo)));
    assert_eq!(parse_command(&args(&["task", "list", "done"])), Ok(Command::ListByStatus(TaskStatus::Done)));
    assert_eq!(
        parse_command(&args(&["task", "list", "in-progress"])),
        Ok(Command::ListByStatus(TaskStatus::InProgress))
    );
    assert_eq!(parse_command(&args(&["task", "list", "later"])), Err(CommandError::UnknownStatus));
}

#[test]
fn parse_changing_commands() {
    assert_eq!(parse_command(&args(&["task", "add", "Buy milk"])), Ok(Command::Add("Buy milk".to_string())));
    assert_eq!(parse_command(&args(&["task", "delete", "42"])), Ok(Command::Delete(42)));
    assert_eq!(
        parse_command(&args(&["task", "update", "3", "New desc"])),
        Ok(Command::Update(3, "New desc".to_string()))
    );
    assert_eq!(parse_command(&args(&["task", "mark-in-progress", "+7"])), Ok(Command::MarkInProgress(7)));
    assert_eq!(parse_command(&args(&["task", "delete", "-2147483648"])), Ok(Command::Delete(i32::MIN)));
}

#[test]
fn parse_errors() {
    assert_eq!(parse_command(&args(&["task"])), Err(CommandError::NoCommand));
    assert_eq!(parse_command(&args(&["task", "remove", "1"])), Err(CommandError::UnknownCommand));
    assert_eq!(parse_command(&args(&["task", "add"])), Err(CommandError::MissingDescription));
    assert_eq!(parse_command(&args(&["task", "delete"])), Err(CommandError::MissingDeleteId));
    assert_eq!(parse_command(&args(&["task", "update", "1"])), Err(CommandError::MissingUpdateParameters));
    assert_eq!(parse_command(&args(&["task", "mark-in-progress"])), Err(CommandError::MissingProgressId));
    assert_eq!(parse_command(&args(&["task", "delete", "one"])), Err(CommandError::InvalidId));
    assert_eq!(parse_command(&args(&["task", "delete", "2147483648"])), Err(CommandError::InvalidId));
    assert_eq!(parse_command(&args(&["task", "delete", " 1"])), Err(CommandError::InvalidId));
    assert_eq!(parse_command(&args(&["task", "update", "-", "x"])), Err(CommandError::InvalidId));
}

#[test]
fn filter_by_status_keeps_id_order() {
    let mut repo = TaskRepository::new();
    let now = Timestamp { seconds: 0, nanos: 0, offset_seconds: 3600 };
    repo.new_task_at("a".to_string(), now);
    repo.new_task_at("b".to_string(), now);
    repo.new_task_at("c".to_string(), now);
    repo.task(1).unwrap().status = TaskStatus::Done;
    repo.task(3).unwrap().status = TaskStatus::Done;
    let done: Vec<i32> = tasks_with_status(&repo, TaskStatus::Done).iter().map(|t| t.id).collect();
    assert_eq!(done, vec![1, 3]);
    let todo = tasks_with_status(&repo, TaskStatus::Todo);
    assert_eq!(todo.len(), 1);
    assert_eq!(todo[0].description, "b");
    assert!(tasks_with_status(&repo, TaskStatus::InProgress).is_empty());
}
