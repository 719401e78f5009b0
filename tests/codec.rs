use task_tracker::{mark_in_progress, CorruptData, TaskRecord, TaskRepository, TaskRepositoryForSerialization, TaskStatus, Timestamp};

fn at(seconds: i64) -> Timestamp {
    Timestamp { seconds, nanos: 0, offset_seconds: 0 }
}

fn record(id: i32, description: &str, status: &str) -> TaskRecord {
    TaskRecord {
        id,
        description: description.to_string(),
        status: status.to_string(),
        created_at: None,
        updated_at: None,
    }
}

fn timestamp_of(text: &str) -> Timestamp {
    let d = chrono::DateTime::parse_from_rfc3339(text).unwrap();
    Timestamp {
        seconds: d.timestamp(),
        nanos: d.timestamp_subsec_nanos(),
        offset_seconds: d.offset().local_minus_utc(),
    }
}

fn records_of_json(content: &str) -> TaskRepositoryForSerialization {
    let value: serde_json::Value = serde_json::from_str(content).unwrap();
    let tasks = value["tasks"]
        .as_array()
        .unwrap()
        .iter()
        .map(|t| TaskRecord {
            id: t["id"].as_i64().unwrap() as i32,
            description: t["description"].as_str().unwrap().to_string(),
            status: t["status"].as_str().unwrap().to_string(),
            created_at: t["created_at"].as_str().map(timestamp_of),
            updated_at: t["updated_at"].as_str().map(timestamp_of),
        })
        .collect();
    TaskRepositoryForSerialization { tasks }
}

#[test]
fn repository_save_json() {
    let mut repo = TaskRepository::default();
    repo.new_task(String::from("plop"));
    repo.new_task(String::from("plap"));
    repo.task(1).unwrap().status = TaskStatus::Done;
    let serialized = repo.serializable();

    assert_eq!(serialized.tasks[0].description, "plop");
    assert_eq!(serialized.tasks[0].status, "Done");
    assert_eq!(serialized.tasks[1].description, "plap");
}

#[test]
fn repository_load_json() {
    let expected = [(0, "plop", TaskStatus::Todo), (1, "plap", TaskStatus::Done)];
    let content = "\
        {\
        \"tasks\": [\
            {\
                \"id\": 0,\
                \"description\": \"plop\",\
                \"status\": \"Todo\",\
                \"created_at\":\"2024-10-16T14:45:18.529270461+02:00\",\
                \"updated_at\":\"2024-10-16T14:45:18.529569668+02:00\"
            },\
            {\
                \"id\": 1,\
                \"description\": \"plap\",\
                \"status\": \"Done\",\
                \"created_at\":\"2024-10-16T14:45:18.529270461+02:00\",\
                \"updated_at\":\"2024-10-16T14:45:18.529569668+02:00\"
            }\
        ]\
        }\
        ";
    let object = records_of_json(content);
    let repo = TaskRepository::from_serialization(object).unwrap();

    assert_eq!(repo.task_count(), expected.len());
    for (task, (id, description, status)) in repo.tasks().iter().zip(expected.iter()) {
        assert_eq!(task.id, *id);
        assert_eq!(task.description, *description);
        assert_eq!(task.status, *status);
    }
    assert_eq!(repo.tasks()[0].created_at, Some(timestamp_of("2024-10-16T14:45:18.529270461+02:00")));
    assert_eq!(repo.last_id(), 1);
}

#[test]
fn records_are_in_ascending_id_with_status_names() {
    let mut repo = TaskRepository::new();
    repo.new_task_at("a".to_string(), at(5));
    repo.new_task_at("b".to_string(), at(6));
    repo.new_task_at("c".to_string(), at(7));
    repo.task(2).unwrap().status = TaskStatus::InProgress;
    repo.delete(1);
    let s = repo.serializable();
    assert_eq!(s.tasks.len(), 2);
    assert_eq!(s.tasks[0].id, 2);
    assert_eq!(s.tasks[0].status, "InProgress");
    assert_eq!(s.tasks[0].created_at, Some(at(6)));
    assert_eq!(s.tasks[1].id, 3);
    assert_eq!(s.tasks[1].status, "Todo");
}

#[test]
fn round_trip_keeps_tasks_and_recomputes_last_id() {
    let mut repo = TaskRepository::new();
    repo.new_task_at("a".to_string(), at(1));
    repo.new_task_at("b".to_string(), at(2));
    repo.new_task_at("c".to_string(), at(3));
    repo.set_status(1, TaskStatus::Done, at(4)).unwrap();
    repo.delete(3);
    assert_eq!(repo.last_id(), 3);
    let loaded = TaskRepository::from_serialization(repo.serializable()).unwrap();
    assert_eq!(loaded.tasks(), repo.tasks());
    assert_eq!(loaded.last_id(), 2);
}

#[test]
fn round_trip_of_empty_repository() {
    let mut repo = TaskRepository::new();
    repo.new_task_at("a".to_string(), at(1));
    repo.delete(1);
    let loaded = TaskRepository::from_serialization(repo.serializable()).unwrap();
    assert_eq!(loaded.task_count(), 0);
    assert_eq!(loaded.last_id(), 0);
}

#[test]
fn unknown_status_is_corrupt_data() {
    let object = TaskRepositoryForSerialization {
        tasks: vec![record(1, "a", "Todo"), record(2, "b", "Finished"), record(3, "c", "done")],
    };
    assert_eq!(TaskRepository::from_serialization(object).err(), Some(CorruptData { record: 1 }));
}

#[test]
fn display_label_is_not_a_status_name() {
    let object = TaskRepositoryForSerialization { tasks: vec![record(1, "a", "In Progress")] };
    assert_eq!(TaskRepository::from_serialization(object).err(), Some(CorruptData { record: 0 }));
}

#[test]
fn load_sorts_by_id_and_later_duplicate_wins() {
    let object = TaskRepositoryForSerialization {
        tasks: vec![
            record(7, "seven", "Todo"),
            record(3, "three", "Done"),
            record(7, "seven again", "InProgress"),
            record(5, "five", "Todo"),
        ],
    };
    let repo = TaskRepository::from_serialization(object).unwrap();
    let ids: Vec<i32> = repo.tasks().iter().map(|t| t.id).collect();
    assert_eq!(ids, vec![3, 5, 7]);
    assert_eq!(repo.tasks()[2].description, "seven again");
    assert_eq!(repo.tasks()[2].status, TaskStatus::InProgress);
    assert_eq!(repo.last_id(), 7);
}

#[test]
fn load_with_only_negative_ids_keeps_last_id_zero() {
    let object = TaskRepositoryForSerialization {
        tasks: vec![record(-4, "x", "Done"), record(-9, "y", "Todo")],
    };
    let mut repo = TaskRepository::from_serialization(object).unwrap();
    assert_eq!(repo.last_id(), 0);
    assert_eq!(repo.tasks()[0].id, -9);
    assert_eq!(repo.new_task_at("z".to_string(), at(0)).id, 1);
}

#[test]
fn load_with_gaps_continues_after_highest_id() {
    let object = TaskRepositoryForSerialization {
        tasks: vec![record(2, "b", "Todo"), record(40, "c", "Todo")],
    };
    let mut repo = TaskRepository::from_serialization(object).unwrap();
    assert_eq!(repo.new_task_at("d".to_string(), at(0)).id, 41);
}

#[test]
fn load_of_no_records_is_empty() {
    let repo = TaskRepository::from_serialization(TaskRepositoryForSerialization { tasks: vec![] }).unwrap();
    assert_eq!(repo.task_count(), 0);
    assert_eq!(repo.last_id(), 0);
}

#[test]
fn status_names_and_labels() {
    assert_eq!(TaskStatus::Todo.name(), "Todo");
    assert_eq!(TaskStatus::InProgress.name(), "InProgress");
    assert_eq!(TaskStatus::Done.name(), "Done");
    assert_eq!(TaskStatus::InProgress.to_string(), "In Progress");
    assert_eq!(TaskStatus::Done.to_string(), "Done");
    assert_eq!(TaskStatus::from_name(&"InProgress".to_string()), Some(TaskStatus::InProgress));
    assert_eq!(TaskStatus::from_name(&"Todo".to_string()), Some(TaskStatus::Todo));
    assert_eq!(TaskStatus::from_name(&"todo".to_string()), None);
}

#[test]
fn record_conversions() {
    let mut repo = TaskRepository::new();
    let t = repo.new_task_at("a".to_string(), at(9));
    let r = TaskRecord::from_task(&t);
    assert_eq!(r.status, "Todo");
    assert_eq!(r.to_task(), Some(t));
    assert_eq!(record(1, "a", "Nope").to_task(), None);
}

#[test]
fn save_load_repo() {
    let mut repo = TaskRepository::default();
    repo.new_task("Plop".to_string());
    repo.new_task("Plip".to_string());
    mark_in_progress(&mut repo, 1).unwrap();
    let loaded_repo = TaskRepository::from_serialization(repo.serializable()).unwrap();
    assert_eq!(repo, loaded_repo);
}
