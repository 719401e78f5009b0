//! The commands of the task tool: reading them from the words of a command
//! line, and the changes they make that the repository leaves to its callers.
use vstd::prelude::*;

use crate::repository::{
    after_change, has_id, index_of_id, with_description, with_status, NotFound, TaskRepository,
};
use crate::task::{copy_task, current_time, Task, TaskStatus, TaskView};

verus! {

/// What the user asked for.
#[derive(Clone, Debug, PartialEq)]
pub enum Command {
    /// Show every task.
    List,
    /// Show the tasks with one status.
    ListByStatus(TaskStatus),
    /// Make a task with this description.
    Add(String),
    /// Remove the task with this id.
    Delete(i32),
    /// Give the task with this id this description.
    Update(i32, String),
    /// Move the task with this id to `InProgress`.
    MarkInProgress(i32),
}

/// The mathematical value of a command.
pub enum CommandView {
    List,
    ListByStatus(TaskStatus),
    Add(Seq<char>),
    Delete(int),
    Update(int, Seq<char>),
    MarkInProgress(int),
}

impl View for Command {
    type V = CommandView;

    open spec fn view(&self) -> CommandView {
        match self {
            Command::List => CommandView::List,
            Command::ListByStatus(s) => CommandView::ListByStatus(*s),
            Command::Add(d) => CommandView::Add(d@),
            Command::Delete(id) => CommandView::Delete(*id as int),
            Command::Update(id, d) => CommandView::Update(*id as int, d@),
            Command::MarkInProgress(id) => CommandView::MarkInProgress(*id as int),
        }
    }
}

/// Why a command line names no command.
#[derive(Clone, Copy, Debug, PartialEq, Eq, Structural)]
pub enum CommandError {
    /// There is no word after the program's name.
    NoCommand,
    /// The first word is no command.
    UnknownCommand,
    /// `list` was given a word that names no status.
    UnknownStatus,
    /// `add` was given no description.
    MissingDescription,
    /// `delete` was given no id.
    MissingDeleteId,
    /// `update` was given no id or no description.
    MissingUpdateParameters,
    /// `mark-in-progress` was given no id.
    MissingProgressId,
    /// The word where an id belongs is no decimal number of 32 bits.
    InvalidId,
}

/// The characters are all decimal digits.
pub open spec fn all_digits(s: Seq<char>) -> bool {
    forall|i: int| 0 <= i < s.len() ==> '0' <= #[trigger] s[i] && s[i] <= '9'
}

/// The number that the decimal digits `s` write.
pub open spec fn digits_value(s: Seq<char>) -> int
    decreases s.len(),
{
    if s.len() == 0 {
        0
    } else {
        10 * digits_value(s.drop_last()) + (s.last() as int - '0' as int)
    }
}

/// The number that `s` writes as an optional sign and one or more decimal digits.
pub open spec fn signed_decimal(s: Seq<char>) -> Option<int> {
    if s.len() > 0 && (s[0] == '-' || s[0] == '+') {
        let digits = s.drop_first();
        if digits.len() > 0 && all_digits(digits) {
            Some(if s[0] == '-' { -digits_value(digits) } else { digits_value(digits) })
        } else {
            None
        }
    } else if s.len() > 0 && all_digits(s) {
        Some(digits_value(s))
    } else {
        None
    }
}

/// The `i32` that `s` writes in decimal, if it writes one in range.
pub open spec fn decimal_i32(s: Seq<char>) -> Option<i32> {
    match signed_decimal(s) {
        Some(v) => if i32::MIN <= v <= i32::MAX {
            Some(v as i32)
        } else {
            None
        },
        None => None,
    }
}

/// Relies on `str::parse::<i32>`: an optional `+` or `-` followed by one or
/// more decimal digits and nothing else, whose value fits in an `i32`.
#[verifier::external_body]
fn parse_i32(s: &str) -> (r: Option<i32>)
    ensures
        r == decimal_i32(s@),
{
    s.parse::<i32>().ok()
}

pub open spec fn word_list() -> Seq<char> {
    seq!['l', 'i', 's', 't']
}

pub open spec fn word_add() -> Seq<char> {
    seq!['a', 'd', 'd']
}

pub open spec fn word_delete() -> Seq<char> {
    seq!['d', 'e', 'l', 'e', 't', 'e']
}

pub open spec fn word_update() -> Seq<char> {
    seq!['u', 'p', 'd', 'a', 't', 'e']
}

pub open spec fn word_mark_in_progress() -> Seq<char> {
    seq!['m', 'a', 'r', 'k', '-', 'i', 'n', '-', 'p', 'r', 'o', 'g', 'r', 'e', 's', 's']
}

/// The status that a word of `list` selects.
pub open spec fn status_selected(w: Seq<char>) -> Option<TaskStatus> {
    if w == seq!['t', 'o', 'd', 'o'] {
        Some(TaskStatus::Todo)
    } else if w == seq!['d', 'o', 'n', 'e'] {
        Some(TaskStatus::Done)
    } else if w == seq!['i', 'n', '-', 'p', 'r', 'o', 'g', 'r', 'e', 's', 's'] {
        Some(TaskStatus::InProgress)
    } else {
        None
    }
}

/// The command that the words `args` ask for; the first word is the program's
/// name, the second the command, the others its arguments. Words beyond those
/// a command takes are left unread.
pub open spec fn command_of(args: Seq<Seq<char>>) -> Result<CommandView, CommandError> {
    if args.len() < 2 {
        Err(CommandError::NoCommand)
    } else if args[1] == word_list() {
        if args.len() == 2 {
            Ok(CommandView::List)
        } else {
            match status_selected(args[2]) {
                Some(s) => Ok(CommandView::ListByStatus(s)),
                None => Err(CommandError::UnknownStatus),
            }
        }
    } else if args[1] == word_add() {
        if args.len() < 3 {
            Err(CommandError::MissingDescription)
        } else {
            Ok(CommandView::Add(args[2]))
        }
    } else if args[1] == word_delete() {
        if args.len() < 3 {
            Err(CommandError::MissingDeleteId)
        } else {
            match decimal_i32(args[2]) {
                Some(id) => Ok(CommandView::Delete(id as int)),
                None => Err(CommandError::InvalidId),
            }
        }
    } else if args[1] == word_update() {
        if args.len() < 4 {
            Err(CommandError::MissingUpdateParameters)
        } else {
            match decimal_i32(args[2]) {
                Some(id) => Ok(CommandView::Update(id as int, args[3])),
                None => Err(CommandError::InvalidId),
            }
        }
    } else if args[1] == word_mark_in_progress() {
        if args.len() < 3 {
            Err(CommandError::MissingProgressId)
        } else {
            match decimal_i32(args[2]) {
                Some(id) => Ok(CommandView::MarkInProgress(id as int)),
                None => Err(CommandError::InvalidId),
            }
        }
    } else {
        Err(CommandError::UnknownCommand)
    }
}

pub open spec fn words(args: Seq<String>) -> Seq<Seq<char>> {
    args.map_values(|a: String| a@)
}

pub open spec fn result_view(r: Result<Command, CommandError>) -> Result<CommandView, CommandError> {
    match r {
        Ok(c) => Ok(c@),
        Err(e) => Err(e),
    }
}

/// `a` and `b` hold the same characters.
fn same_text(a: &String, b: &str) -> (r: bool)
    ensures
        r == (a@ == b@),
{
    *a == String::from_str(b)
}

/// The command that the command line `args` asks for.
pub fn parse_command(args: &Vec<String>) -> (r: Result<Command, CommandError>)
    ensures
        result_view(r) == command_of(words(args@)),
{
    let ghost w = words(args@);
    assert(w.len() == args.len());
    if args.len() < 2 {
        return Err(CommandError::NoCommand);
    }
    assert(w[1] == args@[1]@);
    let name = &args[1];
    proof {
        reveal_strlit("list");
        reveal_strlit("add");
        reveal_strlit("delete");
        reveal_strlit("update");
        reveal_strlit("mark-in-progress");
        assert("list"@ =~= word_list());
        assert("add"@ =~= word_add());
        assert("delete"@ =~= word_delete());
        assert("update"@ =~= word_update());
        assert("mark-in-progress"@ =~= word_mark_in_progress());
    }
    if same_text(name, "list") {
        if args.len() == 2 {
            return Ok(Command::List);
        }
        assert(w[2] == args@[2]@);
        proof {
            reveal_strlit("todo");
            reveal_strlit("done");
            reveal_strlit("in-progress");
            assert("todo"@ =~= seq!['t', 'o', 'd', 'o']);
            assert("done"@ =~= seq!['d', 'o', 'n', 'e']);
            assert("in-progress"@ =~= seq!['i', 'n', '-', 'p', 'r', 'o', 'g', 'r', 'e', 's', 's']);
        }
        if same_text(&args[2], "todo") {
            Ok(Command::ListByStatus(TaskStatus::Todo))
        } else if same_text(&args[2], "done") {
            Ok(Command::ListByStatus(TaskStatus::Done))
        } else if same_text(&args[2], "in-progress") {
            Ok(Command::ListByStatus(TaskStatus::InProgress))
        } else {
            Err(CommandError::UnknownStatus)
        }
    } else if same_text(name, "add") {
        if args.len() < 3 {
            return Err(CommandError::MissingDescription);
        }
        assert(w[2] == args@[2]@);
        Ok(Command::Add(args[2].clone()))
    } else if same_text(name, "delete") {
        if args.len() < 3 {
            return Err(CommandError::MissingDeleteId);
        }
        assert(w[2] == args@[2]@);
        match parse_i32(args[2].as_str()) {
            Some(id) => Ok(Command::Delete(id)),
            None => Err(CommandError::InvalidId),
        }
    } else if same_text(name, "update") {
        if args.len() < 4 {
            return Err(CommandError::MissingUpdateParameters);
        }
        assert(w[2] == args@[2]@);
        assert(w[3] == args@[3]@);
        match parse_i32(args[2].as_str()) {
            Some(id) => Ok(Command::Update(id, args[3].clone())),
            None => Err(CommandError::InvalidId),
        }
    } else if same_text(name, "mark-in-progress") {
        if args.len() < 3 {
            return Err(CommandError::MissingProgressId);
        }
        assert(w[2] == args@[2]@);
        match parse_i32(args[2].as_str()) {
            Some(id) => Ok(Command::MarkInProgress(id)),
            None => Err(CommandError::InvalidId),
        }
    } else {
        Err(CommandError::UnknownCommand)
    }
}

/// The tasks of `repo` with the status `status`, in ascending order of id.
pub fn tasks_with_status(repo: &TaskRepository, status: TaskStatus) -> (r: Vec<Task>)
    ensures
        r@.map_values(|t: Task| t@) == repo@.tasks.filter(|t: TaskView| t.status == status),
{
    let tasks = repo.tasks();
    let ghost all = repo@.tasks;
    let ghost pred = |t: TaskView| t.status == status;
    let mut r: Vec<Task> = Vec::new();
    let mut i: usize = 0;
    while i < tasks.len()
        invariant
            i <= tasks.len(),
            tasks@.map_values(|t: Task| t@) == all,
            all == repo@.tasks,
            pred == (|t: TaskView| t.status == status),
            r@.map_values(|t: Task| t@) == all.take(i as int).filter(pred),
        decreases tasks.len() - i,
    {
        let ghost before = r@;
        proof {
            assert(all.take(i as int + 1) =~= all.take(i as int).push(all[i as int]));
            all.take(i as int).lemma_filter_push(all[i as int], pred);
        }
        if tasks[i].status == status {
            r.push(copy_task(&tasks[i]));
            assert(r@.map_values(|t: Task| t@) =~= before.map_values(|t: Task| t@).push(all[i as int]));
        }
        i = i + 1;
    }
    assert(all.take(i as int) =~= all);
    r
}

/// Gives the task `id` of `repo` the description `description`, changed now.
pub fn update_task(repo: &mut TaskRepository, id: i32, description: String) -> (r: Result<(), NotFound>)
    requires
        old(repo).wf(),
    ensures
        (r is Ok) == has_id(old(repo)@.tasks, id as int),
        r is Ok ==> final(repo)@.tasks[index_of_id(old(repo)@.tasks, id as int)].updated_at is Some,
        r is Ok ==> final(repo)@ == after_change(
            old(repo)@,
            id as int,
            with_description(
                old(repo)@.tasks[index_of_id(old(repo)@.tasks, id as int)],
                description@,
                final(repo)@.tasks[index_of_id(old(repo)@.tasks, id as int)].updated_at.unwrap(),
            ),
        ),
        r matches Err(e) ==> e == (NotFound { id }),
        (r is Err) ==> final(repo)@ == old(repo)@,
        final(repo).wf(),
{
    let now = current_time();
    repo.set_description(id, description, now)
}

/// Moves the task `id` of `repo` to `InProgress`, changed now.
pub fn mark_in_progress(repo: &mut TaskRepository, id: i32) -> (r: Result<(), NotFound>)
    requires
        old(repo).wf(),
    ensures
        (r is Ok) == has_id(old(repo)@.tasks, id as int),
        r is Ok ==> final(repo)@.tasks[index_of_id(old(repo)@.tasks, id as int)].updated_at is Some,
        r is Ok ==> final(repo)@ == after_change(
            old(repo)@,
            id as int,
            with_status(
                old(repo)@.tasks[index_of_id(old(repo)@.tasks, id as int)],
                TaskStatus::InProgress,
                final(repo)@.tasks[index_of_id(old(repo)@.tasks, id as int)].updated_at.unwrap(),
            ),
        ),
        r matches Err(e) ==> e == (NotFound { id }),
        (r is Err) ==> final(repo)@ == old(repo)@,
        final(repo).wf(),
{
    let now = current_time();
    repo.set_status(id, TaskStatus::InProgress, now)
}

} // verus!
