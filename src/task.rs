//! One unit of work: its identifier, its text, its status and its timestamps.
use vstd::prelude::*;

verus! {

/// Where a task stands.
#[derive(Clone, Copy, Debug, PartialEq, Eq, Structural)]
pub enum TaskStatus {
    Todo,
    InProgress,
    Done,
}

/// A point in time: seconds since the Unix epoch, the nanoseconds past that
/// second, and the offset from UTC in seconds of the zone it is written in.
#[derive(Clone, Copy, Debug, PartialEq, Eq, Structural)]
pub struct Timestamp {
    pub seconds: i64,
    pub nanos: u32,
    pub offset_seconds: i32,
}

/// The mathematical value of a task.
pub struct TaskView {
    pub id: int,
    pub description: Seq<char>,
    pub status: TaskStatus,
    pub created_at: Option<Timestamp>,
    pub updated_at: Option<Timestamp>,
}

/// A task. Its `id` is handed out by the repository and never changes.
/// The timestamps are absent only for tasks read from files that predate them.
#[derive(Clone, Debug, PartialEq)]
pub struct Task {
    pub id: i32,
    pub description: String,
    pub status: TaskStatus,
    pub created_at: Option<Timestamp>,
    pub updated_at: Option<Timestamp>,
}

impl View for Task {
    type V = TaskView;

    open spec fn view(&self) -> TaskView {
        TaskView {
            id: self.id as int,
            description: self.description@,
            status: self.status,
            created_at: self.created_at,
            updated_at: self.updated_at,
        }
    }
}

/// The name under which a status is written to a file.
pub open spec fn status_name(s: TaskStatus) -> Seq<char> {
    match s {
        TaskStatus::Todo => seq!['T', 'o', 'd', 'o'],
        TaskStatus::InProgress => seq!['I', 'n', 'P', 'r', 'o', 'g', 'r', 'e', 's', 's'],
        TaskStatus::Done => seq!['D', 'o', 'n', 'e'],
    }
}

/// The status written under `name`, if any.
pub open spec fn status_named(name: Seq<char>) -> Option<TaskStatus> {
    if name == status_name(TaskStatus::Todo) {
        Some(TaskStatus::Todo)
    } else if name == status_name(TaskStatus::InProgress) {
        Some(TaskStatus::InProgress)
    } else if name == status_name(TaskStatus::Done) {
        Some(TaskStatus::Done)
    } else {
        None
    }
}

/// The label under which a status is shown to a person.
pub open spec fn status_label(s: TaskStatus) -> Seq<char> {
    match s {
        TaskStatus::Todo => seq!['T', 'o', 'd', 'o'],
        TaskStatus::InProgress => seq!['I', 'n', ' ', 'P', 'r', 'o', 'g', 'r', 'e', 's', 's'],
        TaskStatus::Done => seq!['D', 'o', 'n', 'e'],
    }
}

/// Every status is read back from its own name.
pub proof fn lemma_status_name_round_trip(s: TaskStatus)
    ensures
        status_named(status_name(s)) == Some(s),
{
    assert(status_name(TaskStatus::Todo) != status_name(TaskStatus::InProgress));
    assert(status_name(TaskStatus::InProgress) != status_name(TaskStatus::Done));
    assert(status_name(TaskStatus::Todo)[0] != status_name(TaskStatus::Done)[0]);
}

impl TaskStatus {
    /// The name under which this status is written to a file.
    pub fn name(&self) -> (r: String)
        ensures
            r@ == status_name(*self),
    {
        match self {
            TaskStatus::Todo => {
                proof { reveal_strlit("Todo"); }
                String::from_str("Todo")
            },
            TaskStatus::InProgress => {
                proof { reveal_strlit("InProgress"); }
                String::from_str("InProgress")
            },
            TaskStatus::Done => {
                proof { reveal_strlit("Done"); }
                String::from_str("Done")
            },
        }
    }

    /// The status written under `name`; `None` for any other text.
    pub fn from_name(name: &String) -> (r: Option<TaskStatus>)
        ensures
            r == status_named(name@),
    {
        if *name == TaskStatus::Todo.name() {
            Some(TaskStatus::Todo)
        } else if *name == TaskStatus::InProgress.name() {
            Some(TaskStatus::InProgress)
        } else if *name == TaskStatus::Done.name() {
            Some(TaskStatus::Done)
        } else {
            None
        }
    }

    /// The label under which this status is shown to a person.
    pub fn to_string(&self) -> (r: String)
        ensures
            r@ == status_label(*self),
    {
        match self {
            TaskStatus::Todo => {
                proof { reveal_strlit("Todo"); }
                String::from_str("Todo")
            },
            TaskStatus::InProgress => {
                proof { reveal_strlit("In Progress"); }
                String::from_str("In Progress")
            },
            TaskStatus::Done => {
                proof { reveal_strlit("Done"); }
                String::from_str("Done")
            },
        }
    }
}

/// Relies on chrono's `From<SystemTime> for DateTime<Utc>`: the system clock's
/// current reading in UTC, whose offset chrono's `Offset::fix` gives as 0.
/// chrono turns a reading before the Unix epoch into negative seconds rather
/// than failing, and keeps the nanoseconds under one second. It unwraps only
/// for a reading outside its range of about 262,000 years either side of the
/// epoch.
#[verifier::external_body]
pub(crate) fn current_time() -> (r: Timestamp)
    ensures
        r.nanos < 1_000_000_000,
        r.offset_seconds == 0,
{
    let now = chrono::DateTime::<chrono::Utc>::from(std::time::SystemTime::now());
    Timestamp {
        seconds: now.timestamp(),
        nanos: now.timestamp_subsec_nanos(),
        offset_seconds: chrono::Offset::fix(now.offset()).local_minus_utc(),
    }
}

/// A copy of `t`.
pub(crate) fn copy_task(t: &Task) -> (r: Task)
    ensures
        r@ == t@,
{
    Task {
        id: t.id,
        description: t.description.clone(),
        status: t.status,
        created_at: t.created_at,
        updated_at: t.updated_at,
    }
}

} // verus!
