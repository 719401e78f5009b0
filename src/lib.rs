//! A local task tracker: tasks with a status, kept in a repository that hands
//! out identifiers, and converted to and from the records of a JSON file.
pub mod codec;
pub mod command;
pub mod repository;
pub mod task;

pub use codec::{CorruptData, TaskRecord, TaskRepositoryForSerialization};
pub use command::{mark_in_progress, parse_command, tasks_with_status, update_task, Command, CommandError};
pub use repository::{NotFound, TaskRepository};
pub use task::{Task, TaskStatus, Timestamp};
