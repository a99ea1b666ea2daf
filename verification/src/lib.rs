//! Local todo state: tasks, their tree, status rules, queries and reminder
//! associations, held in memory and specified over their views.
pub mod cli;
pub mod clock;
pub mod drawing;
pub mod edits;
pub mod effects;
pub mod error;
pub mod human;
pub mod parsing;
pub mod laws;
pub mod model;
pub mod output;
pub mod parenting;
pub mod query;
pub mod reminders;
pub mod sorting;
pub mod store;
pub mod tasks;
pub mod text;
pub mod transitions;
pub mod tree;

pub use error::AppError;
pub use model::{
    ChangeResult, Changes, CreateResult, CreateTask, EditTask, HistoryEntry, ListFilter,
    ListResult, ListSummary, Progress, Snapshot, Task, TaskDetail, TaskView, Transition,
    TransitionResult,
};
pub use reminders::{AddReminder, EditReminder, Reminder, ReminderResult};
pub use store::Store;
