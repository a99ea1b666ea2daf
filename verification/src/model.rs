//! Tasks, requests and results, each with a view over `Seq<char>`.
use vstd::prelude::*;

use crate::reminders::{Reminder, ReminderV};
use crate::text::{clone_opt, clone_strings, opt_eq, opt_view, seq_view, strings_eq, text_eq};

verus! {

/// The current record of a task (not a snapshot taken at creation).
#[derive(Debug, Clone, PartialEq)]
pub struct Task {
    /// Generated id; later operations find the task by it.
    pub id: String,
    /// Required title, never only white space; kept as given.
    pub title: String,
    pub description: Option<String>,
    /// `pending`, `in_progress`, `blocked`, `done` or `cancelled`.
    pub status: String,
    /// `personal` or `work`.
    pub category: String,
    pub project: Option<String>,
    /// Id of the direct parent; `None` for a top-level task.
    pub parent_id: Option<String>,
    /// Present only while `blocked`.
    pub blocked_reason: Option<String>,
    /// Optional reason, only while `cancelled`.
    pub cancel_reason: Option<String>,
    /// References to files, documents or links.
    pub sources: Vec<String>,
    pub created_at: String,
    pub updated_at: String,
    /// Set while `done` or `cancelled`.
    pub closed_at: Option<String>,
    /// Client idempotency key for creation; never changes.
    pub creation_token: Option<String>,
}

pub struct TaskV {
    pub id: Seq<char>,
    pub title: Seq<char>,
    pub description: Option<Seq<char>>,
    pub status: Seq<char>,
    pub category: Seq<char>,
    pub project: Option<Seq<char>>,
    pub parent_id: Option<Seq<char>>,
    pub blocked_reason: Option<Seq<char>>,
    pub cancel_reason: Option<Seq<char>>,
    pub sources: Seq<Seq<char>>,
    pub created_at: Seq<char>,
    pub updated_at: Seq<char>,
    pub closed_at: Option<Seq<char>>,
    pub creation_token: Option<Seq<char>>,
}

impl View for Task {
    type V = TaskV;

    open spec fn view(&self) -> TaskV {
        TaskV {
            id: self.id@,
            title: self.title@,
            description: opt_view(self.description),
            status: self.status@,
            category: self.category@,
            project: opt_view(self.project),
            parent_id: opt_view(self.parent_id),
            blocked_reason: opt_view(self.blocked_reason),
            cancel_reason: opt_view(self.cancel_reason),
            sources: seq_view(self.sources@),
            created_at: self.created_at@,
            updated_at: self.updated_at@,
            closed_at: opt_view(self.closed_at),
            creation_token: opt_view(self.creation_token),
        }
    }
}

impl Task {
    /// A copy with the same view.
    pub fn copy(&self) -> (r: Task)
        ensures
            r@ == self@,
    {
        Task {
            id: self.id.clone(),
            title: self.title.clone(),
            description: clone_opt(&self.description),
            status: self.status.clone(),
            category: self.category.clone(),
            project: clone_opt(&self.project),
            parent_id: clone_opt(&self.parent_id),
            blocked_reason: clone_opt(&self.blocked_reason),
            cancel_reason: clone_opt(&self.cancel_reason),
            sources: clone_strings(&self.sources),
            created_at: self.created_at.clone(),
            updated_at: self.updated_at.clone(),
            closed_at: clone_opt(&self.closed_at),
            creation_token: clone_opt(&self.creation_token),
        }
    }

    /// Whether both records hold the same values.
    pub fn same(&self, other: &Task) -> (r: bool)
        ensures
            r == (self@ == other@),
    {
        self.id == other.id && self.title == other.title && opt_eq(
            &self.description,
            &other.description,
        ) && self.status == other.status && self.category == other.category && opt_eq(
            &self.project,
            &other.project,
        ) && opt_eq(&self.parent_id, &other.parent_id) && opt_eq(
            &self.blocked_reason,
            &other.blocked_reason,
        ) && opt_eq(&self.cancel_reason, &other.cancel_reason) && strings_eq(
            &self.sources,
            &other.sources,
        ) && self.created_at == other.created_at && self.updated_at == other.updated_at
            && opt_eq(&self.closed_at, &other.closed_at) && opt_eq(
            &self.creation_token,
            &other.creation_token,
        )
    }
}

/// The original creation request; idempotent retries compare it exactly.
#[derive(Debug, Clone, Default, PartialEq)]
pub struct CreateTask {
    pub title: String,
    /// `personal` or `work`; there is no default.
    pub category: String,
    pub description: Option<String>,
    pub project: Option<String>,
    /// The parent must exist and it and all its ancestors must be open.
    pub parent_id: Option<String>,
    /// Order takes part in the idempotency comparison.
    pub sources: Vec<String>,
    /// Same token and same request return the existing task; a different request conflicts.
    pub creation_token: Option<String>,
}

pub struct CreateTaskV {
    pub title: Seq<char>,
    pub category: Seq<char>,
    pub description: Option<Seq<char>>,
    pub project: Option<Seq<char>>,
    pub parent_id: Option<Seq<char>>,
    pub sources: Seq<Seq<char>>,
    pub creation_token: Option<Seq<char>>,
}

impl View for CreateTask {
    type V = CreateTaskV;

    open spec fn view(&self) -> CreateTaskV {
        CreateTaskV {
            title: self.title@,
            category: self.category@,
            description: opt_view(self.description),
            project: opt_view(self.project),
            parent_id: opt_view(self.parent_id),
            sources: seq_view(self.sources@),
            creation_token: opt_view(self.creation_token),
        }
    }
}

impl CreateTask {
    pub fn copy(&self) -> (r: CreateTask)
        ensures
            r@ == self@,
    {
        CreateTask {
            title: self.title.clone(),
            category: self.category.clone(),
            description: clone_opt(&self.description),
            project: clone_opt(&self.project),
            parent_id: clone_opt(&self.parent_id),
            sources: clone_strings(&self.sources),
            creation_token: clone_opt(&self.creation_token),
        }
    }

    /// Whether both requests are the same, field by field.
    pub fn same(&self, other: &CreateTask) -> (r: bool)
        ensures
            r == (self@ == other@),
    {
        self.title == other.title && self.category == other.category && opt_eq(
            &self.description,
            &other.description,
        ) && opt_eq(&self.project, &other.project) && opt_eq(&self.parent_id, &other.parent_id)
            && strings_eq(&self.sources, &other.sources) && opt_eq(
            &self.creation_token,
            &other.creation_token,
        )
    }
}

/// A partial update of business fields; status, parent and creation data stay.
#[derive(Debug, Clone, Default, PartialEq)]
pub struct EditTask {
    /// `None` keeps the title.
    pub title: Option<String>,
    pub category: Option<String>,
    /// `None` keeps, `Some(None)` clears, `Some(Some(v))` sets.
    pub description: Option<Option<String>>,
    pub project: Option<Option<String>>,
    /// `None` keeps, otherwise replaces the whole list.
    pub sources: Option<Vec<String>>,
}

/// An explicit status operation.
#[derive(Debug, Clone, PartialEq)]
pub enum Transition {
    Start,
    Block { reason: String },
    Done { cascade: bool },
    Cancel { reason: Option<String>, cascade: bool },
    Reopen,
}

#[derive(Debug, Clone, PartialEq)]
pub struct CreateResult {
    pub task: Task,
    /// `true` when the same original request was already recorded.
    pub deduplicated: bool,
}

#[derive(Debug, Clone, PartialEq)]
pub struct ChangeResult {
    pub task: Task,
    pub changed: bool,
}

#[derive(Debug, Clone, PartialEq)]
pub struct TransitionResult {
    pub task: Task,
    pub changed: bool,
    /// The target first, then changed descendants ordered by id.
    pub affected_task_ids: Vec<String>,
}

/// A full snapshot stored in history.
#[derive(Debug, Clone, PartialEq)]
pub enum Snapshot {
    Task(Task),
    Reminder(Reminder),
}

pub enum SnapshotV {
    Task(TaskV),
    Reminder(ReminderV),
}

pub open spec fn snap_view(o: Option<Snapshot>) -> Option<SnapshotV> {
    match o {
        Some(Snapshot::Task(t)) => Some(SnapshotV::Task(t@)),
        Some(Snapshot::Reminder(r)) => Some(SnapshotV::Reminder(r@)),
        None => None,
    }
}

impl Snapshot {
    pub fn copy(&self) -> (r: Snapshot)
        ensures
            snap_view(Some(r)) == snap_view(Some(*self)),
    {
        match self {
            Snapshot::Task(t) => Snapshot::Task(t.copy()),
            Snapshot::Reminder(m) => Snapshot::Reminder(m.copy()),
        }
    }
}

pub fn copy_snapshot(o: &Option<Snapshot>) -> (r: Option<Snapshot>)
    ensures
        snap_view(r) == snap_view(*o),
{
    match o {
        Some(x) => Some(x.copy()),
        None => None,
    }
}

/// What a history entry records: the record before and after, a note body,
/// and for cascaded status changes the id of the task the cascade started from.
#[derive(Debug, Clone, PartialEq)]
pub struct Changes {
    pub before: Option<Snapshot>,
    pub after: Option<Snapshot>,
    pub body: Option<String>,
    pub cascade_from: Option<String>,
}

pub struct ChangesV {
    pub before: Option<SnapshotV>,
    pub after: Option<SnapshotV>,
    pub body: Option<Seq<char>>,
    pub cascade_from: Option<Seq<char>>,
}

impl View for Changes {
    type V = ChangesV;

    open spec fn view(&self) -> ChangesV {
        ChangesV {
            before: snap_view(self.before),
            after: snap_view(self.after),
            body: opt_view(self.body),
            cascade_from: opt_view(self.cascade_from),
        }
    }
}

impl Changes {
    pub fn copy(&self) -> (r: Changes)
        ensures
            r@ == self@,
    {
        Changes {
            before: copy_snapshot(&self.before),
            after: copy_snapshot(&self.after),
            body: clone_opt(&self.body),
            cascade_from: clone_opt(&self.cascade_from),
        }
    }
}

/// A history record, written together with the change it describes.
#[derive(Debug, Clone, PartialEq)]
pub struct HistoryEntry {
    /// Increasing sequence number over all history.
    pub id: i64,
    pub task_id: String,
    /// `created`, `edited`, `note`, `status_changed`, `parent_changed`,
    /// `reminder_added`, `reminder_updated` or `reminder_removed`.
    pub kind: String,
    pub at: String,
    pub changes: Changes,
}

pub struct HistoryV {
    pub id: int,
    pub task_id: Seq<char>,
    pub kind: Seq<char>,
    pub at: Seq<char>,
    pub changes: ChangesV,
}

impl View for HistoryEntry {
    type V = HistoryV;

    open spec fn view(&self) -> HistoryV {
        HistoryV {
            id: self.id as int,
            task_id: self.task_id@,
            kind: self.kind@,
            at: self.at@,
            changes: self.changes@,
        }
    }
}

impl HistoryEntry {
    pub fn copy(&self) -> (r: HistoryEntry)
        ensures
            r@ == self@,
    {
        HistoryEntry {
            id: self.id,
            task_id: self.task_id.clone(),
            kind: self.kind.clone(),
            at: self.at.clone(),
            changes: self.changes.copy(),
        }
    }
}

/// A list filter; fields intersect, statuses within the list unite.
#[derive(Debug, Clone, Default, PartialEq)]
pub struct ListFilter {
    /// Without explicit statuses, also match closed tasks.
    pub all: bool,
    pub category: Option<String>,
    pub project: Option<String>,
    /// Empty means the open statuses; non-empty overrides `all`.
    pub statuses: Vec<String>,
    /// Literal substring of title or description, compared in lower case.
    pub search: Option<String>,
}

/// Progress of the direct children.
#[derive(Debug, Clone, Copy, Default, PartialEq, Eq)]
pub struct Progress {
    pub done: usize,
    pub cancelled: usize,
    pub total: usize,
}

/// A task in a list, with display information.
#[derive(Debug, Clone, PartialEq)]
pub struct TaskView {
    pub task: Task,
    /// Present only as an ancestor of a match; not counted as matched.
    pub context_only: bool,
    pub progress: Progress,
}

#[derive(Debug, Clone, Copy, Default, PartialEq, Eq)]
pub struct ListSummary {
    pub matched: usize,
    pub matched_open: usize,
    /// Open tasks without a parent, over the whole store.
    pub top_level_open: usize,
    /// Open tasks over the whole store.
    pub total_open: usize,
}

#[derive(Debug, Clone, PartialEq)]
pub struct ListResult {
    /// Matches and their ancestors, ordered by creation time then id.
    pub tasks: Vec<TaskView>,
    pub summary: ListSummary,
}

#[derive(Debug, Clone, PartialEq)]
pub struct TaskDetail {
    pub task: Task,
    pub progress: Progress,
    /// All reminder associations, ordered by creation time then id.
    pub reminders: Vec<Reminder>,
}

/// An open status: `pending`, `in_progress` or `blocked`.
pub open spec fn open_status(s: Seq<char>) -> bool {
    s == "pending"@ || s == "in_progress"@ || s == "blocked"@
}

/// A closed status: `done` or `cancelled`.
pub open spec fn closed_status(s: Seq<char>) -> bool {
    s == "done"@ || s == "cancelled"@
}

pub open spec fn valid_category(s: Seq<char>) -> bool {
    s == "personal"@ || s == "work"@
}

pub open spec fn valid_status(s: Seq<char>) -> bool {
    open_status(s) || closed_status(s)
}

pub fn is_category(s: &str) -> (r: bool)
    ensures
        r == valid_category(s@),
{
    text_eq(s, "personal") || text_eq(s, "work")
}

} // verus!
