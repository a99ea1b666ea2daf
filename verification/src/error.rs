//! The errors that store operations return, and their views.
use vstd::prelude::*;

use crate::text::{clone_strings, push_str, seq_view};

verus! {

/// Why an operation was refused or failed.  Every refusal leaves the store unchanged.
#[derive(Debug, Clone, PartialEq)]
pub enum AppError {
    /// A field failed validation.
    InvalidInput { field: String, message: String },
    /// An entity (`task` or `reminder`) with this id does not exist.
    NotFound { entity: String, id: String },
    /// A creation token is bound to a different original request.
    CreationTokenConflict { creation_token: String, task_id: String },
    /// The new parent, or one of its ancestors, is closed.
    ClosedAncestor { parent_id: String, ancestor_ids: Vec<String> },
    /// The new parent is the task itself or one of its descendants.
    CycleDetected { task_id: String, parent_id: String },
    /// The task cannot go from `status` to `requested_status`.
    InvalidState { task_id: String, status: String, requested_status: String },
    /// Closing without cascade while these descendants are open.
    OpenDescendants { task_id: String, blocking_task_ids: Vec<String> },
    /// A work task cannot have reminders on this channel.
    ChannelForbidden { task_id: String, channel: String, reminder_ids: Vec<String> },
    /// The storage layer failed; `busy` marks a retryable lock timeout.
    Database { busy: bool, message: String },
    /// Bringing the database schema up to date failed.
    Migration { busy: bool, message: String },
    /// A file or stream operation failed.
    Io { broken_pipe: bool, message: String },
    /// Encoding or decoding JSON failed.
    Json { message: String },
}

/// The view of an `AppError`: the same variants over `Seq<char>`.
pub enum ErrorV {
    InvalidInput { field: Seq<char>, message: Seq<char> },
    NotFound { entity: Seq<char>, id: Seq<char> },
    CreationTokenConflict { creation_token: Seq<char>, task_id: Seq<char> },
    ClosedAncestor { parent_id: Seq<char>, ancestor_ids: Seq<Seq<char>> },
    CycleDetected { task_id: Seq<char>, parent_id: Seq<char> },
    InvalidState { task_id: Seq<char>, status: Seq<char>, requested_status: Seq<char> },
    OpenDescendants { task_id: Seq<char>, blocking_task_ids: Seq<Seq<char>> },
    ChannelForbidden { task_id: Seq<char>, channel: Seq<char>, reminder_ids: Seq<Seq<char>> },
    Database { busy: bool, message: Seq<char> },
    Migration { busy: bool, message: Seq<char> },
    Io { broken_pipe: bool, message: Seq<char> },
    Json { message: Seq<char> },
}

impl View for AppError {
    type V = ErrorV;

    open spec fn view(&self) -> ErrorV {
        match self {
            AppError::InvalidInput { field, message } => ErrorV::InvalidInput {
                field: field@,
                message: message@,
            },
            AppError::NotFound { entity, id } => ErrorV::NotFound { entity: entity@, id: id@ },
            AppError::CreationTokenConflict { creation_token, task_id } =>
                ErrorV::CreationTokenConflict {
                creation_token: creation_token@,
                task_id: task_id@,
            },
            AppError::ClosedAncestor { parent_id, ancestor_ids } => ErrorV::ClosedAncestor {
                parent_id: parent_id@,
                ancestor_ids: seq_view(ancestor_ids@),
            },
            AppError::CycleDetected { task_id, parent_id } => ErrorV::CycleDetected {
                task_id: task_id@,
                parent_id: parent_id@,
            },
            AppError::InvalidState { task_id, status, requested_status } =>
                ErrorV::InvalidState {
                task_id: task_id@,
                status: status@,
                requested_status: requested_status@,
            },
            AppError::OpenDescendants { task_id, blocking_task_ids } =>
                ErrorV::OpenDescendants {
                task_id: task_id@,
                blocking_task_ids: seq_view(blocking_task_ids@),
            },
            AppError::ChannelForbidden { task_id, channel, reminder_ids } =>
                ErrorV::ChannelForbidden {
                task_id: task_id@,
                channel: channel@,
                reminder_ids: seq_view(reminder_ids@),
            },
            AppError::Database { busy, message } => ErrorV::Database {
                busy: *busy,
                message: message@,
            },
            AppError::Migration { busy, message } => ErrorV::Migration {
                busy: *busy,
                message: message@,
            },
            AppError::Io { broken_pipe, message } => ErrorV::Io {
                broken_pipe: *broken_pipe,
                message: message@,
            },
            AppError::Json { message } => ErrorV::Json { message: message@ },
        }
    }
}

/// The view of an invalid-input error.
pub open spec fn invalid_v(field: Seq<char>, message: Seq<char>) -> ErrorV {
    ErrorV::InvalidInput { field, message }
}

pub open spec fn not_found_v(entity: Seq<char>, id: Seq<char>) -> ErrorV {
    ErrorV::NotFound { entity, id }
}

/// The message of a field that must hold more than white space.
pub open spec fn empty_msg() -> Seq<char> {
    "Must not be empty"@
}

impl AppError {
    /// An `InvalidInput` error for `field`.
    pub fn invalid(field: &str, message: &str) -> (r: AppError)
        ensures
            r@ == invalid_v(field@, message@),
    {
        AppError::InvalidInput { field: field.to_owned(), message: message.to_owned() }
    }

    pub fn not_found(entity: &str, id: &str) -> (r: AppError)
        ensures
            r@ == not_found_v(entity@, id@),
    {
        AppError::NotFound { entity: entity.to_owned(), id: id.to_owned() }
    }
}

/// What a storage failure reports, as far as telling whether it is retryable.
pub enum StoreFailure {
    /// The database refused an operation, with its extended result code if it gave one.
    Database { code: Option<String> },
    /// No connection became free in time.
    PoolTimedOut,
    /// Any other failure.
    Other,
}

pub open spec fn is_digit(c: char) -> bool {
    '0' <= c <= '9'
}

/// The value of a string of decimal digits.
pub open spec fn digits_value(s: Seq<char>) -> int
    decreases s.len(),
{
    if s.len() == 0 {
        0
    } else {
        digits_value(s.drop_last()) * 10 + (s.last() as int - '0' as int)
    }
}

/// An integer as `str::parse::<i32>` reads it: an optional `+` or `-`, then one
/// or more ASCII digits, nothing else, and a value that fits in `i32`.
pub open spec fn i32_text(s: Seq<char>) -> Option<int> {
    let neg = s.len() > 0 && s[0] == '-';
    let body = if s.len() > 0 && (s[0] == '-' || s[0] == '+') {
        s.drop_first()
    } else {
        s
    };
    let v = if neg {
        -digits_value(body)
    } else {
        digits_value(body)
    };
    if body.len() > 0 && (forall|i: int| 0 <= i < body.len() ==> is_digit(#[trigger] body[i]))
        && i32::MIN <= v <= i32::MAX {
        Some(v)
    } else {
        None
    }
}

#[verifier::external_body]
/// `str::parse::<i32>`, as its documentation states it: an optional sign and
/// ASCII digits only, and an error on anything else or on overflow.
fn parse_i32(s: &str) -> (r: Option<i32>)
    ensures
        match r {
            Some(v) => i32_text(s@) == Some(v as int),
            None => i32_text(s@) is None,
        },
{
    s.parse::<i32>().ok()
}

/// SQLite's primary result codes for a busy or locked database (5 and 6),
/// read from the low byte of an extended code.
pub open spec fn busy_code(v: i32) -> bool {
    (v & 0xff) == 5 || (v & 0xff) == 6
}

pub open spec fn busy_failure(f: StoreFailure) -> bool {
    match f {
        StoreFailure::Database { code } => match code {
            Some(c) => match i32_text(c@) {
                Some(v) => busy_code(v as i32),
                None => false,
            },
            None => false,
        },
        StoreFailure::PoolTimedOut => true,
        StoreFailure::Other => false,
    }
}

/// Whether a storage failure is a retryable lock timeout.
pub fn is_busy(failure: &StoreFailure) -> (r: bool)
    ensures
        r == busy_failure(*failure),
{
    match failure {
        StoreFailure::Database { code } => match code {
            Some(c) => match parse_i32(c.as_str()) {
                Some(v) => (v & 0xff) == 5 || (v & 0xff) == 6,
                None => false,
            },
            None => false,
        },
        StoreFailure::PoolTimedOut => true,
        StoreFailure::Other => false,
    }
}

/// The `Debug` form of a list of strings, as `format!("{:?}", v)` writes it.
pub uninterp spec fn debug_list_text(v: Seq<Seq<char>>) -> Seq<char>;

#[verifier::external_body]
/// `format!("{:?}", v)` on a list of strings: the `Debug` impls of `Vec` and
/// `str` (brackets, each string quoted with `char::escape_debug`'s escapes,
/// `, ` between them).  Its result is named `debug_list_text` of the list.
fn debug_list(v: &Vec<String>) -> (r: String)
    ensures
        r@ == debug_list_text(seq_view(v@)),
{
    format!("{:?}", v)
}

/// The message of an error for people.
pub open spec fn message_of(e: ErrorV) -> Seq<char> {
    match e {
        ErrorV::InvalidInput { field, message } => "Invalid "@ + field + ": "@ + message,
        ErrorV::NotFound { entity, id } => entity + " "@ + id + " was not found"@,
        ErrorV::CreationTokenConflict { creation_token, task_id } => "Creation token "@ + creation_token
            + " is already bound to a different request for task "@ + task_id,
        ErrorV::ClosedAncestor { parent_id, ancestor_ids } => "Parent "@ + parent_id + " has closed ancestors: "@
            + debug_list_text(ancestor_ids),
        ErrorV::CycleDetected { task_id, parent_id } => "Task "@ + task_id + " cannot move below "@ + parent_id
            + ": that would create a cycle"@,
        ErrorV::InvalidState { task_id, status, requested_status } => "Task "@ + task_id
            + " cannot transition from "@ + status + " to "@ + requested_status,
        ErrorV::OpenDescendants { task_id, blocking_task_ids } => "Task "@ + task_id + " has open descendants: "@
            + debug_list_text(blocking_task_ids),
        ErrorV::ChannelForbidden { task_id, channel, reminder_ids } => "Task "@ + task_id
            + " cannot become a work task with "@ + channel + " reminders: "@ + debug_list_text(reminder_ids),
        ErrorV::Database { message, .. } => "Database operation failed: "@ + message,
        ErrorV::Migration { message, .. } => "Database migration failed: "@ + message,
        ErrorV::Io { message, .. } => "File operation failed: "@ + message,
        ErrorV::Json { message } => "JSON operation failed: "@ + message,
    }
}

/// A value in the context of an error: a text or a list of texts.
#[derive(Debug, Clone, PartialEq)]
pub enum ContextValue {
    Text(String),
    Texts(Vec<String>),
}

pub enum ContextV {
    Text(Seq<char>),
    Texts(Seq<Seq<char>>),
}

impl View for ContextValue {
    type V = ContextV;

    open spec fn view(&self) -> ContextV {
        match self {
            ContextValue::Text(t) => ContextV::Text(t@),
            ContextValue::Texts(ts) => ContextV::Texts(seq_view(ts@)),
        }
    }
}

/// One named value of an error's context.
#[derive(Debug, Clone, PartialEq)]
pub struct ContextField {
    pub key: String,
    pub value: ContextValue,
}

impl View for ContextField {
    type V = (Seq<char>, ContextV);

    open spec fn view(&self) -> (Seq<char>, ContextV) {
        (self.key@, self.value@)
    }
}

pub open spec fn fields_view(v: Seq<ContextField>) -> Seq<(Seq<char>, ContextV)> {
    v.map_values(|f: ContextField| f@)
}

/// What a caller needs to handle an error, field by field; nothing for the
/// failures of storage, files and JSON.
pub open spec fn context_of(e: ErrorV) -> Seq<(Seq<char>, ContextV)> {
    match e {
        ErrorV::InvalidInput { field, .. } => seq![("field"@, ContextV::Text(field))],
        ErrorV::NotFound { entity, id } => seq![("entity"@, ContextV::Text(entity)), ("id"@, ContextV::Text(id))],
        ErrorV::CreationTokenConflict { creation_token, task_id } => seq![
            ("creation_token"@, ContextV::Text(creation_token)),
            ("task_id"@, ContextV::Text(task_id)),
        ],
        ErrorV::ClosedAncestor { parent_id, ancestor_ids } => seq![
            ("parent_id"@, ContextV::Text(parent_id)),
            ("ancestor_ids"@, ContextV::Texts(ancestor_ids)),
        ],
        ErrorV::CycleDetected { task_id, parent_id } => seq![
            ("task_id"@, ContextV::Text(task_id)),
            ("parent_id"@, ContextV::Text(parent_id)),
        ],
        ErrorV::InvalidState { task_id, status, requested_status } => seq![
            ("task_id"@, ContextV::Text(task_id)),
            ("status"@, ContextV::Text(status)),
            ("requested_status"@, ContextV::Text(requested_status)),
        ],
        ErrorV::OpenDescendants { task_id, blocking_task_ids } => seq![
            ("task_id"@, ContextV::Text(task_id)),
            ("blocking_task_ids"@, ContextV::Texts(blocking_task_ids)),
        ],
        ErrorV::ChannelForbidden { task_id, channel, reminder_ids } => seq![
            ("task_id"@, ContextV::Text(task_id)),
            ("channel"@, ContextV::Text(channel)),
            ("reminder_ids"@, ContextV::Texts(reminder_ids)),
        ],
        _ => seq![],
    }
}

fn text_field(key: &str, value: &String) -> (r: ContextField)
    ensures
        r@ == (key@, ContextV::Text(value@)),
{
    ContextField { key: key.to_owned(), value: ContextValue::Text(value.clone()) }
}

fn texts_field(key: &str, values: &Vec<String>) -> (r: ContextField)
    ensures
        r@ == (key@, ContextV::Texts(seq_view(values@))),
{
    ContextField { key: key.to_owned(), value: ContextValue::Texts(clone_strings(values)) }
}

impl AppError {
    /// The message of this error for people.
    pub fn message(&self) -> (r: String)
        ensures
            r@ == message_of(self@),
    {
        let mut s = String::new();
        match self {
            AppError::InvalidInput { field, message } => {
                push_str(&mut s, "Invalid ");
                push_str(&mut s, field.as_str());
                push_str(&mut s, ": ");
                push_str(&mut s, message.as_str());
            },
            AppError::NotFound { entity, id } => {
                push_str(&mut s, entity.as_str());
                push_str(&mut s, " ");
                push_str(&mut s, id.as_str());
                push_str(&mut s, " was not found");
            },
            AppError::CreationTokenConflict { creation_token, task_id } => {
                push_str(&mut s, "Creation token ");
                push_str(&mut s, creation_token.as_str());
                push_str(&mut s, " is already bound to a different request for task ");
                push_str(&mut s, task_id.as_str());
            },
            AppError::ClosedAncestor { parent_id, ancestor_ids } => {
                push_str(&mut s, "Parent ");
                push_str(&mut s, parent_id.as_str());
                push_str(&mut s, " has closed ancestors: ");
                push_str(&mut s, debug_list(ancestor_ids).as_str());
            },
            AppError::CycleDetected { task_id, parent_id } => {
                push_str(&mut s, "Task ");
                push_str(&mut s, task_id.as_str());
                push_str(&mut s, " cannot move below ");
                push_str(&mut s, parent_id.as_str());
                push_str(&mut s, ": that would create a cycle");
            },
            AppError::InvalidState { task_id, status, requested_status } => {
                push_str(&mut s, "Task ");
                push_str(&mut s, task_id.as_str());
                push_str(&mut s, " cannot transition from ");
                push_str(&mut s, status.as_str());
                push_str(&mut s, " to ");
                push_str(&mut s, requested_status.as_str());
            },
            AppError::OpenDescendants { task_id, blocking_task_ids } => {
                push_str(&mut s, "Task ");
                push_str(&mut s, task_id.as_str());
                push_str(&mut s, " has open descendants: ");
                push_str(&mut s, debug_list(blocking_task_ids).as_str());
            },
            AppError::ChannelForbidden { task_id, channel, reminder_ids } => {
                push_str(&mut s, "Task ");
                push_str(&mut s, task_id.as_str());
                push_str(&mut s, " cannot become a work task with ");
                push_str(&mut s, channel.as_str());
                push_str(&mut s, " reminders: ");
                push_str(&mut s, debug_list(reminder_ids).as_str());
            },
            AppError::Database { message, .. } => {
                push_str(&mut s, "Database operation failed: ");
                push_str(&mut s, message.as_str());
            },
            AppError::Migration { message, .. } => {
                push_str(&mut s, "Database migration failed: ");
                push_str(&mut s, message.as_str());
            },
            AppError::Io { message, .. } => {
                push_str(&mut s, "File operation failed: ");
                push_str(&mut s, message.as_str());
            },
            AppError::Json { message } => {
                push_str(&mut s, "JSON operation failed: ");
                push_str(&mut s, message.as_str());
            },
        }
        s
    }

    /// The context of this error: what a caller needs to handle it.
    pub fn context(&self) -> (r: Vec<ContextField>)
        ensures
            fields_view(r@) == context_of(self@),
    {
        let mut v: Vec<ContextField> = Vec::new();
        match self {
            AppError::InvalidInput { field, .. } => {
                v.push(text_field("field", field));
            },
            AppError::NotFound { entity, id } => {
                v.push(text_field("entity", entity));
                v.push(text_field("id", id));
            },
            AppError::CreationTokenConflict { creation_token, task_id } => {
                v.push(text_field("creation_token", creation_token));
                v.push(text_field("task_id", task_id));
            },
            AppError::ClosedAncestor { parent_id, ancestor_ids } => {
                v.push(text_field("parent_id", parent_id));
                v.push(texts_field("ancestor_ids", ancestor_ids));
            },
            AppError::CycleDetected { task_id, parent_id } => {
                v.push(text_field("task_id", task_id));
                v.push(text_field("parent_id", parent_id));
            },
            AppError::InvalidState { task_id, status, requested_status } => {
                v.push(text_field("task_id", task_id));
                v.push(text_field("status", status));
                v.push(text_field("requested_status", requested_status));
            },
            AppError::OpenDescendants { task_id, blocking_task_ids } => {
                v.push(text_field("task_id", task_id));
                v.push(texts_field("blocking_task_ids", blocking_task_ids));
            },
            AppError::ChannelForbidden { task_id, channel, reminder_ids } => {
                v.push(text_field("task_id", task_id));
                v.push(text_field("channel", channel));
                v.push(texts_field("reminder_ids", reminder_ids));
            },
            _ => {},
        }
        assert(fields_view(v@) =~= context_of(self@));
        v
    }
}

} // verus!
