//! What a command answers, and how each error is classified for callers:
//! a stable code and a process exit status.
use vstd::prelude::*;

use crate::error::{AppError, ErrorV};
use crate::model::{ChangeResult, CreateResult, HistoryEntry, ListResult, TaskDetail, TransitionResult};
use crate::reminders::{Reminder, ReminderResult};

verus! {

/// The outcome of one command, before it is written out.
#[derive(Debug)]
pub enum Response {
    Created(CreateResult),
    Changed(ChangeResult),
    Transitioned(TransitionResult),
    Listed(ListResult),
    Detail(TaskDetail),
    History(Vec<HistoryEntry>),
    ReminderChanged(ReminderResult),
    Reminders(Vec<Reminder>),
    ReminderRemoved(Reminder),
    Help(String),
    Version(String),
}

/// The stable machine-readable code of an error.
pub open spec fn code_of(e: ErrorV) -> Seq<char> {
    match e {
        ErrorV::InvalidInput { .. } => "INVALID_INPUT"@,
        ErrorV::NotFound { .. } => "NOT_FOUND"@,
        ErrorV::CreationTokenConflict { .. } => "CREATION_TOKEN_CONFLICT"@,
        ErrorV::ClosedAncestor { .. } => "CLOSED_ANCESTOR"@,
        ErrorV::CycleDetected { .. } => "CYCLE_DETECTED"@,
        ErrorV::InvalidState { .. } => "INVALID_STATE"@,
        ErrorV::OpenDescendants { .. } => "OPEN_DESCENDANTS"@,
        ErrorV::ChannelForbidden { .. } => "CHANNEL_FORBIDDEN"@,
        ErrorV::Database { busy, .. } => if busy {
            "DATABASE_BUSY"@
        } else {
            "DATABASE_ERROR"@
        },
        ErrorV::Migration { busy, .. } => if busy {
            "DATABASE_BUSY"@
        } else {
            "MIGRATION_ERROR"@
        },
        ErrorV::Io { .. } => "IO_ERROR"@,
        ErrorV::Json { .. } => "JSON_ERROR"@,
    }
}

/// The exit status of a failed command: 2 for invalid input, 3 for a missing
/// entity, 4 for a refused state change, 5 for a busy database, else 1.
pub open spec fn exit_of(e: ErrorV) -> u8 {
    match e {
        ErrorV::InvalidInput { .. } => 2,
        ErrorV::NotFound { .. } => 3,
        ErrorV::CreationTokenConflict { .. } => 4,
        ErrorV::ClosedAncestor { .. } => 4,
        ErrorV::CycleDetected { .. } => 4,
        ErrorV::InvalidState { .. } => 4,
        ErrorV::OpenDescendants { .. } => 4,
        ErrorV::ChannelForbidden { .. } => 4,
        ErrorV::Database { busy, .. } => if busy {
            5
        } else {
            1
        },
        ErrorV::Migration { busy, .. } => if busy {
            5
        } else {
            1
        },
        ErrorV::Io { .. } => 1,
        ErrorV::Json { .. } => 1,
    }
}

/// The stable code of an error.
pub fn error_code(error: &AppError) -> (r: &'static str)
    ensures
        r@ == code_of(error@),
{
    match error {
        AppError::InvalidInput { .. } => "INVALID_INPUT",
        AppError::NotFound { .. } => "NOT_FOUND",
        AppError::CreationTokenConflict { .. } => "CREATION_TOKEN_CONFLICT",
        AppError::ClosedAncestor { .. } => "CLOSED_ANCESTOR",
        AppError::CycleDetected { .. } => "CYCLE_DETECTED",
        AppError::InvalidState { .. } => "INVALID_STATE",
        AppError::OpenDescendants { .. } => "OPEN_DESCENDANTS",
        AppError::ChannelForbidden { .. } => "CHANNEL_FORBIDDEN",
        AppError::Database { busy, .. } => if *busy {
            "DATABASE_BUSY"
        } else {
            "DATABASE_ERROR"
        },
        AppError::Migration { busy, .. } => if *busy {
            "DATABASE_BUSY"
        } else {
            "MIGRATION_ERROR"
        },
        AppError::Io { .. } => "IO_ERROR",
        AppError::Json { .. } => "JSON_ERROR",
    }
}

/// The exit status for a command that failed with `error`.
pub fn exit_code(error: &AppError) -> (r: u8)
    ensures
        r == exit_of(error@),
{
    match error {
        AppError::InvalidInput { .. } => 2,
        AppError::NotFound { .. } => 3,
        AppError::CreationTokenConflict { .. } | AppError::ClosedAncestor { .. }
        | AppError::CycleDetected { .. } | AppError::InvalidState { .. }
        | AppError::OpenDescendants { .. } | AppError::ChannelForbidden { .. } => 4,
        AppError::Database { busy, .. } | AppError::Migration { busy, .. } => if *busy {
            5
        } else {
            1
        },
        AppError::Io { .. } | AppError::Json { .. } => 1,
    }
}

/// The exit status when writing the result itself failed: a reader that
/// closed the pipe early is no failure.
pub fn write_failure_exit_code(error: &AppError) -> (r: u8)
    ensures
        r == (if error@ matches ErrorV::Io { broken_pipe: true, .. } {
            0u8
        } else {
            1u8
        }),
{
    match error {
        AppError::Io { broken_pipe: true, .. } => 0,
        _ => 1,
    }
}

} // verus!
