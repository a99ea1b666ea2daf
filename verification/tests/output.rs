use claw_todo::error::{is_busy, StoreFailure};
use claw_todo::output::{error_code, exit_code, write_failure_exit_code};
use claw_todo::AppError;

#[test]
fn infrastructure_errors_keep_stable_codes_and_busy_is_retryable() {
    let busy = AppError::Database {
        busy: is_busy(&StoreFailure::PoolTimedOut),
        message: "pool timed out while waiting for an open connection".into(),
    };
    assert_eq!(error_code(&busy), "DATABASE_BUSY");
    assert_eq!(exit_code(&busy), 5);
    let io = AppError::Io { broken_pipe: false, message: "failed".into() };
    assert_eq!(error_code(&io), "IO_ERROR");
    assert_eq!(exit_code(&io), 1);
    assert_eq!(
        write_failure_exit_code(&AppError::Io { broken_pipe: true, message: "broken pipe".into() }),
        0
    );
}

#[test]
fn busy_codes_are_read_from_the_low_byte() {
    let code = |c: &str| StoreFailure::Database { code: Some(c.to_string()) };
    assert!(is_busy(&code("5")));
    assert!(is_busy(&code("6")));
    assert!(is_busy(&code("517")));
    assert!(is_busy(&code("262")));
    assert!(!is_busy(&code("19")));
    assert!(!is_busy(&code("2067")));
    assert!(!is_busy(&code("busy")));
    assert!(!is_busy(&code("")));
    assert!(!is_busy(&StoreFailure::Database { code: None }));
    assert!(!is_busy(&StoreFailure::Other));
}

#[test]
fn every_error_kind_has_its_code_and_status() {
    let cases: Vec<(AppError, &str, u8)> = vec![
        (AppError::invalid("title", "Must not be empty"), "INVALID_INPUT", 2),
        (AppError::not_found("task", "x"), "NOT_FOUND", 3),
        (
            AppError::CreationTokenConflict { creation_token: "t".into(), task_id: "x".into() },
            "CREATION_TOKEN_CONFLICT",
            4,
        ),
        (
            AppError::ClosedAncestor { parent_id: "p".into(), ancestor_ids: vec!["p".into()] },
            "CLOSED_ANCESTOR",
            4,
        ),
        (AppError::CycleDetected { task_id: "a".into(), parent_id: "b".into() }, "CYCLE_DETECTED", 4),
        (
            AppError::InvalidState {
                task_id: "a".into(),
                status: "done".into(),
                requested_status: "in_progress".into(),
            },
            "INVALID_STATE",
            4,
        ),
        (
            AppError::OpenDescendants { task_id: "a".into(), blocking_task_ids: vec![] },
            "OPEN_DESCENDANTS",
            4,
        ),
        (
            AppError::ChannelForbidden {
                task_id: "a".into(),
                channel: "wechat".into(),
                reminder_ids: vec![],
            },
            "CHANNEL_FORBIDDEN",
            4,
        ),
        (AppError::Database { busy: false, message: "m".into() }, "DATABASE_ERROR", 1),
        (AppError::Migration { busy: false, message: "m".into() }, "MIGRATION_ERROR", 1),
        (AppError::Migration { busy: true, message: "m".into() }, "DATABASE_BUSY", 5),
        (AppError::Json { message: "m".into() }, "JSON_ERROR", 1),
    ];
    for (error, code, status) in cases {
        assert_eq!(error_code(&error), code);
        assert_eq!(exit_code(&error), status);
        assert_eq!(write_failure_exit_code(&error), 1);
    }
}
