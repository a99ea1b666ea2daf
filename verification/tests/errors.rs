use claw_todo::error::{ContextField, ContextValue};
use claw_todo::human::render_failure;
use claw_todo::output::{error_code, exit_code};
use claw_todo::{AppError, Store};
use serde_json::Value;

fn context_value(fields: Vec<ContextField>) -> Value {
    let mut map = serde_json::Map::new();
    for field in fields {
        let value = match field.value {
            ContextValue::Text(text) => Value::String(text),
            ContextValue::Texts(texts) => Value::Array(texts.into_iter().map(Value::String).collect()),
        };
        map.insert(field.key, value);
    }
    Value::Object(map)
}

#[test]
fn errors_escape_untrusted_messages_and_context_without_changing_json_values() {
    let store = Store::new();
    let missing = "missing\n\u{1b}[31m\u{202e}";
    let error = store.show(missing).unwrap_err();
    assert_eq!(exit_code(&error), 3);
    let context = context_value(error.context());
    let text = render_failure(error_code(&error), &error.message(), &context.to_string());
    assert!(!text.contains('\u{1b}'));
    assert!(!text.contains('\u{202e}'));
    assert!(text.contains("Error [NOT_FOUND]"));
    assert!(text.contains("\\u{202e}"));
    assert_eq!(text.lines().count(), 2);
    assert_eq!(context["id"], missing);
}

#[test]
fn messages_follow_each_error() {
    let cases = vec![
        (AppError::invalid("title", "Must not be empty"), "Invalid title: Must not be empty"),
        (AppError::not_found("task", "t1"), "task t1 was not found"),
        (
            AppError::CreationTokenConflict { creation_token: "k".into(), task_id: "t".into() },
            "Creation token k is already bound to a different request for task t",
        ),
        (
            AppError::ClosedAncestor { parent_id: "p".into(), ancestor_ids: vec!["a".into(), "b\"c".into()] },
            "Parent p has closed ancestors: [\"a\", \"b\\\"c\"]",
        ),
        (
            AppError::CycleDetected { task_id: "t".into(), parent_id: "c".into() },
            "Task t cannot move below c: that would create a cycle",
        ),
        (
            AppError::InvalidState { task_id: "t".into(), status: "done".into(), requested_status: "in_progress".into() },
            "Task t cannot transition from done to in_progress",
        ),
        (
            AppError::OpenDescendants { task_id: "t".into(), blocking_task_ids: vec!["c".into()] },
            "Task t has open descendants: [\"c\"]",
        ),
        (
            AppError::ChannelForbidden { task_id: "t".into(), channel: "wechat".into(), reminder_ids: vec![] },
            "Task t cannot become a work task with wechat reminders: []",
        ),
        (AppError::Database { busy: true, message: "locked".into() }, "Database operation failed: locked"),
        (AppError::Migration { busy: false, message: "m".into() }, "Database migration failed: m"),
        (AppError::Io { broken_pipe: false, message: "gone".into() }, "File operation failed: gone"),
        (AppError::Json { message: "bad".into() }, "JSON operation failed: bad"),
    ];
    for (error, message) in cases {
        assert_eq!(error.message(), message);
    }
}

#[test]
fn contexts_name_what_a_caller_needs() {
    let error = AppError::ChannelForbidden {
        task_id: "t".into(),
        channel: "wechat".into(),
        reminder_ids: vec!["r1".into(), "r2".into()],
    };
    let context = context_value(error.context());
    assert_eq!(context.to_string(), r#"{"channel":"wechat","reminder_ids":["r1","r2"],"task_id":"t"}"#);
    let error = AppError::invalid("category", "x");
    assert_eq!(context_value(error.context()).to_string(), r#"{"field":"category"}"#);
    let error = AppError::Io { broken_pipe: true, message: "pipe".into() };
    assert!(error.context().is_empty());
}
