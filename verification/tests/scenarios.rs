use claw_todo::cli::{dispatch, plan, Plan};
use claw_todo::human::render;
use claw_todo::output::{error_code, exit_code, Response};
use claw_todo::{AppError, Changes, Reminder, Snapshot, Store, Task};
use serde_json::Value;

/// Runs one invocation against an in-memory store, checking its exit status.
fn run(store: &mut Store, args: &[&str], code: u8) -> Result<Response, AppError> {
    let mut argv = vec!["claw-todo".to_string()];
    argv.extend(args.iter().map(|arg| arg.to_string()));
    match plan(&argv) {
        Plan::Run { command, .. } => {
            let result = dispatch(store, command);
            match &result {
                Ok(_) => assert_eq!(code, 0),
                Err(error) => assert_eq!(exit_code(error), code, "{error:?}"),
            }
            result
        }
        Plan::Refuse { .. } => {
            assert_eq!(code, 2);
            Err(AppError::invalid("arguments", "refused"))
        }
        Plan::Show { response, .. } => {
            assert_eq!(code, 0);
            Ok(response)
        }
    }
}

fn ok(store: &mut Store, args: &[&str]) -> Response {
    run(store, args, 0).unwrap()
}

fn err(store: &mut Store, args: &[&str], code: u8) -> AppError {
    run(store, args, code).unwrap_err()
}

fn task_of(response: &Response) -> Task {
    match response {
        Response::Created(r) => r.task.clone(),
        Response::Changed(r) => r.task.clone(),
        Response::Transitioned(r) => r.task.clone(),
        Response::Detail(r) => r.task.clone(),
        other => panic!("no task in {other:?}"),
    }
}

fn create(store: &mut Store, title: &str) -> String {
    task_of(&ok(store, &["create", title, "--category", "personal"])).id
}

fn opt(value: &Option<String>) -> Value {
    value.clone().map(Value::String).unwrap_or(Value::Null)
}

fn task_json(t: &Task) -> Value {
    let mut map = serde_json::Map::new();
    map.insert("id".into(), Value::String(t.id.clone()));
    map.insert("title".into(), Value::String(t.title.clone()));
    map.insert("description".into(), opt(&t.description));
    map.insert("status".into(), Value::String(t.status.clone()));
    map.insert("category".into(), Value::String(t.category.clone()));
    map.insert("project".into(), opt(&t.project));
    map.insert("parent_id".into(), opt(&t.parent_id));
    map.insert("blocked_reason".into(), opt(&t.blocked_reason));
    map.insert("cancel_reason".into(), opt(&t.cancel_reason));
    map.insert("sources".into(), Value::Array(t.sources.iter().cloned().map(Value::String).collect()));
    map.insert("created_at".into(), Value::String(t.created_at.clone()));
    map.insert("updated_at".into(), Value::String(t.updated_at.clone()));
    map.insert("closed_at".into(), opt(&t.closed_at));
    map.insert("creation_token".into(), opt(&t.creation_token));
    Value::Object(map)
}

fn reminder_json(r: &Reminder) -> Value {
    let mut map = serde_json::Map::new();
    for (key, value) in [
        ("id", &r.id),
        ("task_id", &r.task_id),
        ("external_id", &r.external_id),
        ("scheduled_at", &r.scheduled_at),
        ("timezone", &r.timezone),
        ("channel", &r.channel),
        ("status", &r.status),
        ("created_at", &r.created_at),
        ("updated_at", &r.updated_at),
    ] {
        map.insert(key.into(), Value::String(value.clone()));
    }
    Value::Object(map)
}

fn changes_json(c: &Changes) -> String {
    let snapshot = |s: &Option<Snapshot>| match s {
        Some(Snapshot::Task(t)) => task_json(t),
        Some(Snapshot::Reminder(r)) => reminder_json(r),
        None => Value::Null,
    };
    let mut map = serde_json::Map::new();
    map.insert("before".into(), snapshot(&c.before));
    map.insert("after".into(), snapshot(&c.after));
    if let Some(body) = &c.body {
        map.insert("body".into(), Value::String(body.clone()));
    }
    if let Some(root) = &c.cascade_from {
        map.insert("cascade_from".into(), Value::String(root.clone()));
    }
    serde_json::to_string_pretty(&Value::Object(map)).unwrap()
}

/// The human-readable output of one successful invocation.
fn human(store: &mut Store, args: &[&str]) -> String {
    let response = ok(store, args);
    let changes = match &response {
        Response::History(entries) => entries.iter().map(|e| changes_json(&e.changes)).collect(),
        _ => Vec::new(),
    };
    render(&response, &changes)
}

#[test]
fn creation_edit_parent_and_complete_history() {
    let mut store = Store::new();
    let args = [
        "create",
        "Child",
        "--category",
        "personal",
        "--creation-token",
        "request-1",
        "--description",
        "detail",
        "--project",
        "demo",
        "--source",
        "one",
        "--source",
        "two",
    ];
    let first = match ok(&mut store, &args) {
        Response::Created(r) => r,
        other => panic!("{other:?}"),
    };
    let id = first.task.id.clone();
    assert!(!first.deduplicated);
    let again = match ok(&mut store, &args) {
        Response::Created(r) => r,
        other => panic!("{other:?}"),
    };
    assert!(again.deduplicated);
    assert_eq!(again.task.id, id);
    let conflict = err(
        &mut store,
        &["create", "Different", "--category", "personal", "--creation-token", "request-1"],
        4,
    );
    assert_eq!(error_code(&conflict), "CREATION_TOKEN_CONFLICT");
    match &conflict {
        AppError::CreationTokenConflict { task_id, .. } => assert_eq!(task_id, &id),
        other => panic!("{other:?}"),
    }
    let edited = task_of(&ok(
        &mut store,
        &["edit", &id, "--title", "Edited", "--clear-description", "--clear-project", "--clear-sources"],
    ));
    assert_eq!(edited.description, None);
    assert_eq!(edited.project, None);
    assert!(edited.sources.is_empty());
    let parent = create(&mut store, "Parent");
    assert_eq!(
        task_of(&ok(&mut store, &["parent", &id, "--parent", &parent])).parent_id,
        Some(parent.clone())
    );
    let cycle = err(&mut store, &["parent", &parent, "--parent", &id], 4);
    assert_eq!(error_code(&cycle), "CYCLE_DETECTED");
    assert_eq!(task_of(&ok(&mut store, &["parent", &id, "--clear-parent"])).parent_id, None);
    ok(&mut store, &["note", &id, "Progress update"]);
    let entries = match ok(&mut store, &["history", &id]) {
        Response::History(entries) => entries,
        other => panic!("{other:?}"),
    };
    assert_eq!(entries.len(), 5);
    assert_eq!(entries.last().unwrap().kind, "note");
    assert_eq!(entries.last().unwrap().changes.body.as_deref(), Some("Progress update"));
}

#[test]
fn statuses_cascade_and_typed_constraint_errors() {
    let mut store = Store::new();
    let parent = create(&mut store, "Parent");
    let child = create(&mut store, "Child");
    ok(&mut store, &["parent", &child, "--parent", &parent]);
    ok(&mut store, &["start", &child]);
    assert_eq!(task_of(&ok(&mut store, &["block", &child, "--reason", "Waiting"])).status, "blocked");
    let refused = err(&mut store, &["done", &parent], 4);
    assert_eq!(error_code(&refused), "OPEN_DESCENDANTS");
    match &refused {
        AppError::OpenDescendants { blocking_task_ids, .. } => assert_eq!(blocking_task_ids, &vec![child.clone()]),
        other => panic!("{other:?}"),
    }
    match ok(&mut store, &["done", &parent, "--cascade"]) {
        Response::Transitioned(r) => assert_eq!(r.affected_task_ids.len(), 2),
        other => panic!("{other:?}"),
    }
    assert_eq!(error_code(&err(&mut store, &["start", &child], 4)), "INVALID_STATE");
    assert_eq!(error_code(&err(&mut store, &["reopen", &child], 4)), "CLOSED_ANCESTOR");
    ok(&mut store, &["reopen", &parent]);
    ok(&mut store, &["reopen", &child]);
    let cancelled = task_of(&ok(&mut store, &["cancel", &parent, "--reason", "No longer needed", "--cascade"]));
    assert_eq!(cancelled.status, "cancelled");
    assert_eq!(cancelled.cancel_reason.as_deref(), Some("No longer needed"));
    match ok(&mut store, &["cancel", &parent, "--reason", "No longer needed"]) {
        Response::Transitioned(r) => assert!(!r.changed),
        other => panic!("{other:?}"),
    }
}

#[test]
fn lists_filters_context_progress_and_detail() {
    let mut store = Store::new();
    let parent = create(&mut store, "Parent");
    let child = task_of(&ok(
        &mut store,
        &[
            "create", "Child", "--category", "work", "--parent", &parent, "--description", "Find me",
            "--project", "demo",
        ],
    ))
    .id;
    ok(&mut store, &["done", &child]);
    let open = match ok(&mut store, &["list"]) {
        Response::Listed(r) => r,
        other => panic!("{other:?}"),
    };
    assert_eq!(open.summary.matched, 1);
    assert_eq!(open.summary.total_open, 1);
    let filtered = match ok(
        &mut store,
        &[
            "list", "--category", "work", "--project", "demo", "--search", "Find", "--status",
            "done,cancelled", "--status", "blocked",
        ],
    ) {
        Response::Listed(r) => r,
        other => panic!("{other:?}"),
    };
    assert_eq!(filtered.summary.matched, 1);
    assert_eq!(filtered.tasks.len(), 2);
    assert!(filtered.tasks.iter().any(|v| v.task.id == parent && v.context_only));
    match ok(&mut store, &["list", "--all"]) {
        Response::Listed(r) => assert_eq!(r.summary.matched, 2),
        other => panic!("{other:?}"),
    }
    match ok(&mut store, &["show", &parent]) {
        Response::Detail(d) => {
            assert_eq!(d.progress.done, 1);
            assert_eq!(d.progress.cancelled, 0);
            assert_eq!(d.progress.total, 1);
            assert!(d.reminders.is_empty());
        }
        other => panic!("{other:?}"),
    }
}

fn reminders_of(response: Response) -> Vec<Reminder> {
    match response {
        Response::Reminders(rs) => rs,
        Response::Detail(d) => d.reminders,
        other => panic!("{other:?}"),
    }
}

fn changed_reminder(response: Response) -> Reminder {
    match response {
        Response::ReminderChanged(r) => r.reminder,
        other => panic!("{other:?}"),
    }
}

#[test]
fn local_reminder_lifecycle_and_channel_rules() {
    let mut store = Store::new();
    let id = create(&mut store, "Reminder task");
    let added = changed_reminder(ok(
        &mut store,
        &[
            "reminder", "add", &id, "--external-id", "external-1", "--at", "2026-12-01T10:00:00+08:00",
            "--timezone", "Asia/Shanghai", "--channel", "wechat",
        ],
    ));
    let reminder = added.id.clone();
    assert_eq!(reminders_of(ok(&mut store, &["reminder", "list", &id])).len(), 1);
    assert_eq!(error_code(&err(&mut store, &["edit", &id, "--category", "work"], 4)), "CHANNEL_FORBIDDEN");
    ok(
        &mut store,
        &[
            "reminder", "edit", &reminder, "--external-id", "external-2", "--channel", "email", "--status",
            "unknown",
        ],
    );
    ok(&mut store, &["edit", &id, "--category", "work"]);
    assert_eq!(
        error_code(&err(&mut store, &["reminder", "edit", &reminder, "--channel", "wechat"], 4)),
        "CHANNEL_FORBIDDEN"
    );
    let denied = err(
        &mut store,
        &[
            "reminder", "add", &id, "--external-id", "other", "--at", "2026-12-01T10:00:00Z", "--timezone",
            "UTC", "--channel", "wechat",
        ],
        4,
    );
    assert_eq!(error_code(&denied), "CHANNEL_FORBIDDEN");
    assert_eq!(changed_reminder(ok(&mut store, &["reminder", "fired", &reminder])).status, "fired");
    assert_eq!(changed_reminder(ok(&mut store, &["reminder", "cancel", &reminder])).status, "cancelled");
    ok(&mut store, &["done", &id]);
    assert_eq!(reminders_of(ok(&mut store, &["show", &id])).len(), 1);
    ok(&mut store, &["reminder", "remove", &reminder]);
    assert!(reminders_of(ok(&mut store, &["reminder", "list", &id])).is_empty());
    match err(&mut store, &["reminder", "remove", &reminder], 3) {
        AppError::NotFound { entity, .. } => assert_eq!(entity, "reminder"),
        other => panic!("{other:?}"),
    }
}

#[test]
fn filtered_tree_distinguishes_context_counts_and_closed_children() {
    let mut store = Store::new();
    let parent_id = create(&mut store, "root");
    let child_id = task_of(&ok(
        &mut store,
        &["create", "matching child", "--category", "work", "--parent", &parent_id],
    ))
    .id;
    let done_id = task_of(&ok(
        &mut store,
        &["create", "finished sibling", "--category", "personal", "--parent", &parent_id],
    ))
    .id;
    ok(&mut store, &["done", &done_id]);
    let cancelled_id = task_of(&ok(
        &mut store,
        &["create", "cancelled sibling", "--category", "personal", "--parent", &parent_id],
    ))
    .id;
    ok(&mut store, &["cancel", &cancelled_id]);

    let filtered = human(&mut store, &["list", "--category", "work"]);
    assert!(filtered.contains("Matched: 1 (open: 1)"));
    assert!(filtered.contains("top-level=1, total=2"));
    assert!(filtered.contains("[context only]"));
    assert!(filtered.contains("direct children: done=1, cancelled=1, total=3"));
    assert!(filtered.contains("└── [pending] matching child"));
    assert_eq!(filtered.matches(parent_id.as_str()).count(), 1);
    assert_eq!(filtered.matches(child_id.as_str()).count(), 1);
    assert!(!filtered.contains(done_id.as_str()));
    assert!(!filtered.contains(cancelled_id.as_str()));
    assert_eq!(filtered, human(&mut store, &["list", "--category", "work"]));

    let default = human(&mut store, &["list"]);
    assert!(default.contains("Matched: 2 (open: 2)"));
    assert!(!default.contains(done_id.as_str()));
    assert!(!default.contains(cancelled_id.as_str()));
    let all = human(&mut store, &["list", "--all"]);
    assert!(all.contains("Matched: 4 (open: 2)"));
    assert!(all.contains("[done] finished sibling"));
    assert!(all.contains("[cancelled] cancelled sibling"));
}

#[test]
fn detail_history_and_reminders_preserve_all_fields_without_terminal_controls() {
    let mut store = Store::new();
    let title = "标题\n伪造行\u{1b}[31m\u{202e}";
    let created = task_of(&ok(
        &mut store,
        &[
            "create", title, "--category", "personal", "--description", "first\nsecond", "--project",
            "project", "--source", "NOTES.md", "--source", "source\t2", "--creation-token", "human-test",
        ],
    ));
    let id = created.id.clone();
    let reminder_id = changed_reminder(ok(
        &mut store,
        &[
            "reminder", "add", &id, "--external-id", "external\nreminder", "--at",
            "2026-10-01T08:00:00+08:00", "--timezone", "Asia/Shanghai", "--channel", "email",
        ],
    ))
    .id;
    ok(&mut store, &["block", &id, "--reason", "waiting\nfor input"]);
    ok(&mut store, &["note", &id, "complete note\nline two\u{202e}"]);
    let detail = human(&mut store, &["show", &id]);
    for expected in [
        "Title: 标题\\n伪造行\\u{1b}[31m\\u{202e}",
        "Description: first\\nsecond",
        "Status: blocked",
        "Category: personal",
        "Project: project",
        "Parent: (none)",
        "Blocked reason: waiting\\nfor input",
        "Cancel reason: (none)",
        "Created at:",
        "Updated at:",
        "Closed at: (none)",
        "Creation token: human-test",
        "Sources: 2",
        "  NOTES.md",
        "  source\\t2",
        "Direct children: done=0, cancelled=0, total=0",
        "Reminders: 1",
        "External ID: external\\nreminder",
        "Timezone: Asia/Shanghai",
        "Channel: email",
        "Status: scheduled",
        reminder_id.as_str(),
    ] {
        assert!(detail.contains(expected), "missing {expected}: {detail}");
    }
    assert!(!detail.contains('\u{1b}'));
    assert!(!detail.contains('\u{202e}'));
    let history = human(&mut store, &["history", &id]);
    assert!(history.contains("complete note\\nline two\\u{202e}"));
    assert!(history.contains("\"before\":"));
    assert!(history.contains("\"after\":"));
    assert!(history.contains("\"creation_token\": \"human-test\""));
    assert!(!history.contains('\u{202e}'));
    assert_eq!(task_of(&ok(&mut store, &["show", &id])).title, title);
    assert!(human(&mut store, &["reminder", "list", &id]).contains("Reminder associations: 1"));
    assert!(human(&mut store, &["reminder", "remove", &reminder_id]).contains("Removed local reminder association:"));
}

#[test]
fn operation_summaries_report_deduplication_noop_and_cascade_affected_ids() {
    let mut store = Store::new();
    let args = ["create", "parent", "--category", "work", "--creation-token", "parent-token"];
    let parent_id = task_of(&ok(&mut store, &args)).id;
    assert!(human(&mut store, &args).contains("Existing task (creation deduplicated):"));
    assert!(human(&mut store, &["edit", &parent_id, "--title", "parent"]).starts_with("Unchanged:"));
    let child_id = task_of(&ok(&mut store, &["create", "child", "--category", "work", "--parent", &parent_id])).id;
    let closed = human(&mut store, &["done", &parent_id, "--cascade"]);
    assert!(closed.starts_with("Updated:"));
    assert!(closed.contains("Affected tasks (2):"));
    assert!(closed.contains(&format!("  {parent_id}\n")));
    assert!(closed.contains(&format!("  {child_id}\n")));
    assert!(human(&mut store, &["list"]).contains("No matching tasks."));
    let repeated = human(&mut store, &["done", &parent_id, "--cascade"]);
    assert!(repeated.starts_with("Unchanged:"));
    assert!(repeated.contains("Affected tasks (0):"));
}

#[test]
fn help_version_parser_errors_and_literal_json_values() {
    let mut store = Store::new();
    for args in [vec![], vec!["--help"], vec!["--version"], vec!["reminder", "--help"]] {
        let mut full = vec!["--db", "unused.db"];
        full.extend(args);
        full.push("--json");
        match ok(&mut store, &full) {
            Response::Help(_) | Response::Version(_) => {}
            other => panic!("{other:?}"),
        }
    }
    for args in [
        vec!["create", "Title"],
        vec!["list", "--bogus"],
        vec!["parent", "id"],
        vec!["parent", "id", "--parent", "other", "--clear-parent"],
        vec!["edit", "id", "--description", "new", "--clear-description"],
        vec!["unknown"],
    ] {
        let mut full = args.clone();
        full.push("--json");
        run(&mut store, &full, 2).unwrap_err();
    }
    match err(&mut store, &["show", "missing"], 3) {
        AppError::NotFound { entity, id } => {
            assert_eq!(entity, "task");
            assert_eq!(id, "missing");
        }
        other => panic!("{other:?}"),
    }
    assert_eq!(error_code(&err(&mut store, &["create", " ", "--category", "personal"], 2)), "INVALID_INPUT");
    let id = create(&mut store, "Literal flag");
    ok(&mut store, &["note", &id, "--", "--json"]);
    assert_eq!(task_of(&ok(&mut store, &["edit", &id, "--title=--json"])).title, "--json");
    err(&mut store, &["note", "missing", "--", "--json"], 3);
    run(&mut store, &["edit", "missing", "--title", "--json", "--bogus"], 2).unwrap_err();
}
