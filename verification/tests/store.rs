use claw_todo::reminders::normalize_channel;
use claw_todo::{
    AddReminder, AppError, CreateTask, EditReminder, EditTask, ListFilter, Snapshot, Store, Task,
    Transition,
};

fn request(title: &str, parent: Option<&str>) -> CreateTask {
    CreateTask {
        title: title.into(),
        category: "personal".into(),
        parent_id: parent.map(str::to_owned),
        ..Default::default()
    }
}

fn at(n: u32) -> String {
    format!("2026-01-01T00:00:{:02}.000000Z", n)
}

fn create(store: &mut Store, id: &str, title: &str, parent: Option<&str>, n: u32) -> Task {
    store.create_at(request(title, parent), id, &at(n)).unwrap().task
}

fn cancel(reason: Option<&str>, cascade: bool) -> Transition {
    Transition::Cancel { reason: reason.map(str::to_owned), cascade }
}

#[test]
fn creation_keeps_fields_and_records_a_snapshot() {
    let mut store = Store::new();
    create(&mut store, "p", "parent", None, 1);
    let input = CreateTask {
        title: "提交周报".into(),
        category: "work".into(),
        description: Some("本周进展\n下一步计划".into()),
        project: Some("claw-todo".into()),
        parent_id: Some("p".into()),
        sources: vec!["notes/weekly.md".into(), "https://example.com/task".into()],
        creation_token: Some("weekly-001".into()),
    };
    let result = store.create_at(input.clone(), "t", &at(2)).unwrap();
    assert!(!result.deduplicated);
    let task = result.task;
    assert_eq!(task.title, input.title);
    assert_eq!(task.sources, input.sources);
    assert_eq!(task.parent_id.as_deref(), Some("p"));
    assert_eq!(task.status, "pending");
    assert_eq!(task.created_at, at(2));
    assert_eq!(task.updated_at, at(2));
    assert!(task.closed_at.is_none());
    assert_eq!(store.get("t").unwrap(), task);
    let history = store.history("t").unwrap();
    assert_eq!(history.len(), 1);
    assert_eq!(history[0].kind, "created");
    assert_eq!(history[0].at, at(2));
    assert!(history[0].changes.before.is_none());
    assert_eq!(history[0].changes.after, Some(Snapshot::Task(task.clone())));
}

#[test]
fn retries_return_the_current_task_and_other_requests_conflict() {
    let mut store = Store::new();
    let mut input = request("original", None);
    input.creation_token = Some("retry-key".into());
    let task = store.create_at(input.clone(), "t", &at(1)).unwrap().task;
    store.transition_at("t", Transition::Done { cascade: false }, &at(2)).unwrap();
    let current = store.get("t").unwrap();
    let retry = store.create_at(input.clone(), "t2", &at(3)).unwrap();
    assert!(retry.deduplicated);
    assert_eq!(retry.task, current);
    assert_eq!(retry.task.status, "done");
    input.title = "edited".into();
    let error = store.create_at(input, "t3", &at(4)).unwrap_err();
    assert_eq!(
        error,
        AppError::CreationTokenConflict { creation_token: "retry-key".into(), task_id: task.id.clone() }
    );
    assert_eq!(store.tasks().len(), 1);
    assert_eq!(store.history("t").unwrap().len(), 2);
}

#[test]
fn invalid_fields_and_missing_or_closed_parents_leave_no_writes() {
    let mut store = Store::new();
    for (field, value) in [
        ("title", ""),
        ("title", " \n\u{3000}"),
        ("category", ""),
        ("category", "unknown"),
        ("creation_token", " \n"),
    ] {
        let mut input = request("valid", None);
        match field {
            "title" => input.title = value.into(),
            "category" => input.category = value.into(),
            _ => input.creation_token = Some(value.into()),
        }
        match store.create_at(input, "x", &at(1)).unwrap_err() {
            AppError::InvalidInput { field: actual, .. } => assert_eq!(actual, field),
            other => panic!("unexpected {other:?}"),
        }
    }
    assert_eq!(
        store.create_at(request("child", Some("missing")), "x", &at(1)).unwrap_err(),
        AppError::NotFound { entity: "task".into(), id: "missing".into() }
    );
    assert_eq!(store.tasks().len(), 0);
    create(&mut store, "root", "root", None, 1);
    create(&mut store, "middle", "middle", Some("root"), 2);
    store.transition_at("root", cancel(None, true), &at(3)).unwrap();
    for parent in ["root", "middle"] {
        match store.create_at(request("rejected", Some(parent)), "x", &at(4)).unwrap_err() {
            AppError::ClosedAncestor { parent_id, ancestor_ids } => {
                assert_eq!(parent_id, parent);
                assert!(ancestor_ids.contains(&"root".to_string()));
            }
            other => panic!("unexpected {other:?}"),
        }
    }
    assert_eq!(store.tasks().len(), 2);
    assert_eq!(
        store.create_at(request("dup", None), "root", &at(5)).unwrap_err(),
        AppError::Database { busy: false, message: "UNIQUE constraint failed: tasks.id".into() }
    );
}

#[test]
fn edits_distinguish_omission_clearing_and_noop() {
    let mut store = Store::new();
    let mut input = request("original", None);
    input.description = Some("d".into());
    input.project = Some("p".into());
    input.sources = vec!["a".into()];
    store.create_at(input, "t", &at(1)).unwrap();
    let same = store
        .edit_at("t", EditTask { title: Some("original".into()), ..Default::default() }, &at(2))
        .unwrap();
    assert!(!same.changed);
    assert_eq!(same.task.updated_at, at(1));
    assert_eq!(store.history("t").unwrap().len(), 1);
    let cleared = store
        .edit_at(
            "t",
            EditTask {
                description: Some(None),
                project: Some(None),
                sources: Some(vec![]),
                ..Default::default()
            },
            &at(3),
        )
        .unwrap();
    assert!(cleared.changed);
    assert_eq!(cleared.task.description, None);
    assert_eq!(cleared.task.project, None);
    assert!(cleared.task.sources.is_empty());
    assert_eq!(cleared.task.title, "original");
    assert_eq!(cleared.task.updated_at, at(3));
    let entries = store.history("t").unwrap();
    assert_eq!(entries.last().unwrap().kind, "edited");
    for (edit, field) in [
        (EditTask { title: Some(" \n".into()), ..Default::default() }, "title"),
        (EditTask { category: Some("home".into()), ..Default::default() }, "category"),
        (EditTask { project: Some(Some(" ".into())), ..Default::default() }, "project"),
        (EditTask { sources: Some(vec!["ok".into(), "".into()]), ..Default::default() }, "source"),
    ] {
        match store.edit_at("t", edit, &at(4)).unwrap_err() {
            AppError::InvalidInput { field: actual, .. } => assert_eq!(actual, field),
            other => panic!("unexpected {other:?}"),
        }
    }
    assert_eq!(store.history("t").unwrap().len(), 2);
    let note = store.note_at("t", "  进度备注\n", &at(5)).unwrap();
    assert!(note.changed);
    let last = store.history("t").unwrap().pop().unwrap();
    assert_eq!(last.kind, "note");
    assert_eq!(last.changes.body.as_deref(), Some("  进度备注\n"));
    assert!(matches!(store.note_at("t", " ", &at(6)), Err(AppError::InvalidInput { .. })));
}

#[test]
fn lifecycle_and_repeated_actions() {
    let mut store = Store::new();
    create(&mut store, "t", "lifecycle", None, 1);
    let same = store.transition_at("t", Transition::Reopen, &at(2)).unwrap();
    assert!(!same.changed);
    assert!(same.affected_task_ids.is_empty());
    let started = store.transition_at("t", Transition::Start, &at(3)).unwrap();
    assert_eq!(started.task.status, "in_progress");
    let blocked = store.transition_at("t", Transition::Block { reason: " 等待 ".into() }, &at(4)).unwrap();
    assert_eq!(blocked.task.blocked_reason.as_deref(), Some(" 等待 "));
    let reason = store.transition_at("t", Transition::Block { reason: "新原因".into() }, &at(5)).unwrap();
    assert!(reason.changed);
    assert_eq!(store.history("t").unwrap().last().unwrap().kind, "edited");
    let done = store.transition_at("t", Transition::Done { cascade: false }, &at(6)).unwrap();
    assert_eq!(done.task.status, "done");
    assert_eq!(done.task.closed_at, Some(at(6)));
    assert_eq!(done.task.blocked_reason, None);
    let again = store.transition_at("t", Transition::Done { cascade: false }, &at(7)).unwrap();
    assert!(!again.changed);
    assert_eq!(
        store.transition_at("t", Transition::Start, &at(8)).unwrap_err(),
        AppError::InvalidState {
            task_id: "t".into(),
            status: "done".into(),
            requested_status: "in_progress".into()
        }
    );
    let reopened = store.transition_at("t", Transition::Reopen, &at(9)).unwrap();
    assert_eq!(reopened.task.status, "pending");
    assert_eq!(reopened.task.closed_at, None);
    let cancelled = store.transition_at("t", cancel(Some("不再需要"), false), &at(10)).unwrap();
    assert_eq!(cancelled.task.cancel_reason.as_deref(), Some("不再需要"));
    let fixed = store.transition_at("t", cancel(None, false), &at(11)).unwrap();
    assert!(fixed.changed);
    assert_eq!(fixed.task.cancel_reason, None);
    assert_eq!(fixed.task.closed_at, Some(at(10)));
    assert!(matches!(
        store.transition_at("t", Transition::Block { reason: " ".into() }, &at(12)),
        Err(AppError::InvalidInput { .. })
    ));
    assert_eq!(
        store.transition_at("missing", Transition::Start, &at(12)).unwrap_err(),
        AppError::NotFound { entity: "task".into(), id: "missing".into() }
    );
}

#[test]
fn closing_checks_descendants_and_cascades_only_to_open_tasks() {
    let mut store = Store::new();
    create(&mut store, "root", "root", None, 1);
    create(&mut store, "b", "b", Some("root"), 2);
    create(&mut store, "a", "a", Some("b"), 3);
    create(&mut store, "c", "c", Some("root"), 4);
    store.transition_at("c", Transition::Done { cascade: false }, &at(5)).unwrap();
    match store.transition_at("root", cancel(Some("r"), false), &at(6)).unwrap_err() {
        AppError::OpenDescendants { task_id, blocking_task_ids } => {
            assert_eq!(task_id, "root");
            assert_eq!(blocking_task_ids, ["a", "b"]);
        }
        other => panic!("unexpected {other:?}"),
    }
    let result = store.transition_at("root", cancel(Some("r"), true), &at(7)).unwrap();
    assert_eq!(result.affected_task_ids, ["root", "a", "b"]);
    for id in ["root", "a", "b"] {
        let task = store.get(id).unwrap();
        assert_eq!(task.status, "cancelled");
        assert_eq!(task.cancel_reason.as_deref(), Some("r"));
    }
    assert_eq!(store.get("c").unwrap().status, "done");
    let cascaded = store.history("a").unwrap().pop().unwrap();
    assert_eq!(cascaded.changes.cascade_from.as_deref(), Some("root"));
    match store.transition_at("a", Transition::Reopen, &at(8)).unwrap_err() {
        AppError::ClosedAncestor { parent_id, ancestor_ids } => {
            assert_eq!(parent_id, "b");
            assert_eq!(ancestor_ids, ["b", "root"]);
        }
        other => panic!("unexpected {other:?}"),
    }
}

#[test]
fn parents_reject_cycles_and_closed_ancestors() {
    let mut store = Store::new();
    create(&mut store, "root", "root", None, 1);
    create(&mut store, "mid", "mid", Some("root"), 2);
    create(&mut store, "leaf", "leaf", Some("mid"), 3);
    create(&mut store, "other", "other", None, 4);
    assert_eq!(
        store.set_parent_at("root", Some("leaf"), &at(5)).unwrap_err(),
        AppError::CycleDetected { task_id: "root".into(), parent_id: "leaf".into() }
    );
    assert_eq!(
        store.set_parent_at("root", Some("root"), &at(5)).unwrap_err(),
        AppError::CycleDetected { task_id: "root".into(), parent_id: "root".into() }
    );
    assert!(matches!(
        store.set_parent_at("root", Some(" "), &at(5)),
        Err(AppError::InvalidInput { .. })
    ));
    let same = store.set_parent_at("leaf", Some("mid"), &at(5)).unwrap();
    assert!(!same.changed);
    let moved = store.set_parent_at("leaf", Some("other"), &at(6)).unwrap();
    assert!(moved.changed);
    assert_eq!(moved.task.parent_id.as_deref(), Some("other"));
    assert_eq!(store.history("leaf").unwrap().pop().unwrap().kind, "parent_changed");
    let top = store.set_parent_at("leaf", None, &at(7)).unwrap();
    assert_eq!(top.task.parent_id, None);
    store.transition_at("other", Transition::Done { cascade: false }, &at(8)).unwrap();
    assert!(matches!(
        store.set_parent_at("leaf", Some("other"), &at(9)),
        Err(AppError::ClosedAncestor { .. })
    ));
}

#[test]
fn lists_keep_context_and_count_direct_children() {
    let mut store = Store::new();
    create(&mut store, "root", "root", None, 1);
    let mut work = request("Build Rust CLI", Some("root"));
    work.category = "work".into();
    work.description = Some("中文说明 Literal %_".into());
    store.create_at(work, "w", &at(2)).unwrap();
    create(&mut store, "done", "finished", Some("root"), 3);
    store.transition_at("done", Transition::Done { cascade: false }, &at(4)).unwrap();
    let result = store
        .list(ListFilter { search: Some("rUsT".into()), ..Default::default() })
        .unwrap();
    let ids: Vec<_> = result.tasks.iter().map(|view| view.task.id.as_str()).collect();
    assert_eq!(ids, ["root", "w"]);
    assert!(result.tasks[0].context_only);
    assert!(!result.tasks[1].context_only);
    assert_eq!(result.tasks[0].progress.done, 1);
    assert_eq!(result.tasks[0].progress.total, 2);
    assert_eq!(result.summary.matched, 1);
    assert_eq!(result.summary.matched_open, 1);
    assert_eq!(result.summary.top_level_open, 1);
    assert_eq!(result.summary.total_open, 2);
    let all = store.list(ListFilter { all: true, ..Default::default() }).unwrap();
    assert_eq!(all.summary.matched, 3);
    let done = store
        .list(ListFilter { statuses: vec!["done".into()], all: false, ..Default::default() })
        .unwrap();
    assert_eq!(done.summary.matched, 1);
    assert!(matches!(
        store.list(ListFilter { statuses: vec!["open".into()], ..Default::default() }),
        Err(AppError::InvalidInput { .. })
    ));
    let detail = store.show("root").unwrap();
    assert_eq!(detail.progress.total, 2);
    assert!(detail.reminders.is_empty());
}

fn reminder(channel: &str) -> AddReminder {
    AddReminder {
        external_id: "external-1".into(),
        scheduled_at: "2026-09-23T09:00:00+08:00".into(),
        timezone: "Asia/Shanghai".into(),
        channel: channel.into(),
        status: "scheduled".into(),
    }
}

#[test]
fn reminders_normalize_channels_and_keep_work_tasks_off_wechat() {
    let mut store = Store::new();
    create(&mut store, "t", "task", None, 1);
    let added = store.add_reminder_at("t", reminder(" Email "), "r1", &at(2)).unwrap();
    assert!(added.changed);
    assert_eq!(added.reminder.channel, "email");
    assert_eq!(store.get("t").unwrap().updated_at, at(2));
    let wechat = store.add_reminder_at("t", reminder(" We_Chat "), "r2", &at(3)).unwrap();
    assert_eq!(wechat.reminder.channel, "wechat");
    match store.edit_at("t", EditTask { category: Some("work".into()), ..Default::default() }, &at(4)).unwrap_err() {
        AppError::ChannelForbidden { reminder_ids, channel, .. } => {
            assert_eq!(channel, "wechat");
            assert_eq!(reminder_ids, ["r2"]);
        }
        other => panic!("unexpected {other:?}"),
    }
    let noop = store
        .edit_reminder_at("r2", EditReminder { channel: Some(" WX ".into()), ..Default::default() }, &at(5))
        .unwrap();
    assert!(!noop.changed);
    let fired = store
        .edit_reminder_at("r1", EditReminder { status: Some("fired".into()), ..Default::default() }, &at(6))
        .unwrap();
    assert_eq!(fired.reminder.status, "fired");
    assert!(matches!(
        store.edit_reminder_at("r1", EditReminder { scheduled_at: Some("2026-02-30T09:00:00Z".into()), ..Default::default() }, &at(7)),
        Err(AppError::InvalidInput { .. })
    ));
    assert!(matches!(
        store.add_reminder_at("t", AddReminder { status: "SCHEDULED".into(), ..reminder("email") }, "r3", &at(7)),
        Err(AppError::InvalidInput { .. })
    ));
    let removed = store.remove_reminder_at("r2", &at(8)).unwrap();
    assert_eq!(removed.id, "r2");
    let listed = store.list_reminders("t").unwrap();
    assert_eq!(listed.len(), 1);
    let kinds: Vec<_> = store.history("t").unwrap().into_iter().map(|entry| entry.kind).collect();
    assert_eq!(
        kinds,
        ["created", "reminder_added", "reminder_added", "reminder_updated", "reminder_removed"]
    );
    store.edit_at("t", EditTask { category: Some("work".into()), ..Default::default() }, &at(9)).unwrap();
    match store.add_reminder_at("t", reminder("weixin"), "r4", &at(10)).unwrap_err() {
        AppError::ChannelForbidden { .. } => {}
        other => panic!("unexpected {other:?}"),
    }
    assert_eq!(
        store.remove_reminder_at("missing", &at(11)).unwrap_err(),
        AppError::NotFound { entity: "reminder".into(), id: "missing".into() }
    );
    let history_before = store.history("t").unwrap().len();
    assert_eq!(
        store.remove_reminder_at("r2", &at(12)).unwrap_err(),
        AppError::NotFound { entity: "reminder".into(), id: "r2".into() }
    );
    assert_eq!(store.history("t").unwrap().len(), history_before);
    assert_eq!(store.list_reminders("t").unwrap().len(), 1);
}

#[test]
fn loading_checks_the_store_invariant() {
    let mut store = Store::new();
    create(&mut store, "a", "a", None, 1);
    create(&mut store, "b", "b", None, 2);
    let tasks = store.tasks().clone();
    let requests = store.requests().clone();
    let history = store.history_entries().clone();
    let next = store.next_history_id();
    let loaded = Store::load(tasks.clone(), requests.clone(), vec![], history.clone(), next).unwrap();
    assert_eq!(loaded.tasks(), store.tasks());
    let mut twice = tasks.clone();
    twice[1].id = "a".into();
    assert!(Store::load(twice, requests.clone(), vec![], history.clone(), next).is_none());
    assert!(Store::load(tasks.clone(), requests.clone(), vec![], history.clone(), 1).is_none());
    assert!(Store::load(tasks, vec![], vec![], history, next).is_none());
}

#[test]
fn clock_times_are_utc_rfc3339_with_microseconds() {
    let mut store = Store::new();
    let task = store.create(request("timed", None)).unwrap().task;
    let t: Vec<char> = task.created_at.chars().collect();
    assert_eq!(t.len(), 27);
    for (i, c) in t.iter().enumerate() {
        match i {
            4 | 7 => assert_eq!(*c, '-'),
            10 => assert_eq!(*c, 'T'),
            13 | 16 => assert_eq!(*c, ':'),
            19 => assert_eq!(*c, '.'),
            26 => assert_eq!(*c, 'Z'),
            _ => assert!(c.is_ascii_digit()),
        }
    }
    assert_eq!(task.updated_at, task.created_at);
}

#[test]
fn normalizing_a_channel_twice_changes_nothing() {
    assert_eq!(normalize_channel(" WX "), "wechat");
    assert_eq!(normalize_channel("Wei_Xin"), "wechat");
    assert_eq!(normalize_channel("微信"), "wechat");
    assert_eq!(normalize_channel(" Email "), "email");
    for channel in [" WX ", "Wei-Xin", "微信", " Email ", "SMS Gateway", ""] {
        let once = normalize_channel(channel);
        assert_eq!(normalize_channel(&once), once);
    }
}
