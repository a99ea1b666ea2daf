use claw_todo::human::{human_text, optional, render, render_progress, render_reminder};
use claw_todo::output::Response;
use claw_todo::{
    ChangeResult, Changes, CreateResult, HistoryEntry, ListResult, ListSummary, Progress, Reminder,
    Snapshot, Task, TaskView, TransitionResult,
};

fn task(id: &str, title: &str, parent: Option<&str>, context_only: bool) -> TaskView {
    TaskView {
        task: Task {
            id: id.into(),
            title: title.into(),
            parent_id: parent.map(str::to_string),
            description: None,
            status: "pending".into(),
            category: "personal".into(),
            project: None,
            blocked_reason: None,
            cancel_reason: None,
            sources: vec![],
            created_at: "now".into(),
            updated_at: "now".into(),
            closed_at: None,
            creation_token: None,
        },
        context_only,
        progress: Progress::default(),
    }
}

fn show(response: &Response) -> String {
    render(response, &Vec::new())
}

#[test]
fn tree_preserves_context_branching_and_direct_child_counts() {
    let mut parent = task("parent", "Parent", None, true);
    parent.progress = Progress {
        done: 1,
        cancelled: 2,
        total: 5,
    };
    let response = Response::Listed(ListResult {
        tasks: vec![
            task("child", "Child", Some("parent"), false),
            parent,
            task("grandchild", "Grandchild", Some("child"), false),
            task("sibling", "Sibling", Some("parent"), false),
            task("other", "Other", None, false),
        ],
        summary: ListSummary {
            matched: 4,
            matched_open: 4,
            top_level_open: 2,
            total_open: 5,
        },
    });
    let text = show(&response);
    assert!(text.contains("Matched: 4 (open: 4)"));
    assert!(text.contains("top-level=2, total=5"));
    assert!(text.contains("[context only] [direct children: done=1, cancelled=2, total=5]"));
    assert!(text.contains("├── [pending] Child (child)"));
    assert!(text.contains("│   └── [pending] Grandchild (grandchild)"));
    assert!(text.contains("└── [pending] Sibling (sibling)"));
    assert!(text.contains("\n[pending] Other (other)"));
    assert_eq!(text.matches("Child (child)").count(), 1);
    assert_eq!(text, show(&response));
}

#[test]
fn moved_older_child_renders_below_its_newer_parent_once() {
    let mut child = task("child", "Older child", Some("parent"), false);
    child.task.created_at = "2026-09-20T00:00:00.000000Z".into();
    let mut parent = task("parent", "Newer parent", None, false);
    parent.task.created_at = "2026-09-21T00:00:00.000000Z".into();
    let text = show(&Response::Listed(ListResult {
        tasks: vec![child, parent],
        summary: ListSummary {
            matched: 2,
            matched_open: 2,
            top_level_open: 1,
            total_open: 2,
        },
    }));
    let rows: Vec<_> = text.lines().skip(2).collect();
    assert_eq!(rows.len(), 2);
    assert_eq!(rows[0], "[pending] Newer parent (parent) category=personal");
    assert_eq!(
        rows[1],
        "└── [pending] Older child (child) category=personal"
    );
    assert_eq!(text.matches("(parent)").count(), 1);
    assert_eq!(text.matches("(child)").count(), 1);
}

#[test]
fn matching_parent_and_child_share_one_context_only_grandparent() {
    let text = show(&Response::Listed(ListResult {
        tasks: vec![
            task("child", "Child", Some("parent"), false),
            task("parent", "Parent", Some("grandparent"), false),
            task("grandparent", "Grandparent", None, true),
        ],
        summary: ListSummary {
            matched: 2,
            matched_open: 2,
            top_level_open: 1,
            total_open: 3,
        },
    }));
    assert!(text.contains("Matched: 2 (open: 2)"));
    assert!(
        text.contains("[pending] Grandparent (grandparent) category=personal [context only]")
    );
    assert!(text.contains("\n└── [pending] Parent (parent) category=personal\n"));
    assert!(text.contains("\n    └── [pending] Child (child) category=personal\n"));
    assert_eq!(text.matches("[context only]").count(), 1);
    for id in ["(grandparent)", "(parent)", "(child)"] {
        assert_eq!(text.matches(id).count(), 1);
    }
}

#[test]
fn controls_cannot_insert_tree_lines_or_terminal_escapes() {
    let malicious = "line\nnext\t\u{1b}[31m\u{202e}end\u{2066}";
    let safe = "line\\nnext\\t\\u{1b}[31m\\u{202e}end\\u{2066}";
    assert_eq!(human_text(malicious), safe);
    assert_eq!(human_text("中文标题"), "中文标题");
    let snapshot = task("task", "保留完整快照", None, false).task;
    let mut after = serde_json::Map::new();
    let text_value = |s: &str| serde_json::Value::String(s.into());
    let optional_value = |s: &Option<String>| s.as_deref().map_or(serde_json::Value::Null, text_value);
    after.insert("id".into(), text_value(&snapshot.id));
    after.insert("title".into(), text_value(&snapshot.title));
    after.insert("description".into(), optional_value(&snapshot.description));
    after.insert("status".into(), text_value(&snapshot.status));
    after.insert("category".into(), text_value(&snapshot.category));
    after.insert("project".into(), optional_value(&snapshot.project));
    after.insert("parent_id".into(), optional_value(&snapshot.parent_id));
    after.insert("blocked_reason".into(), optional_value(&snapshot.blocked_reason));
    after.insert("cancel_reason".into(), optional_value(&snapshot.cancel_reason));
    after.insert("sources".into(), serde_json::Value::Array(vec![]));
    after.insert("created_at".into(), text_value(&snapshot.created_at));
    after.insert("updated_at".into(), text_value(&snapshot.updated_at));
    after.insert("closed_at".into(), optional_value(&snapshot.closed_at));
    after.insert("creation_token".into(), optional_value(&snapshot.creation_token));
    let mut changes = serde_json::Map::new();
    changes.insert("body".into(), serde_json::Value::String(malicious.into()));
    changes.insert("before".into(), serde_json::Value::Null);
    changes.insert("after".into(), serde_json::Value::Object(after));
    let pretty = serde_json::to_string_pretty(&serde_json::Value::Object(changes)).unwrap();
    let text = render(
        &Response::History(vec![HistoryEntry {
            id: 1,
            task_id: "task".into(),
            at: "now".into(),
            kind: "note".into(),
            changes: Changes {
                before: None,
                after: Some(Snapshot::Task(snapshot.clone())),
                body: Some(malicious.into()),
                cascade_from: None,
            },
        }]),
        &vec![pretty],
    );
    assert!(!text.contains('\u{202e}'));
    assert!(!text.contains('\u{1b}'));
    assert!(text.contains("保留完整快照"));
    assert!(text.contains("\\u{202e}"));
}

#[test]
fn deeply_nested_trees_are_rendered_in_full_without_recursion() {
    let depth = 1200;
    let tasks = (0..depth)
        .map(|index| {
            let parent = if index > 0 { Some(format!("id-{}", index - 1)) } else { None };
            task(
                &format!("id-{index}"),
                &format!("Task {index}"),
                parent.as_deref(),
                false,
            )
        })
        .collect();
    let text = show(&Response::Listed(ListResult {
        tasks,
        summary: ListSummary {
            matched: depth,
            matched_open: depth,
            top_level_open: 1,
            total_open: depth,
        },
    }));
    assert_eq!(text.lines().count(), depth + 2);
    assert!(text.contains("Task 1199 (id-1199)"));
}

#[test]
fn empty_lists_and_history_say_so() {
    let text = show(&Response::Listed(ListResult {
        tasks: vec![],
        summary: ListSummary::default(),
    }));
    assert_eq!(
        text,
        "Matched: 0 (open: 0)\nOpen across database: top-level=0, total=0\nNo matching tasks.\n"
    );
    assert_eq!(show(&Response::History(vec![])), "No history.\n");
}

#[test]
fn operation_summaries_name_the_action() {
    let t = task("a\u{202e}", "Title", None, false).task;
    let created = show(&Response::Created(CreateResult { task: t.clone(), deduplicated: true }));
    assert_eq!(created, "Existing task (creation deduplicated): a\\u{202e} [pending] Title\n");
    let created = show(&Response::Created(CreateResult { task: t.clone(), deduplicated: false }));
    assert_eq!(created, "Created: a\\u{202e} [pending] Title\n");
    let unchanged = show(&Response::Changed(ChangeResult { task: t.clone(), changed: false }));
    assert_eq!(unchanged, "Unchanged: a\\u{202e} [pending] Title\n");
    let moved = show(&Response::Transitioned(TransitionResult {
        task: t.clone(),
        changed: true,
        affected_task_ids: vec!["p".into(), "c".into()],
    }));
    assert_eq!(
        moved,
        "Updated: a\\u{202e} [pending] Title\nAffected tasks (2):\n  p\n  c\n"
    );
    assert_eq!(show(&Response::Help("usage".into())), "usage\n");
    assert_eq!(show(&Response::Version("v\n".into())), "v\n");
}

#[test]
fn fields_render_one_per_line_with_escapes() {
    let mut text = String::new();
    render_progress(&mut text, &Progress { done: 1, cancelled: 0, total: 12 });
    assert_eq!(text, "Direct children: done=1, cancelled=0, total=12\n");
    assert_eq!(optional(None), "(none)");
    assert_eq!(optional(Some("a\tb")), "a\\tb");
    let reminder = Reminder {
        id: "r".into(),
        task_id: "t".into(),
        external_id: "e\n".into(),
        scheduled_at: "2026-01-01T00:00:00Z".into(),
        timezone: "UTC".into(),
        channel: "email".into(),
        status: "scheduled".into(),
        created_at: "c".into(),
        updated_at: "u".into(),
    };
    let mut text = String::new();
    render_reminder(&mut text, &reminder, "  ");
    assert!(text.starts_with("  ID: r\n  Task: t\n  External ID: e\\n\n"));
    assert_eq!(text.lines().count(), 9);
    let removed = show(&Response::ReminderRemoved(reminder));
    assert!(removed.starts_with("Removed local reminder association:\nID: r\n"));
    let _ = Snapshot::Task(task("x", "X", None, false).task);
}

#[test]
fn history_lines_follow_the_json_text() {
    let entry = HistoryEntry {
        id: -3,
        task_id: "t".into(),
        at: "when".into(),
        kind: "edited".into(),
        changes: Changes { before: None, after: None, body: None, cascade_from: None },
    };
    let text = render(&Response::History(vec![entry]), &vec!["{\r\n  \"a\": 1\n}".into()]);
    assert_eq!(text, "when  edited  #-3\n  Task: t\n  {\n    \"a\": 1\n  }\n");
}

#[test]
fn a_tree_has_one_line_per_entry_after_two_count_lines() {
    let mut project = task("p", "Project\nwith a break", None, false);
    project.progress = Progress { done: 1, cancelled: 0, total: 2 };
    let text = show(&Response::Listed(ListResult {
        tasks: vec![
            project,
            task("a", "First", Some("p"), false),
            task("b", "Second", Some("p"), true),
            task("c", "Nested", Some("a"), false),
        ],
        summary: ListSummary { matched: 3, matched_open: 3, top_level_open: 1, total_open: 4 },
    }));
    assert_eq!(text.matches('\n').count(), 4 + 2);
    assert!(text.ends_with('\n'));
    assert_eq!(text.lines().count(), 6);
}
