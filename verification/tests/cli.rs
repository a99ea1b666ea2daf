use claw_todo::cli::{
    dispatch, optional_edit, plan, requests_json, ArgErrorKind, Cli, Command, Plan, ReminderCommand,
};
use claw_todo::output::Response;
use claw_todo::Store;

fn args(values: &[&str]) -> Vec<String> {
    values.iter().map(|value| value.to_string()).collect()
}

#[test]
fn command_definition_is_consistent() {
    assert!(Cli::command().debug_assert());
}

#[test]
fn json_detection_respects_literal_arguments() {
    assert!(requests_json(&args(&["claw-todo", "list", "--json"])));
    assert!(!requests_json(&args(&["claw-todo", "note", "id", "--", "--json"])));
    assert!(requests_json(&args(&["claw-todo", "--json", "note", "id", "--", "--json"])));
    for value in [vec!["--title=--json"], vec!["--title", "--json"]] {
        let mut input = vec!["claw-todo", "edit", "id"];
        input.extend(value);
        assert!(!requests_json(&args(&input)));
        let parsed = Cli::try_parse_from(&args(&input)).unwrap();
        assert!(!parsed.json);
        input.push("--json");
        assert!(requests_json(&args(&input)));
        assert!(Cli::try_parse_from(&args(&input)).unwrap().json);
    }
}

#[test]
fn editing_and_clearing_the_same_field_is_rejected() {
    for (flag, clear) in [
        ("--description", "--clear-description"),
        ("--project", "--clear-project"),
        ("--source", "--clear-sources"),
    ] {
        let result = Cli::try_parse_from(&args(&["claw-todo", "edit", "id", flag, "value", clear]));
        assert_eq!(result.unwrap_err().kind(), ArgErrorKind::ArgumentConflict);
    }
}

#[test]
fn status_filters_accept_commas_and_repetition() {
    let cli = Cli::try_parse_from(&args(&[
        "claw-todo",
        "list",
        "--status",
        "done,cancelled",
        "--status",
        "blocked",
    ]))
    .unwrap();
    let Some(Command::List(args)) = cli.command else {
        panic!("expected list");
    };
    assert_eq!(args.statuses, ["done", "cancelled", "blocked"]);
}

#[test]
fn parse_errors_have_the_documented_kinds() {
    let kind = |input: &[&str]| Cli::try_parse_from(&args(input)).unwrap_err().kind();
    assert_eq!(kind(&["claw-todo", "create", "Title"]), ArgErrorKind::MissingRequiredArgument);
    assert_eq!(kind(&["claw-todo", "list", "--bogus"]), ArgErrorKind::UnknownArgument);
    assert_eq!(kind(&["claw-todo", "parent", "id"]), ArgErrorKind::MissingRequiredArgument);
    assert_eq!(
        kind(&["claw-todo", "parent", "id", "--parent", "other", "--clear-parent"]),
        ArgErrorKind::ArgumentConflict
    );
    assert_eq!(kind(&["claw-todo", "unknown"]), ArgErrorKind::InvalidSubcommand);
    assert_eq!(kind(&["claw-todo", "reminder"]), ArgErrorKind::MissingSubcommand);
    assert_eq!(kind(&["claw-todo", "list", "--status", "open"]), ArgErrorKind::InvalidValue);
    assert_eq!(kind(&["claw-todo", "list", "--status", "done,"]), ArgErrorKind::InvalidValue);
    assert_eq!(kind(&["claw-todo", "create", "T", "--category", "home"]), ArgErrorKind::InvalidValue);
    assert_eq!(kind(&["claw-todo", "create", "T", "--category", "--json"]), ArgErrorKind::InvalidValue);
    assert_eq!(
        kind(&["claw-todo", "edit", "id", "--title", "a", "--title", "b"]),
        ArgErrorKind::ArgumentConflict
    );
    assert_eq!(kind(&["claw-todo", "note", "id", "text", "more"]), ArgErrorKind::UnknownArgument);
    assert_eq!(kind(&["claw-todo", "--help"]), ArgErrorKind::DisplayHelp);
    assert_eq!(kind(&["claw-todo", "list", "-h"]), ArgErrorKind::DisplayHelp);
    assert_eq!(kind(&["claw-todo", "--version"]), ArgErrorKind::DisplayVersion);
    assert_eq!(kind(&["claw-todo", "list", "--version"]), ArgErrorKind::UnknownArgument);
}

#[test]
fn globals_values_and_defaults_are_parsed() {
    let cli = Cli::try_parse_from(&args(&[
        "claw-todo", "reminder", "add", "task-1", "--external-id", "-x", "--at", "2026-01-01T00:00:00Z",
        "--timezone", "UTC", "--channel=email", "--db", "-weird.db", "--json",
    ]))
    .unwrap();
    assert_eq!(cli.db.as_deref(), Some("-weird.db"));
    assert!(cli.json);
    let Some(Command::Reminder { command: ReminderCommand::Add { task, external_id, status, channel, .. } }) =
        cli.command
    else {
        panic!("expected reminder add");
    };
    assert_eq!(task, "task-1");
    assert_eq!(external_id, "-x");
    assert_eq!(channel, "email");
    assert_eq!(status, "scheduled");

    let cli = Cli::try_parse_from(&args(&["claw-todo", "note", "id", "--", "--json"])).unwrap();
    assert!(!cli.json);
    let Some(Command::Note { id, text }) = cli.command else {
        panic!("expected note");
    };
    assert_eq!((id.as_str(), text.as_str()), ("id", "--json"));

    let cli = Cli::try_parse_from(&args(&["claw-todo"])).unwrap();
    assert!(cli.command.is_none());
}

#[test]
fn help_version_and_refusals_are_planned_without_a_store() {
    match plan(&args(&["claw-todo", "reminder", "--help", "--json"])) {
        Plan::Show { response: Response::Help(text), json } => {
            assert!(json);
            assert!(text.contains("Usage: claw-todo reminder"));
        }
        other => panic!("unexpected plan {other:?}"),
    }
    match plan(&args(&["claw-todo", "--version"])) {
        Plan::Show { response: Response::Version(text), json } => {
            assert!(!json);
            assert_eq!(text, "claw-todo 0.1.0\n");
        }
        other => panic!("unexpected plan {other:?}"),
    }
    match plan(&args(&["claw-todo"])) {
        Plan::Show { response: Response::Help(text), .. } => assert!(text.contains("Commands:")),
        other => panic!("unexpected plan {other:?}"),
    }
    match plan(&args(&["claw-todo", "edit", "missing", "--title", "--json", "--bogus"])) {
        Plan::Refuse { json, .. } => assert!(!json),
        other => panic!("unexpected plan {other:?}"),
    }
    match plan(&args(&["claw-todo", "list", "--bogus", "--json"])) {
        Plan::Refuse { json, .. } => assert!(json),
        other => panic!("unexpected plan {other:?}"),
    }
    match plan(&args(&["claw-todo", "--db", "x.db", "show", "id"])) {
        Plan::Run { db, json, command: Command::Show(task) } => {
            assert_eq!(db.as_deref(), Some("x.db"));
            assert!(!json);
            assert_eq!(task.id, "id");
        }
        other => panic!("unexpected plan {other:?}"),
    }
}

#[test]
fn optional_edit_distinguishes_keep_set_and_clear() {
    assert_eq!(optional_edit(None, false), None);
    assert_eq!(optional_edit(Some("x".to_string()), false), Some(Some("x".to_string())));
    assert_eq!(optional_edit(None, true), Some(None));
}

#[test]
fn dispatch_runs_commands_against_the_store() {
    let mut store = Store::new();
    let parse = |input: &[&str]| Cli::try_parse_from(&args(input)).unwrap().command.unwrap();
    let created = match dispatch(&mut store, parse(&["claw-todo", "create", "Parent", "--category", "work"])) {
        Ok(Response::Created(result)) => result,
        other => panic!("unexpected {other:?}"),
    };
    assert!(!created.deduplicated);
    assert_eq!(created.task.status, "pending");
    assert_eq!(created.task.id.len(), 36);
    let chars: Vec<char> = created.task.id.chars().collect();
    for (index, c) in chars.iter().enumerate() {
        if [8, 13, 18, 23].contains(&index) {
            assert_eq!(*c, '-');
        } else {
            assert!(c.is_ascii_hexdigit() && !c.is_ascii_uppercase());
        }
    }
    assert_eq!(chars[14], '4');
    assert!(created.task.created_at.ends_with('Z'));
    assert!(chrono::DateTime::parse_from_rfc3339(&created.task.created_at).is_ok());
    let id = created.task.id.clone();
    match dispatch(&mut store, parse(&["claw-todo", "block", &id, "--reason", "waiting"])) {
        Ok(Response::Transitioned(result)) => {
            assert!(result.changed);
            assert_eq!(result.task.status, "blocked");
            assert_eq!(result.affected_task_ids, vec![id.clone()]);
        }
        other => panic!("unexpected {other:?}"),
    }
    match dispatch(&mut store, parse(&["claw-todo", "edit", &id, "--source", "a", "--source", "b"])) {
        Ok(Response::Changed(result)) => assert_eq!(result.task.sources, ["a", "b"]),
        other => panic!("unexpected {other:?}"),
    }
    match dispatch(&mut store, parse(&["claw-todo", "edit", &id, "--clear-sources"])) {
        Ok(Response::Changed(result)) => assert!(result.task.sources.is_empty()),
        other => panic!("unexpected {other:?}"),
    }
    match dispatch(&mut store, parse(&["claw-todo", "list", "--status", "blocked"])) {
        Ok(Response::Listed(result)) => assert_eq!(result.summary.matched, 1),
        other => panic!("unexpected {other:?}"),
    }
    match dispatch(&mut store, parse(&["claw-todo", "history", &id])) {
        Ok(Response::History(entries)) => {
            let kinds: Vec<_> = entries.iter().map(|entry| entry.kind.as_str()).collect();
            assert_eq!(kinds, ["created", "status_changed", "edited", "edited"]);
        }
        other => panic!("unexpected {other:?}"),
    }
    match dispatch(&mut store, parse(&["claw-todo", "show", "missing"])) {
        Err(error) => assert_eq!(claw_todo::output::error_code(&error), "NOT_FOUND"),
        other => panic!("unexpected {other:?}"),
    }
    let added = match dispatch(
        &mut store,
        parse(&[
            "claw-todo", "reminder", "add", &id, "--external-id", "ext", "--at", "2026-12-01T10:00:00Z",
            "--timezone", "UTC", "--channel", "email",
        ]),
    ) {
        Ok(Response::ReminderChanged(result)) => result.reminder,
        other => panic!("unexpected {other:?}"),
    };
    match dispatch(&mut store, parse(&["claw-todo", "reminder", "fired", &added.id])) {
        Ok(Response::ReminderChanged(result)) => assert_eq!(result.reminder.status, "fired"),
        other => panic!("unexpected {other:?}"),
    }
    match dispatch(&mut store, parse(&["claw-todo", "reminder", "remove", &added.id])) {
        Ok(Response::ReminderRemoved(reminder)) => assert_eq!(reminder.id, added.id),
        other => panic!("unexpected {other:?}"),
    }
    match dispatch(&mut store, parse(&["claw-todo", "reminder", "list", &id])) {
        Ok(Response::Reminders(reminders)) => assert!(reminders.is_empty()),
        other => panic!("unexpected {other:?}"),
    }
}
