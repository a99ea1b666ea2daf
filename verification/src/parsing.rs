//! What a parsed command asks for: each argument and option given on the
//! command line reaches the command with the value given.
use vstd::prelude::*;

use crate::cli::{
    add_value, allowed, dashed, lift, positional, split_commas, tagged, ArgErrorKind, OptDefV, built, check, check_final, defs, find_char, find_def, first, has_opt, is_opt, parse_error, parse_ok, scan,
    scanned, start_scan, step, sub_of, vals, Cli, Command, ReminderCommand, ScanV,
};
use crate::text::{opt_view, seq_view};

verus! {

proof fn lemma_no_eq_in_search()
    ensures
        find_char("--search"@, '=', 2) == -1,
        "--search"@.skip(2) == "search"@,
{
    reveal_strlit("--search");
    reveal_strlit("search");
    reveal_with_fuel(find_char, 8);
    assert("--search"@.skip(2) =~= "search"@);
}

proof fn lemma_one_opt(k: int, v: Seq<char>, j: int)
    ensures
        vals(seq![(k, v)], j) == if j == k {
            seq![v]
        } else {
            Seq::<Seq<char>>::empty()
        },
{
    let o = seq![(k, v)];
    assert(o =~= Seq::<(int, Seq<char>)>::empty().push((k, v)));
    Seq::<(int, Seq<char>)>::empty().lemma_filter_push((k, v), is_opt(j));
    assert(Seq::<(int, Seq<char>)>::empty().filter(is_opt(j)) =~= Seq::<(int, Seq<char>)>::empty());
    if j == k {
        assert(vals(o, j) =~= seq![v]);
    } else {
        assert(vals(o, j) =~= Seq::<Seq<char>>::empty());
    }
}

/// `list --search S` parses, whatever `S` is, into a listing whose search
/// is `S`, with no other filter.
pub proof fn law_list_search_reaches_the_filter(prog: Seq<char>, search: Seq<char>, cli: Cli)
    ensures
        parse_error(seq![prog, "list"@, "--search"@, search]) is None,
        parse_ok(seq![prog, "list"@, "--search"@, search], cli) ==> (cli.command matches Some(Command::List(a))
            && opt_view(a.search) == Some(search) && !a.all && a.category is None && a.project is None
            && a.statuses@.len() == 0),
{
    let args = seq![prog, "list"@, "--search"@, search];
    reveal_strlit("list");
    reveal_strlit("create");
    reveal_strlit("edit");
    reveal_strlit("parent");
    reveal_strlit("start");
    reveal_strlit("block");
    reveal_strlit("done");
    reveal_strlit("cancel");
    reveal_strlit("reopen");
    reveal_strlit("note");
    reveal_strlit("show");
    reveal_strlit("history");
    reveal_strlit("reminder");
    reveal_strlit("--");
    reveal_strlit("--search");
    reveal_strlit("search");
    reveal_strlit("help");
    reveal_strlit("version");
    reveal_strlit("json");
    reveal_strlit("db");
    reveal_strlit("all");
    reveal_strlit("category");
    reveal_strlit("project");
    reveal_strlit("status");
    assert(sub_of(0, "list"@) == 10);
    let st0 = start_scan();
    let st1 = ScanV { node: 10, ..st0 };
    assert(step(args, 1, st0) == Ok::<(ScanV, int), (crate::cli::ArgErrorKind, int)>((st1, 1)));
    lemma_no_eq_in_search();
    let ds = defs(10);
    assert(ds.len() == 5 && ds[0].name == "all"@ && ds[1].name == "category"@ && ds[2].name == "project"@
        && ds[3].name == "status"@ && ds[4].name == "search"@);
    assert("status"@[1] != "search"@[1]);
    assert("project"@[0] != "search"@[0]);
    assert(find_def(ds, "search"@, 4) == 4);
    assert(find_def(ds, "search"@, 3) == 4);
    assert(find_def(ds, "search"@, 2) == 4);
    assert(find_def(ds, "search"@, 1) == 4);
    assert(find_def(ds, "search"@, 0) == 4);
    let st2 = ScanV { opts: seq![(4int, search)], ..st1 };
    lemma_one_opt(4, search, 4);
    assert(!has_opt(st1.opts, 4)) by {
        assert(st1.opts.filter(is_opt(4)) =~= Seq::<(int, Seq<char>)>::empty());
    }
    assert(st1.opts.push((4int, search)) =~= seq![(4int, search)]);
    assert(step(args, 2, st1) == Ok::<(ScanV, int), (crate::cli::ArgErrorKind, int)>((st2, 2)));
    assert(scan(args, 4, st2) == Ok::<ScanV, (crate::cli::ArgErrorKind, int)>(st2));
    assert(scan(args, 2, st1) == Ok::<ScanV, (crate::cli::ArgErrorKind, int)>(st2));
    assert(scanned(args) == Ok::<ScanV, (crate::cli::ArgErrorKind, int)>(st2));
    lemma_one_opt(4, search, 0);
    lemma_one_opt(4, search, 1);
    lemma_one_opt(4, search, 2);
    lemma_one_opt(4, search, 3);
    lemma_one_opt(4, search, 5);
    lemma_one_opt(4, search, 6);
    lemma_one_opt(4, search, 7);
    assert(check(st2) is None);
    assert(check_final(st2) is None);
    if parse_ok(args, cli) {
        assert(built(st2, cli.command->Some_0));
        let a = cli.command->Some_0->List_0;
        assert(seq_view(a.statuses@).len() == 0);
    }
}

proof fn lemma_vals_push(o: Seq<(int, Seq<char>)>, e: (int, Seq<char>), j: int)
    ensures
        vals(o.push(e), j) == if e.0 == j {
            vals(o, j).push(e.1)
        } else {
            vals(o, j)
        },
{
    o.lemma_filter_push(e, is_opt(j));
    let f = o.filter(is_opt(j));
    if e.0 == j {
        assert(f.push(e).map_values(|x: (int, Seq<char>)| x.1) =~= f.map_values(|x: (int, Seq<char>)| x.1).push(e.1));
    }
}

/// A text without commas is one status.
proof fn lemma_split_single(t: Seq<char>)
    requires
        forall|i: int| 0 <= i < t.len() ==> t[i] != ',',
    ensures
        split_commas(t) == seq![t],
    decreases t.len(),
{
    if t.len() > 0 {
        let u = t.drop_last();
        assert forall|i: int| 0 <= i < u.len() implies u[i] != ',' by {
            assert(u[i] == t[i]);
        }
        lemma_split_single(u);
        assert(t.last() == t[t.len() - 1]);
        assert(u.push(t.last()) =~= t);
        assert(seq![u].update(0, u.push(t.last())) =~= seq![t]);
    } else {
        assert(t =~= Seq::<char>::empty());
    }
}

proof fn lemma_flag_name(t: Seq<char>, name: Seq<char>)
    requires
        t.len() >= 2,
        t[0] == '-',
        t[1] == '-',
        t.skip(2) == name,
        forall|i: int| 0 <= i < name.len() ==> name[i] != '=',
    ensures
        find_char(t, '=', 2) == -1,
{
    assert forall|i: int| 2 <= i < t.len() implies t[i] != '=' by {
        assert(t[i] == t.skip(2)[i - 2]);
    }
    lemma_no_eq_from(t, 2);
}

proof fn lemma_no_eq_from(t: Seq<char>, from: int)
    requires
        0 <= from <= t.len(),
        forall|i: int| from <= i < t.len() ==> t[i] != '=',
    ensures
        find_char(t, '=', from) == -1,
    decreases t.len() - from,
{
    if from < t.len() {
        lemma_no_eq_from(t, from + 1);
    }
}

/// `list --all --category C --project P --status T --search S`, with a
/// category and a status that the command accepts, parses into a listing
/// that carries each value given: all tasks, category `C`, project `P`,
/// status `T` and search `S`.
pub proof fn law_list_options_reach_the_filter(
    prog: Seq<char>,
    category: Seq<char>,
    project: Seq<char>,
    status: Seq<char>,
    search: Seq<char>,
    cli: Cli,
)
    requires
        category == "personal"@ || category == "work"@,
        status == "pending"@ || status == "in_progress"@ || status == "blocked"@ || status == "done"@
            || status == "cancelled"@,
    ensures
        parse_error(
            seq![prog, "list"@, "--all"@, "--category"@, category, "--project"@, project, "--status"@, status, "--search"@, search],
        ) is None,
        parse_ok(
            seq![prog, "list"@, "--all"@, "--category"@, category, "--project"@, project, "--status"@, status, "--search"@, search],
            cli,
        ) ==> (cli.command matches Some(Command::List(a)) && a.all && opt_view(a.category) == Some(category)
            && opt_view(a.project) == Some(project) && seq_view(a.statuses@) == seq![status] && opt_view(
            a.search,
        ) == Some(search)),
{
    let args = seq![prog, "list"@, "--all"@, "--category"@, category, "--project"@, project, "--status"@, status, "--search"@, search];
    reveal_strlit("list");
    reveal_strlit("create");
    reveal_strlit("edit");
    reveal_strlit("parent");
    reveal_strlit("start");
    reveal_strlit("block");
    reveal_strlit("done");
    reveal_strlit("cancel");
    reveal_strlit("reopen");
    reveal_strlit("note");
    reveal_strlit("show");
    reveal_strlit("history");
    reveal_strlit("reminder");
    reveal_strlit("--");
    reveal_strlit("--all");
    reveal_strlit("--category");
    reveal_strlit("--project");
    reveal_strlit("--status");
    reveal_strlit("--search");
    reveal_strlit("help");
    reveal_strlit("version");
    reveal_strlit("json");
    reveal_strlit("db");
    reveal_strlit("all");
    reveal_strlit("category");
    reveal_strlit("project");
    reveal_strlit("status");
    reveal_strlit("search");
    reveal_strlit("personal");
    reveal_strlit("work");
    reveal_strlit("pending");
    reveal_strlit("in_progress");
    reveal_strlit("blocked");
    reveal_strlit("cancelled");
    assert(sub_of(0, "list"@) == 10);
    let ds = defs(10);
    assert(ds.len() == 5 && ds[0].name == "all"@ && ds[1].name == "category"@ && ds[2].name == "project"@
        && ds[3].name == "status"@ && ds[4].name == "search"@);
    assert("status"@[1] != "search"@[1]);
    assert("project"@[0] != "search"@[0]);
    assert("project"@[0] != "status"@[0]);
    assert("project"@[0] != "version"@[0]);
    assert(find_def(ds, "all"@, 0) == 0);
    assert(find_def(ds, "category"@, 1) == 1);
    assert(find_def(ds, "category"@, 0) == 1);
    assert(find_def(ds, "project"@, 2) == 2);
    assert(find_def(ds, "project"@, 1) == 2);
    assert(find_def(ds, "project"@, 0) == 2);
    assert(find_def(ds, "status"@, 3) == 3);
    assert(find_def(ds, "status"@, 2) == 3);
    assert(find_def(ds, "status"@, 1) == 3);
    assert(find_def(ds, "status"@, 0) == 3);
    assert(find_def(ds, "search"@, 4) == 4);
    assert(find_def(ds, "search"@, 3) == 4);
    assert(find_def(ds, "search"@, 2) == 4);
    assert(find_def(ds, "search"@, 1) == 4);
    assert(find_def(ds, "search"@, 0) == 4);
    assert("--all"@.skip(2) =~= "all"@);
    assert("--category"@.skip(2) =~= "category"@);
    assert("--project"@.skip(2) =~= "project"@);
    assert("--status"@.skip(2) =~= "status"@);
    assert("--search"@.skip(2) =~= "search"@);
    lemma_flag_name("--all"@, "all"@);
    lemma_flag_name("--category"@, "category"@);
    lemma_flag_name("--project"@, "project"@);
    lemma_flag_name("--status"@, "status"@);
    lemma_flag_name("--search"@, "search"@);
    assert(!dashed(category));
    assert(!dashed(status));
    lemma_split_single(status);
    assert(allowed(2, status));
    let e: Seq<(int, Seq<char>)> = Seq::empty();
    let o1 = e.push((0int, Seq::<char>::empty()));
    let o2 = o1.push((1int, category));
    let o3 = o2.push((2int, project));
    let o4 = o3.push((3int, status));
    let o5 = o4.push((4int, search));
    assert forall|j: int| #![auto] 0 <= j < 8 implies vals(e, j) == Seq::<Seq<char>>::empty() by {
        assert(e.filter(is_opt(j)) =~= e);
    }
    assert forall|j: int| #![auto] 0 <= j < 8 implies vals(o1, j) == (if j == 0 { seq![Seq::<char>::empty()] } else { Seq::<Seq<char>>::empty() }) by {
        lemma_vals_push(e, (0int, Seq::<char>::empty()), j);
        assert(Seq::<Seq<char>>::empty().push(Seq::<char>::empty()) =~= seq![Seq::<char>::empty()]);
    }
    assert forall|j: int| #![auto] 0 <= j < 8 implies vals(o2, j).len() == (if j <= 1 { 1int } else { 0int }) by {
        lemma_vals_push(o1, (1int, category), j);
    }
    assert forall|j: int| #![auto] 0 <= j < 8 implies vals(o3, j).len() == (if j <= 2 { 1int } else { 0int }) by {
        lemma_vals_push(o2, (2int, project), j);
    }
    assert forall|j: int| #![auto] 0 <= j < 8 implies vals(o4, j).len() == (if j <= 3 { 1int } else { 0int }) by {
        lemma_vals_push(o3, (3int, status), j);
    }
    assert forall|j: int| #![auto] 0 <= j < 8 implies vals(o5, j).len() == (if j <= 4 { 1int } else { 0int }) by {
        lemma_vals_push(o4, (4int, search), j);
    }
    lemma_vals_push(o1, (1int, category), 1);
    lemma_vals_push(o2, (2int, project), 1);
    lemma_vals_push(o3, (3int, status), 1);
    lemma_vals_push(o4, (4int, search), 1);
    lemma_vals_push(e, (0int, Seq::<char>::empty()), 1);
    lemma_vals_push(o2, (2int, project), 2);
    lemma_vals_push(o3, (3int, status), 2);
    lemma_vals_push(o4, (4int, search), 2);
    lemma_vals_push(e, (0int, Seq::<char>::empty()), 2);
    lemma_vals_push(o1, (1int, category), 2);
    lemma_vals_push(o3, (3int, status), 3);
    lemma_vals_push(o4, (4int, search), 3);
    lemma_vals_push(e, (0int, Seq::<char>::empty()), 3);
    lemma_vals_push(o1, (1int, category), 3);
    lemma_vals_push(o2, (2int, project), 3);
    lemma_vals_push(o4, (4int, search), 4);
    lemma_vals_push(e, (0int, Seq::<char>::empty()), 4);
    lemma_vals_push(o1, (1int, category), 4);
    lemma_vals_push(o2, (2int, project), 4);
    lemma_vals_push(o3, (3int, status), 4);
    let st0 = start_scan();
    let st1 = ScanV { node: 10, ..st0 };
    let st2 = ScanV { opts: o1, ..st1 };
    let st3 = ScanV { opts: o2, ..st1 };
    let st4 = ScanV { opts: o3, ..st1 };
    let st5 = ScanV { opts: o4, ..st1 };
    let st6 = ScanV { opts: o5, ..st1 };
    assert(st0.opts =~= e);
    assert(tagged(3, seq![status]) =~= seq![(3int, status)]);
    assert(o3 + seq![(3int, status)] =~= o4);
    assert(step(args, 1, st0) == Ok::<(ScanV, int), (ArgErrorKind, int)>((st1, 1)));
    assert(step(args, 2, st1) == Ok::<(ScanV, int), (ArgErrorKind, int)>((st2, 1)));
    assert(step(args, 3, st2) == Ok::<(ScanV, int), (ArgErrorKind, int)>((st3, 2)));
    assert(step(args, 5, st3) == Ok::<(ScanV, int), (ArgErrorKind, int)>((st4, 2)));
    assert(step(args, 7, st4) == Ok::<(ScanV, int), (ArgErrorKind, int)>((st5, 2)));
    assert(step(args, 9, st5) == Ok::<(ScanV, int), (ArgErrorKind, int)>((st6, 2)));
    assert(scan(args, 11, st6) == Ok::<ScanV, (ArgErrorKind, int)>(st6));
    assert(scan(args, 9, st5) == Ok::<ScanV, (ArgErrorKind, int)>(st6));
    assert(scan(args, 7, st4) == Ok::<ScanV, (ArgErrorKind, int)>(st6));
    assert(scan(args, 5, st3) == Ok::<ScanV, (ArgErrorKind, int)>(st6));
    assert(scan(args, 3, st2) == Ok::<ScanV, (ArgErrorKind, int)>(st6));
    assert(scan(args, 2, st1) == Ok::<ScanV, (ArgErrorKind, int)>(st6));
    assert(scanned(args) == Ok::<ScanV, (ArgErrorKind, int)>(st6));
    assert(check(st6) is None);
    assert(check_final(st6) is None);
    assert(vals(o5, 3) =~= seq![status]);
    if parse_ok(args, cli) {
        assert(built(st6, cli.command->Some_0));
    }
}

/// A word that does not look like a flag is a positional argument or a
/// command name.
proof fn lemma_word_step(args: Seq<Seq<char>>, i: int, st: ScanV)
    requires
        0 <= i < args.len(),
        !st.dd,
        !dashed(args[i]),
    ensures
        step(args, i, st) == lift(positional(st, args[i]), 1, st.node),
{
    reveal_strlit("--");
}

/// `--name value` for an option of the current command that takes a value.
proof fn lemma_value_step(args: Seq<Seq<char>>, i: int, st: ScanV, name: Seq<char>, k: int)
    requires
        0 <= i,
        i + 1 < args.len(),
        !st.dd,
        args[i].len() >= 2,
        args[i][0] == '-',
        args[i][1] == '-',
        args[i].skip(2) == name,
        name.len() > 0,
        forall|j: int| 0 <= j < name.len() ==> name[j] != '=',
        name != "help"@,
        name != "version"@,
        name != "json"@,
        name != "db"@,
        0 <= k < defs(st.node).len(),
        find_def(defs(st.node), name, 0) == k,
        defs(st.node)[k].value,
        defs(st.node)[k].hyphen || !dashed(args[i + 1]),
    ensures
        step(args, i, st) == lift(add_value(st, k, defs(st.node)[k], args[i + 1]), 2, st.node),
{
    reveal_strlit("--");
    lemma_flag_name(args[i], name);
    assert(args[i].len() != 2);
}

/// `--name` for an option of the current command that takes no value.
proof fn lemma_switch_step(args: Seq<Seq<char>>, i: int, st: ScanV, name: Seq<char>, k: int)
    requires
        0 <= i < args.len(),
        !st.dd,
        args[i].len() >= 2,
        args[i][0] == '-',
        args[i][1] == '-',
        args[i].skip(2) == name,
        name.len() > 0,
        forall|j: int| 0 <= j < name.len() ==> name[j] != '=',
        name != "help"@,
        name != "version"@,
        name != "json"@,
        name != "db"@,
        0 <= k < defs(st.node).len(),
        find_def(defs(st.node), name, 0) == k,
        !defs(st.node)[k].value,
    ensures
        step(args, i, st) == lift(add_value(st, k, defs(st.node)[k], Seq::empty()), 1, st.node),
{
    reveal_strlit("--");
    lemma_flag_name(args[i], name);
    assert(args[i].len() != 2);
}

/// A value for an option that was not given yet, or that repeats, and that
/// is among its choices (other than a status list) is recorded.
proof fn lemma_add_plain(st: ScanV, k: int, d: OptDefV, v: Seq<char>)
    requires
        d.multiple || !has_opt(st.opts, k),
        d.choices != 2,
        allowed(d.choices, v),
    ensures
        add_value(st, k, d, v) == Ok::<ScanV, ArgErrorKind>(ScanV { opts: st.opts.push((k, v)), ..st }),
{
}

proof fn lemma_vals_push_all(o: Seq<(int, Seq<char>)>, e: (int, Seq<char>))
    ensures
        forall|j: int|
            #[trigger] vals(o.push(e), j) == if e.0 == j {
                vals(o, j).push(e.1)
            } else {
                vals(o, j)
            },
{
    assert forall|j: int|
        #[trigger] vals(o.push(e), j) == if e.0 == j {
            vals(o, j).push(e.1)
        } else {
            vals(o, j)
        } by {
        lemma_vals_push(o, e, j);
    }
}

proof fn lemma_vals_none(o: Seq<(int, Seq<char>)>)
    requires
        o.len() == 0,
    ensures
        forall|j: int| #[trigger] vals(o, j) == Seq::<Seq<char>>::empty(),
{
    assert forall|j: int| #[trigger] vals(o, j) == Seq::<Seq<char>>::empty() by {
        assert(o.filter(is_opt(j)) =~= o);
    }
}

proof fn lemma_command_literals()
    ensures
        "help"@.len() == 4,
        "version"@ == seq!['v', 'e', 'r', 's', 'i', 'o', 'n'],
        "json"@.len() == 4,
        "db"@ == seq!['d', 'b'],
{
    reveal_strlit("help");
    reveal_strlit("version");
    reveal_strlit("json");
    reveal_strlit("db");
}

/// `create TITLE --category C --description D --project P --parent Q
/// --source S --creation-token K`, with a title that does not look like a
/// flag and a category that the command accepts, parses into a creation
/// that carries each value given.
pub proof fn law_create_arguments_reach_the_request(
    prog: Seq<char>,
    title: Seq<char>,
    category: Seq<char>,
    description: Seq<char>,
    project: Seq<char>,
    parent: Seq<char>,
    source: Seq<char>,
    token: Seq<char>,
    cli: Cli,
)
    requires
        !dashed(title),
        category == "personal"@ || category == "work"@,
    ensures
        parse_error(
            seq![prog, "create"@, title, "--category"@, category, "--description"@, description, "--project"@, project, "--parent"@, parent, "--source"@, source, "--creation-token"@, token],
        ) is None,
        parse_ok(
            seq![prog, "create"@, title, "--category"@, category, "--description"@, description, "--project"@, project, "--parent"@, parent, "--source"@, source, "--creation-token"@, token],
            cli,
        ) ==> (cli.command matches Some(Command::Create(a)) && a.title@ == title && a.category@ == category
            && opt_view(a.description) == Some(description) && opt_view(a.project) == Some(project)
            && opt_view(a.parent) == Some(parent) && seq_view(a.sources@) == seq![source] && opt_view(
            a.creation_token,
        ) == Some(token)),
{
    let args = seq![prog, "create"@, title, "--category"@, category, "--description"@, description, "--project"@, project, "--parent"@, parent, "--source"@, source, "--creation-token"@, token];
    lemma_command_literals();
    reveal_strlit("create");
    reveal_strlit("--category");
    reveal_strlit("--description");
    reveal_strlit("--project");
    reveal_strlit("--parent");
    reveal_strlit("--source");
    reveal_strlit("--creation-token");
    reveal_strlit("category");
    reveal_strlit("description");
    reveal_strlit("project");
    reveal_strlit("parent");
    reveal_strlit("source");
    reveal_strlit("creation-token");
    reveal_strlit("personal");
    reveal_strlit("work");
    let ds = defs(1);
    assert(ds.len() == 6 && ds[0].name == "category"@ && ds[1].name == "description"@ && ds[2].name
        == "project"@ && ds[3].name == "parent"@ && ds[4].name == "source"@ && ds[5].name == "creation-token"@);
    assert(sub_of(0, "create"@) == 1);
    assert("parent"@[0] != "source"@[0]);
    assert(find_def(ds, "category"@, 0) == 0);
    assert(find_def(ds, "description"@, 1) == 1);
    assert(find_def(ds, "description"@, 0) == 1);
    assert(find_def(ds, "project"@, 2) == 2);
    assert(find_def(ds, "project"@, 1) == 2);
    assert(find_def(ds, "project"@, 0) == 2);
    assert(find_def(ds, "parent"@, 3) == 3);
    assert(find_def(ds, "parent"@, 2) == 3);
    assert(find_def(ds, "parent"@, 1) == 3);
    assert(find_def(ds, "parent"@, 0) == 3);
    assert(find_def(ds, "source"@, 4) == 4);
    assert(find_def(ds, "source"@, 3) == 4);
    assert(find_def(ds, "source"@, 2) == 4);
    assert(find_def(ds, "source"@, 1) == 4);
    assert(find_def(ds, "source"@, 0) == 4);
    assert(find_def(ds, "creation-token"@, 5) == 5);
    assert(find_def(ds, "creation-token"@, 4) == 5);
    assert(find_def(ds, "creation-token"@, 3) == 5);
    assert(find_def(ds, "creation-token"@, 2) == 5);
    assert(find_def(ds, "creation-token"@, 1) == 5);
    assert(find_def(ds, "creation-token"@, 0) == 5);
    assert("--category"@.skip(2) =~= "category"@);
    assert("--description"@.skip(2) =~= "description"@);
    assert("--project"@.skip(2) =~= "project"@);
    assert("--parent"@.skip(2) =~= "parent"@);
    assert("--source"@.skip(2) =~= "source"@);
    assert("--creation-token"@.skip(2) =~= "creation-token"@);
    let e: Seq<(int, Seq<char>)> = Seq::empty();
    let o1 = e.push((0int, category));
    let o2 = o1.push((1int, description));
    let o3 = o2.push((2int, project));
    let o4 = o3.push((3int, parent));
    let o5 = o4.push((4int, source));
    let o6 = o5.push((5int, token));
    lemma_vals_none(e);
    lemma_vals_push_all(e, (0int, category));
    lemma_vals_push_all(o1, (1int, description));
    lemma_vals_push_all(o2, (2int, project));
    lemma_vals_push_all(o3, (3int, parent));
    lemma_vals_push_all(o4, (4int, source));
    lemma_vals_push_all(o5, (5int, token));
    let st0 = start_scan();
    let st1 = ScanV { node: 1, ..st0 };
    let st2 = ScanV { pos: seq![title], ..st1 };
    assert(st0.opts =~= e);
    lemma_word_step(args, 1, st0);
    lemma_word_step(args, 2, st1);
    assert(seq![].push(title) =~= seq![title]);
    assert(!dashed(category));
    assert(vals(e, 0).len() == 0);
    lemma_value_step(args, 3, st2, "category"@, 0);
    lemma_add_plain(st2, 0, ds[0], category);
    let st3 = ScanV { opts: o1, ..st2 };
    assert(vals(o1, 1).len() == 0);
    lemma_value_step(args, 5, st3, "description"@, 1);
    lemma_add_plain(st3, 1, ds[1], description);
    let st4 = ScanV { opts: o2, ..st2 };
    assert(vals(o2, 2).len() == 0);
    lemma_value_step(args, 7, st4, "project"@, 2);
    lemma_add_plain(st4, 2, ds[2], project);
    let st5 = ScanV { opts: o3, ..st2 };
    assert(vals(o3, 3).len() == 0);
    lemma_value_step(args, 9, st5, "parent"@, 3);
    lemma_add_plain(st5, 3, ds[3], parent);
    let st6 = ScanV { opts: o4, ..st2 };
    lemma_value_step(args, 11, st6, "source"@, 4);
    lemma_add_plain(st6, 4, ds[4], source);
    let st7 = ScanV { opts: o5, ..st2 };
    assert(vals(o5, 5).len() == 0);
    lemma_value_step(args, 13, st7, "creation-token"@, 5);
    lemma_add_plain(st7, 5, ds[5], token);
    let st8 = ScanV { opts: o6, ..st2 };
    assert(scan(args, 15, st8) == Ok::<ScanV, (ArgErrorKind, int)>(st8));
    assert(scan(args, 13, st7) == Ok::<ScanV, (ArgErrorKind, int)>(st8));
    assert(scan(args, 11, st6) == Ok::<ScanV, (ArgErrorKind, int)>(st8));
    assert(scan(args, 9, st5) == Ok::<ScanV, (ArgErrorKind, int)>(st8));
    assert(scan(args, 7, st4) == Ok::<ScanV, (ArgErrorKind, int)>(st8));
    assert(scan(args, 5, st3) == Ok::<ScanV, (ArgErrorKind, int)>(st8));
    assert(scan(args, 3, st2) == Ok::<ScanV, (ArgErrorKind, int)>(st8));
    assert(scan(args, 2, st1) == Ok::<ScanV, (ArgErrorKind, int)>(st8));
    assert(scanned(args) == Ok::<ScanV, (ArgErrorKind, int)>(st8));
    assert(vals(o6, 0) =~= seq![category]);
    assert(vals(o6, 1) =~= seq![description]);
    assert(vals(o6, 2) =~= seq![project]);
    assert(vals(o6, 3) =~= seq![parent]);
    assert(vals(o6, 4) =~= seq![source]);
    assert(vals(o6, 5) =~= seq![token]);
    assert(check(st8) is None);
    assert(check_final(st8) is None);
    if parse_ok(args, cli) {
        assert(built(st8, cli.command->Some_0));
    }
}

/// `edit ID --title T --category C --description D --project P --source S`,
/// with an id that does not look like a flag and a category that the command
/// accepts, parses into an edit that sets each value given and clears
/// nothing.
pub proof fn law_edit_arguments_reach_the_request(prog: Seq<char>, id: Seq<char>, title: Seq<char>, category: Seq<char>, description: Seq<char>, project: Seq<char>, source: Seq<char>, cli: Cli)
    requires
        !dashed(id),
        category == "personal"@ || category == "work"@,
    ensures
        parse_error(seq![prog, "edit"@, id, "--title"@, title, "--category"@, category, "--description"@, description, "--project"@, project, "--source"@, source]) is None,
        parse_ok(seq![prog, "edit"@, id, "--title"@, title, "--category"@, category, "--description"@, description, "--project"@, project, "--source"@, source], cli) ==> (cli.command matches Some(Command::Edit(a)) && a.id@ == id && opt_view(a.title) == Some(title) && opt_view(a.category) == Some(category) && opt_view(a.description) == Some(description) && !a.clear_description && opt_view(a.project) == Some(project) && !a.clear_project && seq_view(a.sources@) == seq![source] && !a.clear_sources),
{
    let args = seq![prog, "edit"@, id, "--title"@, title, "--category"@, category, "--description"@, description, "--project"@, project, "--source"@, source];
    lemma_command_literals();
    reveal_strlit("--");
    reveal_strlit("--category");
    reveal_strlit("--description");
    reveal_strlit("--project");
    reveal_strlit("--source");
    reveal_strlit("--title");
    reveal_strlit("block");
    reveal_strlit("cancel");
    reveal_strlit("category");
    reveal_strlit("clear-description");
    reveal_strlit("clear-project");
    reveal_strlit("clear-sources");
    reveal_strlit("create");
    reveal_strlit("db");
    reveal_strlit("description");
    reveal_strlit("done");
    reveal_strlit("edit");
    reveal_strlit("help");
    reveal_strlit("history");
    reveal_strlit("json");
    reveal_strlit("list");
    reveal_strlit("note");
    reveal_strlit("parent");
    reveal_strlit("project");
    reveal_strlit("reminder");
    reveal_strlit("reopen");
    reveal_strlit("show");
    reveal_strlit("source");
    reveal_strlit("start");
    reveal_strlit("title");
    reveal_strlit("version");
    reveal_strlit("personal");
    reveal_strlit("work");
    assert("project"@[0] != "version"@[0]);
    assert("clear-project"@[6] != "clear-sources"@[6]);
    assert("help"@[0] != "json"@[0]);
    assert("edit"@[0] != "done"@[0]);
    assert("edit"@[0] != "note"@[0]);
    assert("edit"@[0] != "list"@[0]);
    assert("edit"@[0] != "show"@[0]);
    let ds = defs(2);
    assert(ds.len() == 8 && ds[0].name == "title"@ && ds[1].name == "category"@ && ds[2].name == "description"@ && ds[3].name == "clear-description"@ && ds[4].name == "project"@ && ds[5].name == "clear-project"@ && ds[6].name == "source"@ && ds[7].name == "clear-sources"@);
    assert(find_def(ds, "title"@, 0) == 0);
    assert("--title"@.skip(2) =~= "title"@);
    assert(find_def(ds, "category"@, 1) == 1);
    assert(find_def(ds, "category"@, 0) == 1);
    assert("--category"@.skip(2) =~= "category"@);
    assert(find_def(ds, "description"@, 2) == 2);
    assert(find_def(ds, "description"@, 1) == 2);
    assert(find_def(ds, "description"@, 0) == 2);
    assert("--description"@.skip(2) =~= "description"@);
    assert(find_def(ds, "project"@, 4) == 4);
    assert(find_def(ds, "project"@, 3) == 4);
    assert(find_def(ds, "project"@, 2) == 4);
    assert(find_def(ds, "project"@, 1) == 4);
    assert(find_def(ds, "project"@, 0) == 4);
    assert("--project"@.skip(2) =~= "project"@);
    assert(find_def(ds, "source"@, 6) == 6);
    assert(find_def(ds, "source"@, 5) == 6);
    assert(find_def(ds, "source"@, 4) == 6);
    assert(find_def(ds, "source"@, 3) == 6);
    assert(find_def(ds, "source"@, 2) == 6);
    assert(find_def(ds, "source"@, 1) == 6);
    assert(find_def(ds, "source"@, 0) == 6);
    assert("--source"@.skip(2) =~= "source"@);
    let e: Seq<(int, Seq<char>)> = Seq::empty();
    lemma_vals_none(e);
    let st0 = start_scan();
    assert(st0.opts =~= e);
    lemma_word_step(args, 1, st0);
    assert(sub_of(0, "edit"@) == 2);
    let st1 = ScanV { node: 2, ..st0 };
    lemma_word_step(args, 2, st1);
    assert(st1.pos.push(id) =~= seq![id]);
    let st2 = ScanV { pos: seq![id], ..st1 };
    assert(vals(e, 0).len() == 0 || ds[0].multiple);
    lemma_value_step(args, 3, st2, "title"@, 0);
    lemma_add_plain(st2, 0, ds[0], title);
    let o1 = e.push((0int, title));
    lemma_vals_push_all(e, (0int, title));
    let st3 = ScanV { opts: o1, ..st2 };
    assert(vals(o1, 1).len() == 0 || ds[1].multiple);
    lemma_value_step(args, 5, st3, "category"@, 1);
    lemma_add_plain(st3, 1, ds[1], category);
    let o2 = o1.push((1int, category));
    lemma_vals_push_all(o1, (1int, category));
    let st4 = ScanV { opts: o2, ..st3 };
    assert(vals(o2, 2).len() == 0 || ds[2].multiple);
    lemma_value_step(args, 7, st4, "description"@, 2);
    lemma_add_plain(st4, 2, ds[2], description);
    let o3 = o2.push((2int, description));
    lemma_vals_push_all(o2, (2int, description));
    let st5 = ScanV { opts: o3, ..st4 };
    assert(vals(o3, 4).len() == 0 || ds[4].multiple);
    lemma_value_step(args, 9, st5, "project"@, 4);
    lemma_add_plain(st5, 4, ds[4], project);
    let o4 = o3.push((4int, project));
    lemma_vals_push_all(o3, (4int, project));
    let st6 = ScanV { opts: o4, ..st5 };
    assert(vals(o4, 6).len() == 0 || ds[6].multiple);
    lemma_value_step(args, 11, st6, "source"@, 6);
    lemma_add_plain(st6, 6, ds[6], source);
    let o5 = o4.push((6int, source));
    lemma_vals_push_all(o4, (6int, source));
    let st7 = ScanV { opts: o5, ..st6 };
    assert(scan(args, 13, st7) == Ok::<ScanV, (ArgErrorKind, int)>(st7));
    assert(scan(args, 11, st6) == Ok::<ScanV, (ArgErrorKind, int)>(st7));
    assert(scan(args, 9, st5) == Ok::<ScanV, (ArgErrorKind, int)>(st7));
    assert(scan(args, 7, st4) == Ok::<ScanV, (ArgErrorKind, int)>(st7));
    assert(scan(args, 5, st3) == Ok::<ScanV, (ArgErrorKind, int)>(st7));
    assert(scan(args, 3, st2) == Ok::<ScanV, (ArgErrorKind, int)>(st7));
    assert(scan(args, 2, st1) == Ok::<ScanV, (ArgErrorKind, int)>(st7));
    assert(scan(args, 1, st0) == Ok::<ScanV, (ArgErrorKind, int)>(st7));
    assert(scanned(args) == Ok::<ScanV, (ArgErrorKind, int)>(st7));
    assert(vals(o5, 0) =~= seq![title]);
    assert(vals(o5, 1) =~= seq![category]);
    assert(vals(o5, 2) =~= seq![description]);
    assert(vals(o5, 4) =~= seq![project]);
    assert(vals(o5, 6) =~= seq![source]);
    assert(vals(o5, 3).len() == 0);
    assert(vals(o5, 5).len() == 0);
    assert(vals(o5, 7).len() == 0);
    assert(check(st7) is None);
    assert(check_final(st7) is None);
    if parse_ok(args, cli) {
        assert(built(st7, cli.command->Some_0));
    }
}

/// `edit ID --clear-description --clear-project --clear-sources` parses into
/// an edit that clears those three fields and sets nothing.
pub proof fn law_edit_clears_reach_the_request(prog: Seq<char>, id: Seq<char>, cli: Cli)
    requires
        !dashed(id),
    ensures
        parse_error(seq![prog, "edit"@, id, "--clear-description"@, "--clear-project"@, "--clear-sources"@]) is None,
        parse_ok(seq![prog, "edit"@, id, "--clear-description"@, "--clear-project"@, "--clear-sources"@], cli) ==> (cli.command matches Some(Command::Edit(a)) && a.id@ == id && a.title is None && a.category is None && a.description is None && a.clear_description && a.project is None && a.clear_project && a.sources@.len() == 0 && a.clear_sources),
{
    let args = seq![prog, "edit"@, id, "--clear-description"@, "--clear-project"@, "--clear-sources"@];
    lemma_command_literals();
    reveal_strlit("--");
    reveal_strlit("--clear-description");
    reveal_strlit("--clear-project");
    reveal_strlit("--clear-sources");
    reveal_strlit("block");
    reveal_strlit("cancel");
    reveal_strlit("category");
    reveal_strlit("clear-description");
    reveal_strlit("clear-project");
    reveal_strlit("clear-sources");
    reveal_strlit("create");
    reveal_strlit("db");
    reveal_strlit("description");
    reveal_strlit("done");
    reveal_strlit("edit");
    reveal_strlit("help");
    reveal_strlit("history");
    reveal_strlit("json");
    reveal_strlit("list");
    reveal_strlit("note");
    reveal_strlit("parent");
    reveal_strlit("project");
    reveal_strlit("reminder");
    reveal_strlit("reopen");
    reveal_strlit("show");
    reveal_strlit("source");
    reveal_strlit("start");
    reveal_strlit("title");
    reveal_strlit("version");
    assert("project"@[0] != "version"@[0]);
    assert("clear-project"@[6] != "clear-sources"@[6]);
    assert("help"@[0] != "json"@[0]);
    assert("edit"@[0] != "done"@[0]);
    assert("edit"@[0] != "note"@[0]);
    assert("edit"@[0] != "list"@[0]);
    assert("edit"@[0] != "show"@[0]);
    let ds = defs(2);
    assert(ds.len() == 8 && ds[0].name == "title"@ && ds[1].name == "category"@ && ds[2].name == "description"@ && ds[3].name == "clear-description"@ && ds[4].name == "project"@ && ds[5].name == "clear-project"@ && ds[6].name == "source"@ && ds[7].name == "clear-sources"@);
    assert(find_def(ds, "clear-description"@, 3) == 3);
    assert(find_def(ds, "clear-description"@, 2) == 3);
    assert(find_def(ds, "clear-description"@, 1) == 3);
    assert(find_def(ds, "clear-description"@, 0) == 3);
    assert("--clear-description"@.skip(2) =~= "clear-description"@);
    assert(find_def(ds, "clear-project"@, 5) == 5);
    assert(find_def(ds, "clear-project"@, 4) == 5);
    assert(find_def(ds, "clear-project"@, 3) == 5);
    assert(find_def(ds, "clear-project"@, 2) == 5);
    assert(find_def(ds, "clear-project"@, 1) == 5);
    assert(find_def(ds, "clear-project"@, 0) == 5);
    assert("--clear-project"@.skip(2) =~= "clear-project"@);
    assert(find_def(ds, "clear-sources"@, 7) == 7);
    assert(find_def(ds, "clear-sources"@, 6) == 7);
    assert(find_def(ds, "clear-sources"@, 5) == 7);
    assert(find_def(ds, "clear-sources"@, 4) == 7);
    assert(find_def(ds, "clear-sources"@, 3) == 7);
    assert(find_def(ds, "clear-sources"@, 2) == 7);
    assert(find_def(ds, "clear-sources"@, 1) == 7);
    assert(find_def(ds, "clear-sources"@, 0) == 7);
    assert("--clear-sources"@.skip(2) =~= "clear-sources"@);
    let e: Seq<(int, Seq<char>)> = Seq::empty();
    lemma_vals_none(e);
    let st0 = start_scan();
    assert(st0.opts =~= e);
    lemma_word_step(args, 1, st0);
    assert(sub_of(0, "edit"@) == 2);
    let st1 = ScanV { node: 2, ..st0 };
    lemma_word_step(args, 2, st1);
    assert(st1.pos.push(id) =~= seq![id]);
    let st2 = ScanV { pos: seq![id], ..st1 };
    assert(vals(e, 3).len() == 0 || ds[3].multiple);
    lemma_switch_step(args, 3, st2, "clear-description"@, 3);
    lemma_add_plain(st2, 3, ds[3], Seq::<char>::empty());
    let o1 = e.push((3int, Seq::<char>::empty()));
    lemma_vals_push_all(e, (3int, Seq::<char>::empty()));
    let st3 = ScanV { opts: o1, ..st2 };
    assert(vals(o1, 5).len() == 0 || ds[5].multiple);
    lemma_switch_step(args, 4, st3, "clear-project"@, 5);
    lemma_add_plain(st3, 5, ds[5], Seq::<char>::empty());
    let o2 = o1.push((5int, Seq::<char>::empty()));
    lemma_vals_push_all(o1, (5int, Seq::<char>::empty()));
    let st4 = ScanV { opts: o2, ..st3 };
    assert(vals(o2, 7).len() == 0 || ds[7].multiple);
    lemma_switch_step(args, 5, st4, "clear-sources"@, 7);
    lemma_add_plain(st4, 7, ds[7], Seq::<char>::empty());
    let o3 = o2.push((7int, Seq::<char>::empty()));
    lemma_vals_push_all(o2, (7int, Seq::<char>::empty()));
    let st5 = ScanV { opts: o3, ..st4 };
    assert(scan(args, 6, st5) == Ok::<ScanV, (ArgErrorKind, int)>(st5));
    assert(scan(args, 5, st4) == Ok::<ScanV, (ArgErrorKind, int)>(st5));
    assert(scan(args, 4, st3) == Ok::<ScanV, (ArgErrorKind, int)>(st5));
    assert(scan(args, 3, st2) == Ok::<ScanV, (ArgErrorKind, int)>(st5));
    assert(scan(args, 2, st1) == Ok::<ScanV, (ArgErrorKind, int)>(st5));
    assert(scan(args, 1, st0) == Ok::<ScanV, (ArgErrorKind, int)>(st5));
    assert(scanned(args) == Ok::<ScanV, (ArgErrorKind, int)>(st5));
    assert(vals(o3, 3) =~= seq![Seq::<char>::empty()]);
    assert(vals(o3, 5) =~= seq![Seq::<char>::empty()]);
    assert(vals(o3, 7) =~= seq![Seq::<char>::empty()]);
    assert(vals(o3, 0).len() == 0);
    assert(vals(o3, 1).len() == 0);
    assert(vals(o3, 2).len() == 0);
    assert(vals(o3, 4).len() == 0);
    assert(vals(o3, 6).len() == 0);
    assert(check(st5) is None);
    assert(check_final(st5) is None);
    if parse_ok(args, cli) {
        assert(built(st5, cli.command->Some_0));
    }
}

/// `parent ID --parent P` parses into a move of `ID` below `P`.
pub proof fn law_parent_argument_reaches_the_request(prog: Seq<char>, id: Seq<char>, parent: Seq<char>, cli: Cli)
    requires
        !dashed(id),
    ensures
        parse_error(seq![prog, "parent"@, id, "--parent"@, parent]) is None,
        parse_ok(seq![prog, "parent"@, id, "--parent"@, parent], cli) ==> (cli.command matches Some(Command::Parent(a)) && a.id@ == id && opt_view(a.choice.parent) == Some(parent) && !a.choice.clear_parent),
{
    let args = seq![prog, "parent"@, id, "--parent"@, parent];
    lemma_command_literals();
    reveal_strlit("--");
    reveal_strlit("--parent");
    reveal_strlit("block");
    reveal_strlit("cancel");
    reveal_strlit("clear-parent");
    reveal_strlit("create");
    reveal_strlit("db");
    reveal_strlit("done");
    reveal_strlit("edit");
    reveal_strlit("help");
    reveal_strlit("history");
    reveal_strlit("json");
    reveal_strlit("list");
    reveal_strlit("note");
    reveal_strlit("parent");
    reveal_strlit("reminder");
    reveal_strlit("reopen");
    reveal_strlit("show");
    reveal_strlit("start");
    reveal_strlit("version");
    assert("help"@[0] != "json"@[0]);
    assert("parent"@[0] != "create"@[0]);
    assert("parent"@[0] != "cancel"@[0]);
    assert("parent"@[0] != "reopen"@[0]);
    let ds = defs(3);
    assert(ds.len() == 2 && ds[0].name == "parent"@ && ds[1].name == "clear-parent"@);
    assert(find_def(ds, "parent"@, 0) == 0);
    assert("--parent"@.skip(2) =~= "parent"@);
    let e: Seq<(int, Seq<char>)> = Seq::empty();
    lemma_vals_none(e);
    let st0 = start_scan();
    assert(st0.opts =~= e);
    lemma_word_step(args, 1, st0);
    assert(sub_of(0, "parent"@) == 3);
    let st1 = ScanV { node: 3, ..st0 };
    lemma_word_step(args, 2, st1);
    assert(st1.pos.push(id) =~= seq![id]);
    let st2 = ScanV { pos: seq![id], ..st1 };
    assert(vals(e, 0).len() == 0 || ds[0].multiple);
    lemma_value_step(args, 3, st2, "parent"@, 0);
    lemma_add_plain(st2, 0, ds[0], parent);
    let o1 = e.push((0int, parent));
    lemma_vals_push_all(e, (0int, parent));
    let st3 = ScanV { opts: o1, ..st2 };
    assert(scan(args, 5, st3) == Ok::<ScanV, (ArgErrorKind, int)>(st3));
    assert(scan(args, 3, st2) == Ok::<ScanV, (ArgErrorKind, int)>(st3));
    assert(scan(args, 2, st1) == Ok::<ScanV, (ArgErrorKind, int)>(st3));
    assert(scan(args, 1, st0) == Ok::<ScanV, (ArgErrorKind, int)>(st3));
    assert(scanned(args) == Ok::<ScanV, (ArgErrorKind, int)>(st3));
    assert(vals(o1, 0) =~= seq![parent]);
    assert(vals(o1, 1).len() == 0);
    assert(check(st3) is None);
    assert(check_final(st3) is None);
    if parse_ok(args, cli) {
        assert(built(st3, cli.command->Some_0));
    }
}

/// `parent ID --clear-parent` parses into a move of `ID` to the top level.
pub proof fn law_clear_parent_reaches_the_request(prog: Seq<char>, id: Seq<char>, cli: Cli)
    requires
        !dashed(id),
    ensures
        parse_error(seq![prog, "parent"@, id, "--clear-parent"@]) is None,
        parse_ok(seq![prog, "parent"@, id, "--clear-parent"@], cli) ==> (cli.command matches Some(Command::Parent(a)) && a.id@ == id && a.choice.parent is None && a.choice.clear_parent),
{
    let args = seq![prog, "parent"@, id, "--clear-parent"@];
    lemma_command_literals();
    reveal_strlit("--");
    reveal_strlit("--clear-parent");
    reveal_strlit("block");
    reveal_strlit("cancel");
    reveal_strlit("clear-parent");
    reveal_strlit("create");
    reveal_strlit("db");
    reveal_strlit("done");
    reveal_strlit("edit");
    reveal_strlit("help");
    reveal_strlit("history");
    reveal_strlit("json");
    reveal_strlit("list");
    reveal_strlit("note");
    reveal_strlit("parent");
    reveal_strlit("reminder");
    reveal_strlit("reopen");
    reveal_strlit("show");
    reveal_strlit("start");
    reveal_strlit("version");
    assert("help"@[0] != "json"@[0]);
    assert("parent"@[0] != "create"@[0]);
    assert("parent"@[0] != "cancel"@[0]);
    assert("parent"@[0] != "reopen"@[0]);
    let ds = defs(3);
    assert(ds.len() == 2 && ds[0].name == "parent"@ && ds[1].name == "clear-parent"@);
    assert(find_def(ds, "clear-parent"@, 1) == 1);
    assert(find_def(ds, "clear-parent"@, 0) == 1);
    assert("--clear-parent"@.skip(2) =~= "clear-parent"@);
    let e: Seq<(int, Seq<char>)> = Seq::empty();
    lemma_vals_none(e);
    let st0 = start_scan();
    assert(st0.opts =~= e);
    lemma_word_step(args, 1, st0);
    assert(sub_of(0, "parent"@) == 3);
    let st1 = ScanV { node: 3, ..st0 };
    lemma_word_step(args, 2, st1);
    assert(st1.pos.push(id) =~= seq![id]);
    let st2 = ScanV { pos: seq![id], ..st1 };
    assert(vals(e, 1).len() == 0 || ds[1].multiple);
    lemma_switch_step(args, 3, st2, "clear-parent"@, 1);
    lemma_add_plain(st2, 1, ds[1], Seq::<char>::empty());
    let o1 = e.push((1int, Seq::<char>::empty()));
    lemma_vals_push_all(e, (1int, Seq::<char>::empty()));
    let st3 = ScanV { opts: o1, ..st2 };
    assert(scan(args, 4, st3) == Ok::<ScanV, (ArgErrorKind, int)>(st3));
    assert(scan(args, 3, st2) == Ok::<ScanV, (ArgErrorKind, int)>(st3));
    assert(scan(args, 2, st1) == Ok::<ScanV, (ArgErrorKind, int)>(st3));
    assert(scan(args, 1, st0) == Ok::<ScanV, (ArgErrorKind, int)>(st3));
    assert(scanned(args) == Ok::<ScanV, (ArgErrorKind, int)>(st3));
    assert(vals(o1, 1) =~= seq![Seq::<char>::empty()]);
    assert(vals(o1, 0).len() == 0);
    assert(check(st3) is None);
    assert(check_final(st3) is None);
    if parse_ok(args, cli) {
        assert(built(st3, cli.command->Some_0));
    }
}

/// `block ID --reason R` parses into blocking `ID` with reason `R`.
pub proof fn law_block_arguments_reach_the_request(prog: Seq<char>, id: Seq<char>, reason: Seq<char>, cli: Cli)
    requires
        !dashed(id),
    ensures
        parse_error(seq![prog, "block"@, id, "--reason"@, reason]) is None,
        parse_ok(seq![prog, "block"@, id, "--reason"@, reason], cli) ==> (cli.command matches Some(Command::Block { id: i, reason: r }) && i@ == id && r@ == reason),
{
    let args = seq![prog, "block"@, id, "--reason"@, reason];
    lemma_command_literals();
    reveal_strlit("--");
    reveal_strlit("--reason");
    reveal_strlit("block");
    reveal_strlit("cancel");
    reveal_strlit("create");
    reveal_strlit("db");
    reveal_strlit("done");
    reveal_strlit("edit");
    reveal_strlit("help");
    reveal_strlit("history");
    reveal_strlit("json");
    reveal_strlit("list");
    reveal_strlit("note");
    reveal_strlit("parent");
    reveal_strlit("reason");
    reveal_strlit("reminder");
    reveal_strlit("reopen");
    reveal_strlit("show");
    reveal_strlit("start");
    reveal_strlit("version");
    assert("help"@[0] != "json"@[0]);
    assert("block"@[0] != "start"@[0]);
    let ds = defs(5);
    assert(ds.len() == 1 && ds[0].name == "reason"@);
    assert(find_def(ds, "reason"@, 0) == 0);
    assert("--reason"@.skip(2) =~= "reason"@);
    let e: Seq<(int, Seq<char>)> = Seq::empty();
    lemma_vals_none(e);
    let st0 = start_scan();
    assert(st0.opts =~= e);
    lemma_word_step(args, 1, st0);
    assert(sub_of(0, "block"@) == 5);
    let st1 = ScanV { node: 5, ..st0 };
    lemma_word_step(args, 2, st1);
    assert(st1.pos.push(id) =~= seq![id]);
    let st2 = ScanV { pos: seq![id], ..st1 };
    assert(vals(e, 0).len() == 0 || ds[0].multiple);
    lemma_value_step(args, 3, st2, "reason"@, 0);
    lemma_add_plain(st2, 0, ds[0], reason);
    let o1 = e.push((0int, reason));
    lemma_vals_push_all(e, (0int, reason));
    let st3 = ScanV { opts: o1, ..st2 };
    assert(scan(args, 5, st3) == Ok::<ScanV, (ArgErrorKind, int)>(st3));
    assert(scan(args, 3, st2) == Ok::<ScanV, (ArgErrorKind, int)>(st3));
    assert(scan(args, 2, st1) == Ok::<ScanV, (ArgErrorKind, int)>(st3));
    assert(scan(args, 1, st0) == Ok::<ScanV, (ArgErrorKind, int)>(st3));
    assert(scanned(args) == Ok::<ScanV, (ArgErrorKind, int)>(st3));
    assert(vals(o1, 0) =~= seq![reason]);
    assert(check(st3) is None);
    assert(check_final(st3) is None);
    if parse_ok(args, cli) {
        assert(built(st3, cli.command->Some_0));
    }
}

/// `done ID --cascade` parses into completing `ID` with its open
/// descendants.
pub proof fn law_done_arguments_reach_the_request(prog: Seq<char>, id: Seq<char>, cli: Cli)
    requires
        !dashed(id),
    ensures
        parse_error(seq![prog, "done"@, id, "--cascade"@]) is None,
        parse_ok(seq![prog, "done"@, id, "--cascade"@], cli) ==> (cli.command matches Some(Command::Done { id: i, cascade }) && i@ == id && cascade),
{
    let args = seq![prog, "done"@, id, "--cascade"@];
    lemma_command_literals();
    reveal_strlit("--");
    reveal_strlit("--cascade");
    reveal_strlit("block");
    reveal_strlit("cancel");
    reveal_strlit("cascade");
    reveal_strlit("create");
    reveal_strlit("db");
    reveal_strlit("done");
    reveal_strlit("edit");
    reveal_strlit("help");
    reveal_strlit("history");
    reveal_strlit("json");
    reveal_strlit("list");
    reveal_strlit("note");
    reveal_strlit("parent");
    reveal_strlit("reminder");
    reveal_strlit("reopen");
    reveal_strlit("show");
    reveal_strlit("start");
    reveal_strlit("version");
    assert("cascade"@[0] != "version"@[0]);
    assert("help"@[0] != "json"@[0]);
    assert("done"@[0] != "edit"@[0]);
    assert("done"@[0] != "note"@[0]);
    assert("done"@[0] != "list"@[0]);
    assert("done"@[0] != "show"@[0]);
    let ds = defs(6);
    assert(ds.len() == 1 && ds[0].name == "cascade"@);
    assert(find_def(ds, "cascade"@, 0) == 0);
    assert("--cascade"@.skip(2) =~= "cascade"@);
    let e: Seq<(int, Seq<char>)> = Seq::empty();
    lemma_vals_none(e);
    let st0 = start_scan();
    assert(st0.opts =~= e);
    lemma_word_step(args, 1, st0);
    assert(sub_of(0, "done"@) == 6);
    let st1 = ScanV { node: 6, ..st0 };
    lemma_word_step(args, 2, st1);
    assert(st1.pos.push(id) =~= seq![id]);
    let st2 = ScanV { pos: seq![id], ..st1 };
    assert(vals(e, 0).len() == 0 || ds[0].multiple);
    lemma_switch_step(args, 3, st2, "cascade"@, 0);
    lemma_add_plain(st2, 0, ds[0], Seq::<char>::empty());
    let o1 = e.push((0int, Seq::<char>::empty()));
    lemma_vals_push_all(e, (0int, Seq::<char>::empty()));
    let st3 = ScanV { opts: o1, ..st2 };
    assert(scan(args, 4, st3) == Ok::<ScanV, (ArgErrorKind, int)>(st3));
    assert(scan(args, 3, st2) == Ok::<ScanV, (ArgErrorKind, int)>(st3));
    assert(scan(args, 2, st1) == Ok::<ScanV, (ArgErrorKind, int)>(st3));
    assert(scan(args, 1, st0) == Ok::<ScanV, (ArgErrorKind, int)>(st3));
    assert(scanned(args) == Ok::<ScanV, (ArgErrorKind, int)>(st3));
    assert(vals(o1, 0) =~= seq![Seq::<char>::empty()]);
    assert(check(st3) is None);
    assert(check_final(st3) is None);
    if parse_ok(args, cli) {
        assert(built(st3, cli.command->Some_0));
    }
}

/// `cancel ID --reason R --cascade` parses into cancelling `ID` and its
/// open descendants with reason `R`.
pub proof fn law_cancel_arguments_reach_the_request(prog: Seq<char>, id: Seq<char>, reason: Seq<char>, cli: Cli)
    requires
        !dashed(id),
    ensures
        parse_error(seq![prog, "cancel"@, id, "--reason"@, reason, "--cascade"@]) is None,
        parse_ok(seq![prog, "cancel"@, id, "--reason"@, reason, "--cascade"@], cli) ==> (cli.command matches Some(Command::Cancel { id: i, reason: r, cascade }) && i@ == id && opt_view(r) == Some(reason) && cascade),
{
    let args = seq![prog, "cancel"@, id, "--reason"@, reason, "--cascade"@];
    lemma_command_literals();
    reveal_strlit("--");
    reveal_strlit("--cascade");
    reveal_strlit("--reason");
    reveal_strlit("block");
    reveal_strlit("cancel");
    reveal_strlit("cascade");
    reveal_strlit("create");
    reveal_strlit("db");
    reveal_strlit("done");
    reveal_strlit("edit");
    reveal_strlit("help");
    reveal_strlit("history");
    reveal_strlit("json");
    reveal_strlit("list");
    reveal_strlit("note");
    reveal_strlit("parent");
    reveal_strlit("reason");
    reveal_strlit("reminder");
    reveal_strlit("reopen");
    reveal_strlit("show");
    reveal_strlit("start");
    reveal_strlit("version");
    assert("cascade"@[0] != "version"@[0]);
    assert("help"@[0] != "json"@[0]);
    assert("cancel"@[1] != "create"@[1]);
    assert("cancel"@[0] != "parent"@[0]);
    assert("cancel"@[0] != "reopen"@[0]);
    let ds = defs(7);
    assert(ds.len() == 2 && ds[0].name == "reason"@ && ds[1].name == "cascade"@);
    assert(find_def(ds, "reason"@, 0) == 0);
    assert("--reason"@.skip(2) =~= "reason"@);
    assert(find_def(ds, "cascade"@, 1) == 1);
    assert(find_def(ds, "cascade"@, 0) == 1);
    assert("--cascade"@.skip(2) =~= "cascade"@);
    let e: Seq<(int, Seq<char>)> = Seq::empty();
    lemma_vals_none(e);
    let st0 = start_scan();
    assert(st0.opts =~= e);
    lemma_word_step(args, 1, st0);
    assert(sub_of(0, "cancel"@) == 7);
    let st1 = ScanV { node: 7, ..st0 };
    lemma_word_step(args, 2, st1);
    assert(st1.pos.push(id) =~= seq![id]);
    let st2 = ScanV { pos: seq![id], ..st1 };
    assert(vals(e, 0).len() == 0 || ds[0].multiple);
    lemma_value_step(args, 3, st2, "reason"@, 0);
    lemma_add_plain(st2, 0, ds[0], reason);
    let o1 = e.push((0int, reason));
    lemma_vals_push_all(e, (0int, reason));
    let st3 = ScanV { opts: o1, ..st2 };
    assert(vals(o1, 1).len() == 0 || ds[1].multiple);
    lemma_switch_step(args, 5, st3, "cascade"@, 1);
    lemma_add_plain(st3, 1, ds[1], Seq::<char>::empty());
    let o2 = o1.push((1int, Seq::<char>::empty()));
    lemma_vals_push_all(o1, (1int, Seq::<char>::empty()));
    let st4 = ScanV { opts: o2, ..st3 };
    assert(scan(args, 6, st4) == Ok::<ScanV, (ArgErrorKind, int)>(st4));
    assert(scan(args, 5, st3) == Ok::<ScanV, (ArgErrorKind, int)>(st4));
    assert(scan(args, 3, st2) == Ok::<ScanV, (ArgErrorKind, int)>(st4));
    assert(scan(args, 2, st1) == Ok::<ScanV, (ArgErrorKind, int)>(st4));
    assert(scan(args, 1, st0) == Ok::<ScanV, (ArgErrorKind, int)>(st4));
    assert(scanned(args) == Ok::<ScanV, (ArgErrorKind, int)>(st4));
    assert(vals(o2, 0) =~= seq![reason]);
    assert(vals(o2, 1) =~= seq![Seq::<char>::empty()]);
    assert(check(st4) is None);
    assert(check_final(st4) is None);
    if parse_ok(args, cli) {
        assert(built(st4, cli.command->Some_0));
    }
}

/// `note ID TEXT` parses into a note with that text on `ID`.
pub proof fn law_note_arguments_reach_the_request(prog: Seq<char>, id: Seq<char>, text: Seq<char>, cli: Cli)
    requires
        !dashed(id),
        !dashed(text),
    ensures
        parse_error(seq![prog, "note"@, id, text]) is None,
        parse_ok(seq![prog, "note"@, id, text], cli) ==> (cli.command matches Some(Command::Note { id: i, text: t }) && i@ == id && t@ == text),
{
    let args = seq![prog, "note"@, id, text];
    lemma_command_literals();
    reveal_strlit("--");
    reveal_strlit("block");
    reveal_strlit("cancel");
    reveal_strlit("create");
    reveal_strlit("db");
    reveal_strlit("done");
    reveal_strlit("edit");
    reveal_strlit("help");
    reveal_strlit("history");
    reveal_strlit("json");
    reveal_strlit("list");
    reveal_strlit("note");
    reveal_strlit("parent");
    reveal_strlit("reminder");
    reveal_strlit("reopen");
    reveal_strlit("show");
    reveal_strlit("start");
    reveal_strlit("version");
    assert("help"@[0] != "json"@[0]);
    assert("note"@[0] != "edit"@[0]);
    assert("note"@[0] != "done"@[0]);
    assert("note"@[0] != "list"@[0]);
    assert("note"@[0] != "show"@[0]);
    let e: Seq<(int, Seq<char>)> = Seq::empty();
    lemma_vals_none(e);
    let st0 = start_scan();
    assert(st0.opts =~= e);
    lemma_word_step(args, 1, st0);
    assert(sub_of(0, "note"@) == 9);
    let st1 = ScanV { node: 9, ..st0 };
    lemma_word_step(args, 2, st1);
    assert(st1.pos.push(id) =~= seq![id]);
    let st2 = ScanV { pos: seq![id], ..st1 };
    lemma_word_step(args, 3, st2);
    assert(st2.pos.push(text) =~= seq![id, text]);
    let st3 = ScanV { pos: seq![id, text], ..st2 };
    assert(scan(args, 4, st3) == Ok::<ScanV, (ArgErrorKind, int)>(st3));
    assert(scan(args, 3, st2) == Ok::<ScanV, (ArgErrorKind, int)>(st3));
    assert(scan(args, 2, st1) == Ok::<ScanV, (ArgErrorKind, int)>(st3));
    assert(scan(args, 1, st0) == Ok::<ScanV, (ArgErrorKind, int)>(st3));
    assert(scanned(args) == Ok::<ScanV, (ArgErrorKind, int)>(st3));
    assert(check(st3) is None);
    assert(check_final(st3) is None);
    if parse_ok(args, cli) {
        assert(built(st3, cli.command->Some_0));
    }
}

/// `start ID` parses into that command on `ID`.
pub proof fn law_start_argument_reaches_the_request(prog: Seq<char>, id: Seq<char>, cli: Cli)
    requires
        !dashed(id),
    ensures
        parse_error(seq![prog, "start"@, id]) is None,
        parse_ok(seq![prog, "start"@, id], cli) ==> (cli.command matches Some(Command::Start(a)) && a.id@ == id),
{
    let args = seq![prog, "start"@, id];
    lemma_command_literals();
    reveal_strlit("--");
    reveal_strlit("block");
    reveal_strlit("cancel");
    reveal_strlit("create");
    reveal_strlit("db");
    reveal_strlit("done");
    reveal_strlit("edit");
    reveal_strlit("help");
    reveal_strlit("history");
    reveal_strlit("json");
    reveal_strlit("list");
    reveal_strlit("note");
    reveal_strlit("parent");
    reveal_strlit("reminder");
    reveal_strlit("reopen");
    reveal_strlit("show");
    reveal_strlit("start");
    reveal_strlit("version");
    assert("help"@[0] != "json"@[0]);
    assert("start"@[0] != "block"@[0]);
    let e: Seq<(int, Seq<char>)> = Seq::empty();
    lemma_vals_none(e);
    let st0 = start_scan();
    assert(st0.opts =~= e);
    lemma_word_step(args, 1, st0);
    assert(sub_of(0, "start"@) == 4);
    let st1 = ScanV { node: 4, ..st0 };
    lemma_word_step(args, 2, st1);
    assert(st1.pos.push(id) =~= seq![id]);
    let st2 = ScanV { pos: seq![id], ..st1 };
    assert(scan(args, 3, st2) == Ok::<ScanV, (ArgErrorKind, int)>(st2));
    assert(scan(args, 2, st1) == Ok::<ScanV, (ArgErrorKind, int)>(st2));
    assert(scan(args, 1, st0) == Ok::<ScanV, (ArgErrorKind, int)>(st2));
    assert(scanned(args) == Ok::<ScanV, (ArgErrorKind, int)>(st2));
    assert(check(st2) is None);
    assert(check_final(st2) is None);
    if parse_ok(args, cli) {
        assert(built(st2, cli.command->Some_0));
    }
}

/// `reopen ID` parses into that command on `ID`.
pub proof fn law_reopen_argument_reaches_the_request(prog: Seq<char>, id: Seq<char>, cli: Cli)
    requires
        !dashed(id),
    ensures
        parse_error(seq![prog, "reopen"@, id]) is None,
        parse_ok(seq![prog, "reopen"@, id], cli) ==> (cli.command matches Some(Command::Reopen(a)) && a.id@ == id),
{
    let args = seq![prog, "reopen"@, id];
    lemma_command_literals();
    reveal_strlit("--");
    reveal_strlit("block");
    reveal_strlit("cancel");
    reveal_strlit("create");
    reveal_strlit("db");
    reveal_strlit("done");
    reveal_strlit("edit");
    reveal_strlit("help");
    reveal_strlit("history");
    reveal_strlit("json");
    reveal_strlit("list");
    reveal_strlit("note");
    reveal_strlit("parent");
    reveal_strlit("reminder");
    reveal_strlit("reopen");
    reveal_strlit("show");
    reveal_strlit("start");
    reveal_strlit("version");
    assert("help"@[0] != "json"@[0]);
    assert("reopen"@[0] != "create"@[0]);
    assert("reopen"@[0] != "parent"@[0]);
    assert("reopen"@[0] != "cancel"@[0]);
    let e: Seq<(int, Seq<char>)> = Seq::empty();
    lemma_vals_none(e);
    let st0 = start_scan();
    assert(st0.opts =~= e);
    lemma_word_step(args, 1, st0);
    assert(sub_of(0, "reopen"@) == 8);
    let st1 = ScanV { node: 8, ..st0 };
    lemma_word_step(args, 2, st1);
    assert(st1.pos.push(id) =~= seq![id]);
    let st2 = ScanV { pos: seq![id], ..st1 };
    assert(scan(args, 3, st2) == Ok::<ScanV, (ArgErrorKind, int)>(st2));
    assert(scan(args, 2, st1) == Ok::<ScanV, (ArgErrorKind, int)>(st2));
    assert(scan(args, 1, st0) == Ok::<ScanV, (ArgErrorKind, int)>(st2));
    assert(scanned(args) == Ok::<ScanV, (ArgErrorKind, int)>(st2));
    assert(check(st2) is None);
    assert(check_final(st2) is None);
    if parse_ok(args, cli) {
        assert(built(st2, cli.command->Some_0));
    }
}

/// `show ID` parses into that command on `ID`.
pub proof fn law_show_argument_reaches_the_request(prog: Seq<char>, id: Seq<char>, cli: Cli)
    requires
        !dashed(id),
    ensures
        parse_error(seq![prog, "show"@, id]) is None,
        parse_ok(seq![prog, "show"@, id], cli) ==> (cli.command matches Some(Command::Show(a)) && a.id@ == id),
{
    let args = seq![prog, "show"@, id];
    lemma_command_literals();
    reveal_strlit("--");
    reveal_strlit("block");
    reveal_strlit("cancel");
    reveal_strlit("create");
    reveal_strlit("db");
    reveal_strlit("done");
    reveal_strlit("edit");
    reveal_strlit("help");
    reveal_strlit("history");
    reveal_strlit("json");
    reveal_strlit("list");
    reveal_strlit("note");
    reveal_strlit("parent");
    reveal_strlit("reminder");
    reveal_strlit("reopen");
    reveal_strlit("show");
    reveal_strlit("start");
    reveal_strlit("version");
    assert("help"@[0] != "json"@[0]);
    assert("show"@[0] != "edit"@[0]);
    assert("show"@[0] != "done"@[0]);
    assert("show"@[0] != "note"@[0]);
    assert("show"@[0] != "list"@[0]);
    let e: Seq<(int, Seq<char>)> = Seq::empty();
    lemma_vals_none(e);
    let st0 = start_scan();
    assert(st0.opts =~= e);
    lemma_word_step(args, 1, st0);
    assert(sub_of(0, "show"@) == 11);
    let st1 = ScanV { node: 11, ..st0 };
    lemma_word_step(args, 2, st1);
    assert(st1.pos.push(id) =~= seq![id]);
    let st2 = ScanV { pos: seq![id], ..st1 };
    assert(scan(args, 3, st2) == Ok::<ScanV, (ArgErrorKind, int)>(st2));
    assert(scan(args, 2, st1) == Ok::<ScanV, (ArgErrorKind, int)>(st2));
    assert(scan(args, 1, st0) == Ok::<ScanV, (ArgErrorKind, int)>(st2));
    assert(scanned(args) == Ok::<ScanV, (ArgErrorKind, int)>(st2));
    assert(check(st2) is None);
    assert(check_final(st2) is None);
    if parse_ok(args, cli) {
        assert(built(st2, cli.command->Some_0));
    }
}

/// `history ID` parses into that command on `ID`.
pub proof fn law_history_argument_reaches_the_request(prog: Seq<char>, id: Seq<char>, cli: Cli)
    requires
        !dashed(id),
    ensures
        parse_error(seq![prog, "history"@, id]) is None,
        parse_ok(seq![prog, "history"@, id], cli) ==> (cli.command matches Some(Command::History(a)) && a.id@ == id),
{
    let args = seq![prog, "history"@, id];
    lemma_command_literals();
    reveal_strlit("--");
    reveal_strlit("block");
    reveal_strlit("cancel");
    reveal_strlit("create");
    reveal_strlit("db");
    reveal_strlit("done");
    reveal_strlit("edit");
    reveal_strlit("help");
    reveal_strlit("history");
    reveal_strlit("json");
    reveal_strlit("list");
    reveal_strlit("note");
    reveal_strlit("parent");
    reveal_strlit("reminder");
    reveal_strlit("reopen");
    reveal_strlit("show");
    reveal_strlit("start");
    reveal_strlit("version");
    assert("help"@[0] != "json"@[0]);
    let e: Seq<(int, Seq<char>)> = Seq::empty();
    lemma_vals_none(e);
    let st0 = start_scan();
    assert(st0.opts =~= e);
    lemma_word_step(args, 1, st0);
    assert(sub_of(0, "history"@) == 12);
    let st1 = ScanV { node: 12, ..st0 };
    lemma_word_step(args, 2, st1);
    assert(st1.pos.push(id) =~= seq![id]);
    let st2 = ScanV { pos: seq![id], ..st1 };
    assert(scan(args, 3, st2) == Ok::<ScanV, (ArgErrorKind, int)>(st2));
    assert(scan(args, 2, st1) == Ok::<ScanV, (ArgErrorKind, int)>(st2));
    assert(scan(args, 1, st0) == Ok::<ScanV, (ArgErrorKind, int)>(st2));
    assert(scanned(args) == Ok::<ScanV, (ArgErrorKind, int)>(st2));
    assert(check(st2) is None);
    assert(check_final(st2) is None);
    if parse_ok(args, cli) {
        assert(built(st2, cli.command->Some_0));
    }
}

/// `reminder add TASK --external-id E --at A --timezone Z --channel C
/// --status S`, with a status that the command accepts, parses into an
/// association that carries each value given.
pub proof fn law_reminder_add_arguments_reach_the_request(prog: Seq<char>, task: Seq<char>, external_id: Seq<char>, at: Seq<char>, timezone: Seq<char>, channel: Seq<char>, status: Seq<char>, cli: Cli)
    requires
        !dashed(task),
        status == "scheduled"@ || status == "fired"@ || status == "cancelled"@ || status == "unknown"@,
    ensures
        parse_error(seq![prog, "reminder"@, "add"@, task, "--external-id"@, external_id, "--at"@, at, "--timezone"@, timezone, "--channel"@, channel, "--status"@, status]) is None,
        parse_ok(seq![prog, "reminder"@, "add"@, task, "--external-id"@, external_id, "--at"@, at, "--timezone"@, timezone, "--channel"@, channel, "--status"@, status], cli) ==> (cli.command matches Some(Command::Reminder { command: ReminderCommand::Add { task: t, external_id: e, at: a, timezone: z, channel: c, status: s } }) && t@ == task && e@ == external_id && a@ == at && z@ == timezone && c@ == channel && s@ == status),
{
    let args = seq![prog, "reminder"@, "add"@, task, "--external-id"@, external_id, "--at"@, at, "--timezone"@, timezone, "--channel"@, channel, "--status"@, status];
    lemma_command_literals();
    reveal_strlit("--");
    reveal_strlit("--at");
    reveal_strlit("--channel");
    reveal_strlit("--external-id");
    reveal_strlit("--status");
    reveal_strlit("--timezone");
    reveal_strlit("add");
    reveal_strlit("at");
    reveal_strlit("block");
    reveal_strlit("cancel");
    reveal_strlit("channel");
    reveal_strlit("create");
    reveal_strlit("db");
    reveal_strlit("done");
    reveal_strlit("edit");
    reveal_strlit("external-id");
    reveal_strlit("fired");
    reveal_strlit("help");
    reveal_strlit("history");
    reveal_strlit("json");
    reveal_strlit("list");
    reveal_strlit("note");
    reveal_strlit("parent");
    reveal_strlit("reminder");
    reveal_strlit("remove");
    reveal_strlit("reopen");
    reveal_strlit("show");
    reveal_strlit("start");
    reveal_strlit("status");
    reveal_strlit("timezone");
    reveal_strlit("version");
    reveal_strlit("scheduled");
    reveal_strlit("fired");
    reveal_strlit("cancelled");
    reveal_strlit("unknown");
    assert("at"@[0] != "db"@[0]);
    assert("channel"@[0] != "version"@[0]);
    assert("help"@[0] != "json"@[0]);
    let ds = defs(14);
    assert(ds.len() == 5 && ds[0].name == "external-id"@ && ds[1].name == "at"@ && ds[2].name == "timezone"@ && ds[3].name == "channel"@ && ds[4].name == "status"@);
    assert(find_def(ds, "external-id"@, 0) == 0);
    assert("--external-id"@.skip(2) =~= "external-id"@);
    assert(find_def(ds, "at"@, 1) == 1);
    assert(find_def(ds, "at"@, 0) == 1);
    assert("--at"@.skip(2) =~= "at"@);
    assert(find_def(ds, "timezone"@, 2) == 2);
    assert(find_def(ds, "timezone"@, 1) == 2);
    assert(find_def(ds, "timezone"@, 0) == 2);
    assert("--timezone"@.skip(2) =~= "timezone"@);
    assert(find_def(ds, "channel"@, 3) == 3);
    assert(find_def(ds, "channel"@, 2) == 3);
    assert(find_def(ds, "channel"@, 1) == 3);
    assert(find_def(ds, "channel"@, 0) == 3);
    assert("--channel"@.skip(2) =~= "channel"@);
    assert(find_def(ds, "status"@, 4) == 4);
    assert(find_def(ds, "status"@, 3) == 4);
    assert(find_def(ds, "status"@, 2) == 4);
    assert(find_def(ds, "status"@, 1) == 4);
    assert(find_def(ds, "status"@, 0) == 4);
    assert("--status"@.skip(2) =~= "status"@);
    let e: Seq<(int, Seq<char>)> = Seq::empty();
    lemma_vals_none(e);
    let st0 = start_scan();
    assert(st0.opts =~= e);
    lemma_word_step(args, 1, st0);
    assert(sub_of(0, "reminder"@) == 13);
    let st1 = ScanV { node: 13, ..st0 };
    lemma_word_step(args, 2, st1);
    assert(sub_of(13, "add"@) == 14);
    let st2 = ScanV { node: 14, ..st1 };
    lemma_word_step(args, 3, st2);
    assert(st2.pos.push(task) =~= seq![task]);
    let st3 = ScanV { pos: seq![task], ..st2 };
    assert(vals(e, 0).len() == 0 || ds[0].multiple);
    lemma_value_step(args, 4, st3, "external-id"@, 0);
    lemma_add_plain(st3, 0, ds[0], external_id);
    let o1 = e.push((0int, external_id));
    lemma_vals_push_all(e, (0int, external_id));
    let st4 = ScanV { opts: o1, ..st3 };
    assert(vals(o1, 1).len() == 0 || ds[1].multiple);
    lemma_value_step(args, 6, st4, "at"@, 1);
    lemma_add_plain(st4, 1, ds[1], at);
    let o2 = o1.push((1int, at));
    lemma_vals_push_all(o1, (1int, at));
    let st5 = ScanV { opts: o2, ..st4 };
    assert(vals(o2, 2).len() == 0 || ds[2].multiple);
    lemma_value_step(args, 8, st5, "timezone"@, 2);
    lemma_add_plain(st5, 2, ds[2], timezone);
    let o3 = o2.push((2int, timezone));
    lemma_vals_push_all(o2, (2int, timezone));
    let st6 = ScanV { opts: o3, ..st5 };
    assert(vals(o3, 3).len() == 0 || ds[3].multiple);
    lemma_value_step(args, 10, st6, "channel"@, 3);
    lemma_add_plain(st6, 3, ds[3], channel);
    let o4 = o3.push((3int, channel));
    lemma_vals_push_all(o3, (3int, channel));
    let st7 = ScanV { opts: o4, ..st6 };
    assert(vals(o4, 4).len() == 0 || ds[4].multiple);
    lemma_value_step(args, 12, st7, "status"@, 4);
    lemma_add_plain(st7, 4, ds[4], status);
    let o5 = o4.push((4int, status));
    lemma_vals_push_all(o4, (4int, status));
    let st8 = ScanV { opts: o5, ..st7 };
    assert(scan(args, 14, st8) == Ok::<ScanV, (ArgErrorKind, int)>(st8));
    assert(scan(args, 12, st7) == Ok::<ScanV, (ArgErrorKind, int)>(st8));
    assert(scan(args, 10, st6) == Ok::<ScanV, (ArgErrorKind, int)>(st8));
    assert(scan(args, 8, st5) == Ok::<ScanV, (ArgErrorKind, int)>(st8));
    assert(scan(args, 6, st4) == Ok::<ScanV, (ArgErrorKind, int)>(st8));
    assert(scan(args, 4, st3) == Ok::<ScanV, (ArgErrorKind, int)>(st8));
    assert(scan(args, 3, st2) == Ok::<ScanV, (ArgErrorKind, int)>(st8));
    assert(scan(args, 2, st1) == Ok::<ScanV, (ArgErrorKind, int)>(st8));
    assert(scan(args, 1, st0) == Ok::<ScanV, (ArgErrorKind, int)>(st8));
    assert(scanned(args) == Ok::<ScanV, (ArgErrorKind, int)>(st8));
    assert(vals(o5, 0) =~= seq![external_id]);
    assert(vals(o5, 1) =~= seq![at]);
    assert(vals(o5, 2) =~= seq![timezone]);
    assert(vals(o5, 3) =~= seq![channel]);
    assert(vals(o5, 4) =~= seq![status]);
    assert(check(st8) is None);
    assert(check_final(st8) is None);
    if parse_ok(args, cli) {
        assert(built(st8, cli.command->Some_0));
    }
}

/// `reminder edit ID --external-id E --at A --timezone Z --channel C
/// --status S`, with a status that the command accepts, parses into an edit
/// that sets each value given.
pub proof fn law_reminder_edit_arguments_reach_the_request(prog: Seq<char>, id: Seq<char>, external_id: Seq<char>, at: Seq<char>, timezone: Seq<char>, channel: Seq<char>, status: Seq<char>, cli: Cli)
    requires
        !dashed(id),
        status == "scheduled"@ || status == "fired"@ || status == "cancelled"@ || status == "unknown"@,
    ensures
        parse_error(seq![prog, "reminder"@, "edit"@, id, "--external-id"@, external_id, "--at"@, at, "--timezone"@, timezone, "--channel"@, channel, "--status"@, status]) is None,
        parse_ok(seq![prog, "reminder"@, "edit"@, id, "--external-id"@, external_id, "--at"@, at, "--timezone"@, timezone, "--channel"@, channel, "--status"@, status], cli) ==> (cli.command matches Some(Command::Reminder { command: ReminderCommand::Edit { reminder: r, external_id: e, at: a, timezone: z, channel: c, status: s } }) && r@ == id && opt_view(e) == Some(external_id) && opt_view(a) == Some(at) && opt_view(z) == Some(timezone) && opt_view(c) == Some(channel) && opt_view(s) == Some(status)),
{
    let args = seq![prog, "reminder"@, "edit"@, id, "--external-id"@, external_id, "--at"@, at, "--timezone"@, timezone, "--channel"@, channel, "--status"@, status];
    lemma_command_literals();
    reveal_strlit("--");
    reveal_strlit("--at");
    reveal_strlit("--channel");
    reveal_strlit("--external-id");
    reveal_strlit("--status");
    reveal_strlit("--timezone");
    reveal_strlit("add");
    reveal_strlit("at");
    reveal_strlit("block");
    reveal_strlit("cancel");
    reveal_strlit("channel");
    reveal_strlit("create");
    reveal_strlit("db");
    reveal_strlit("done");
    reveal_strlit("edit");
    reveal_strlit("external-id");
    reveal_strlit("fired");
    reveal_strlit("help");
    reveal_strlit("history");
    reveal_strlit("json");
    reveal_strlit("list");
    reveal_strlit("note");
    reveal_strlit("parent");
    reveal_strlit("reminder");
    reveal_strlit("remove");
    reveal_strlit("reopen");
    reveal_strlit("show");
    reveal_strlit("start");
    reveal_strlit("status");
    reveal_strlit("timezone");
    reveal_strlit("version");
    reveal_strlit("scheduled");
    reveal_strlit("fired");
    reveal_strlit("cancelled");
    reveal_strlit("unknown");
    assert("at"@[0] != "db"@[0]);
    assert("channel"@[0] != "version"@[0]);
    assert("help"@[0] != "json"@[0]);
    assert("edit"@[0] != "done"@[0]);
    assert("edit"@[0] != "note"@[0]);
    assert("edit"@[0] != "list"@[0]);
    assert("edit"@[0] != "show"@[0]);
    assert("edit"@[0] != "list"@[0]);
    let ds = defs(16);
    assert(ds.len() == 5 && ds[0].name == "external-id"@ && ds[1].name == "at"@ && ds[2].name == "timezone"@ && ds[3].name == "channel"@ && ds[4].name == "status"@);
    assert(find_def(ds, "external-id"@, 0) == 0);
    assert("--external-id"@.skip(2) =~= "external-id"@);
    assert(find_def(ds, "at"@, 1) == 1);
    assert(find_def(ds, "at"@, 0) == 1);
    assert("--at"@.skip(2) =~= "at"@);
    assert(find_def(ds, "timezone"@, 2) == 2);
    assert(find_def(ds, "timezone"@, 1) == 2);
    assert(find_def(ds, "timezone"@, 0) == 2);
    assert("--timezone"@.skip(2) =~= "timezone"@);
    assert(find_def(ds, "channel"@, 3) == 3);
    assert(find_def(ds, "channel"@, 2) == 3);
    assert(find_def(ds, "channel"@, 1) == 3);
    assert(find_def(ds, "channel"@, 0) == 3);
    assert("--channel"@.skip(2) =~= "channel"@);
    assert(find_def(ds, "status"@, 4) == 4);
    assert(find_def(ds, "status"@, 3) == 4);
    assert(find_def(ds, "status"@, 2) == 4);
    assert(find_def(ds, "status"@, 1) == 4);
    assert(find_def(ds, "status"@, 0) == 4);
    assert("--status"@.skip(2) =~= "status"@);
    let e: Seq<(int, Seq<char>)> = Seq::empty();
    lemma_vals_none(e);
    let st0 = start_scan();
    assert(st0.opts =~= e);
    lemma_word_step(args, 1, st0);
    assert(sub_of(0, "reminder"@) == 13);
    let st1 = ScanV { node: 13, ..st0 };
    lemma_word_step(args, 2, st1);
    assert(sub_of(13, "edit"@) == 16);
    let st2 = ScanV { node: 16, ..st1 };
    lemma_word_step(args, 3, st2);
    assert(st2.pos.push(id) =~= seq![id]);
    let st3 = ScanV { pos: seq![id], ..st2 };
    assert(vals(e, 0).len() == 0 || ds[0].multiple);
    lemma_value_step(args, 4, st3, "external-id"@, 0);
    lemma_add_plain(st3, 0, ds[0], external_id);
    let o1 = e.push((0int, external_id));
    lemma_vals_push_all(e, (0int, external_id));
    let st4 = ScanV { opts: o1, ..st3 };
    assert(vals(o1, 1).len() == 0 || ds[1].multiple);
    lemma_value_step(args, 6, st4, "at"@, 1);
    lemma_add_plain(st4, 1, ds[1], at);
    let o2 = o1.push((1int, at));
    lemma_vals_push_all(o1, (1int, at));
    let st5 = ScanV { opts: o2, ..st4 };
    assert(vals(o2, 2).len() == 0 || ds[2].multiple);
    lemma_value_step(args, 8, st5, "timezone"@, 2);
    lemma_add_plain(st5, 2, ds[2], timezone);
    let o3 = o2.push((2int, timezone));
    lemma_vals_push_all(o2, (2int, timezone));
    let st6 = ScanV { opts: o3, ..st5 };
    assert(vals(o3, 3).len() == 0 || ds[3].multiple);
    lemma_value_step(args, 10, st6, "channel"@, 3);
    lemma_add_plain(st6, 3, ds[3], channel);
    let o4 = o3.push((3int, channel));
    lemma_vals_push_all(o3, (3int, channel));
    let st7 = ScanV { opts: o4, ..st6 };
    assert(vals(o4, 4).len() == 0 || ds[4].multiple);
    lemma_value_step(args, 12, st7, "status"@, 4);
    lemma_add_plain(st7, 4, ds[4], status);
    let o5 = o4.push((4int, status));
    lemma_vals_push_all(o4, (4int, status));
    let st8 = ScanV { opts: o5, ..st7 };
    assert(scan(args, 14, st8) == Ok::<ScanV, (ArgErrorKind, int)>(st8));
    assert(scan(args, 12, st7) == Ok::<ScanV, (ArgErrorKind, int)>(st8));
    assert(scan(args, 10, st6) == Ok::<ScanV, (ArgErrorKind, int)>(st8));
    assert(scan(args, 8, st5) == Ok::<ScanV, (ArgErrorKind, int)>(st8));
    assert(scan(args, 6, st4) == Ok::<ScanV, (ArgErrorKind, int)>(st8));
    assert(scan(args, 4, st3) == Ok::<ScanV, (ArgErrorKind, int)>(st8));
    assert(scan(args, 3, st2) == Ok::<ScanV, (ArgErrorKind, int)>(st8));
    assert(scan(args, 2, st1) == Ok::<ScanV, (ArgErrorKind, int)>(st8));
    assert(scan(args, 1, st0) == Ok::<ScanV, (ArgErrorKind, int)>(st8));
    assert(scanned(args) == Ok::<ScanV, (ArgErrorKind, int)>(st8));
    assert(vals(o5, 0) =~= seq![external_id]);
    assert(vals(o5, 1) =~= seq![at]);
    assert(vals(o5, 2) =~= seq![timezone]);
    assert(vals(o5, 3) =~= seq![channel]);
    assert(vals(o5, 4) =~= seq![status]);
    assert(check(st8) is None);
    assert(check_final(st8) is None);
    if parse_ok(args, cli) {
        assert(built(st8, cli.command->Some_0));
    }
}

/// `reminder list ID` parses into that reminder command on `ID`.
pub proof fn law_reminder_list_argument_reaches_the_request(prog: Seq<char>, id: Seq<char>, cli: Cli)
    requires
        !dashed(id),
    ensures
        parse_error(seq![prog, "reminder"@, "list"@, id]) is None,
        parse_ok(seq![prog, "reminder"@, "list"@, id], cli) ==> (cli.command matches Some(Command::Reminder { command: ReminderCommand::List { task: r } }) && r@ == id),
{
    let args = seq![prog, "reminder"@, "list"@, id];
    lemma_command_literals();
    reveal_strlit("--");
    reveal_strlit("add");
    reveal_strlit("block");
    reveal_strlit("cancel");
    reveal_strlit("create");
    reveal_strlit("db");
    reveal_strlit("done");
    reveal_strlit("edit");
    reveal_strlit("fired");
    reveal_strlit("help");
    reveal_strlit("history");
    reveal_strlit("json");
    reveal_strlit("list");
    reveal_strlit("note");
    reveal_strlit("parent");
    reveal_strlit("reminder");
    reveal_strlit("remove");
    reveal_strlit("reopen");
    reveal_strlit("show");
    reveal_strlit("start");
    reveal_strlit("version");
    assert("help"@[0] != "json"@[0]);
    assert("list"@[0] != "edit"@[0]);
    assert("list"@[0] != "done"@[0]);
    assert("list"@[0] != "note"@[0]);
    assert("list"@[0] != "show"@[0]);
    assert("list"@[0] != "edit"@[0]);
    let e: Seq<(int, Seq<char>)> = Seq::empty();
    lemma_vals_none(e);
    let st0 = start_scan();
    assert(st0.opts =~= e);
    lemma_word_step(args, 1, st0);
    assert(sub_of(0, "reminder"@) == 13);
    let st1 = ScanV { node: 13, ..st0 };
    lemma_word_step(args, 2, st1);
    assert(sub_of(13, "list"@) == 15);
    let st2 = ScanV { node: 15, ..st1 };
    lemma_word_step(args, 3, st2);
    assert(st2.pos.push(id) =~= seq![id]);
    let st3 = ScanV { pos: seq![id], ..st2 };
    assert(scan(args, 4, st3) == Ok::<ScanV, (ArgErrorKind, int)>(st3));
    assert(scan(args, 3, st2) == Ok::<ScanV, (ArgErrorKind, int)>(st3));
    assert(scan(args, 2, st1) == Ok::<ScanV, (ArgErrorKind, int)>(st3));
    assert(scan(args, 1, st0) == Ok::<ScanV, (ArgErrorKind, int)>(st3));
    assert(scanned(args) == Ok::<ScanV, (ArgErrorKind, int)>(st3));
    assert(check(st3) is None);
    assert(check_final(st3) is None);
    if parse_ok(args, cli) {
        assert(built(st3, cli.command->Some_0));
    }
}

/// `reminder fired ID` parses into that reminder command on `ID`.
pub proof fn law_reminder_fired_argument_reaches_the_request(prog: Seq<char>, id: Seq<char>, cli: Cli)
    requires
        !dashed(id),
    ensures
        parse_error(seq![prog, "reminder"@, "fired"@, id]) is None,
        parse_ok(seq![prog, "reminder"@, "fired"@, id], cli) ==> (cli.command matches Some(Command::Reminder { command: ReminderCommand::Fired { reminder: r } }) && r@ == id),
{
    let args = seq![prog, "reminder"@, "fired"@, id];
    lemma_command_literals();
    reveal_strlit("--");
    reveal_strlit("add");
    reveal_strlit("block");
    reveal_strlit("cancel");
    reveal_strlit("create");
    reveal_strlit("db");
    reveal_strlit("done");
    reveal_strlit("edit");
    reveal_strlit("fired");
    reveal_strlit("help");
    reveal_strlit("history");
    reveal_strlit("json");
    reveal_strlit("list");
    reveal_strlit("note");
    reveal_strlit("parent");
    reveal_strlit("reminder");
    reveal_strlit("remove");
    reveal_strlit("reopen");
    reveal_strlit("show");
    reveal_strlit("start");
    reveal_strlit("version");
    assert("help"@[0] != "json"@[0]);
    assert("fired"@[0] != "start"@[0]);
    assert("fired"@[0] != "block"@[0]);
    let e: Seq<(int, Seq<char>)> = Seq::empty();
    lemma_vals_none(e);
    let st0 = start_scan();
    assert(st0.opts =~= e);
    lemma_word_step(args, 1, st0);
    assert(sub_of(0, "reminder"@) == 13);
    let st1 = ScanV { node: 13, ..st0 };
    lemma_word_step(args, 2, st1);
    assert(sub_of(13, "fired"@) == 17);
    let st2 = ScanV { node: 17, ..st1 };
    lemma_word_step(args, 3, st2);
    assert(st2.pos.push(id) =~= seq![id]);
    let st3 = ScanV { pos: seq![id], ..st2 };
    assert(scan(args, 4, st3) == Ok::<ScanV, (ArgErrorKind, int)>(st3));
    assert(scan(args, 3, st2) == Ok::<ScanV, (ArgErrorKind, int)>(st3));
    assert(scan(args, 2, st1) == Ok::<ScanV, (ArgErrorKind, int)>(st3));
    assert(scan(args, 1, st0) == Ok::<ScanV, (ArgErrorKind, int)>(st3));
    assert(scanned(args) == Ok::<ScanV, (ArgErrorKind, int)>(st3));
    assert(check(st3) is None);
    assert(check_final(st3) is None);
    if parse_ok(args, cli) {
        assert(built(st3, cli.command->Some_0));
    }
}

/// `reminder cancel ID` parses into that reminder command on `ID`.
pub proof fn law_reminder_cancel_argument_reaches_the_request(prog: Seq<char>, id: Seq<char>, cli: Cli)
    requires
        !dashed(id),
    ensures
        parse_error(seq![prog, "reminder"@, "cancel"@, id]) is None,
        parse_ok(seq![prog, "reminder"@, "cancel"@, id], cli) ==> (cli.command matches Some(Command::Reminder { command: ReminderCommand::Cancel { reminder: r } }) && r@ == id),
{
    let args = seq![prog, "reminder"@, "cancel"@, id];
    lemma_command_literals();
    reveal_strlit("--");
    reveal_strlit("add");
    reveal_strlit("block");
    reveal_strlit("cancel");
    reveal_strlit("create");
    reveal_strlit("db");
    reveal_strlit("done");
    reveal_strlit("edit");
    reveal_strlit("fired");
    reveal_strlit("help");
    reveal_strlit("history");
    reveal_strlit("json");
    reveal_strlit("list");
    reveal_strlit("note");
    reveal_strlit("parent");
    reveal_strlit("reminder");
    reveal_strlit("remove");
    reveal_strlit("reopen");
    reveal_strlit("show");
    reveal_strlit("start");
    reveal_strlit("version");
    assert("help"@[0] != "json"@[0]);
    assert("cancel"@[1] != "create"@[1]);
    assert("cancel"@[0] != "parent"@[0]);
    assert("cancel"@[0] != "reopen"@[0]);
    assert("cancel"@[0] != "remove"@[0]);
    let e: Seq<(int, Seq<char>)> = Seq::empty();
    lemma_vals_none(e);
    let st0 = start_scan();
    assert(st0.opts =~= e);
    lemma_word_step(args, 1, st0);
    assert(sub_of(0, "reminder"@) == 13);
    let st1 = ScanV { node: 13, ..st0 };
    lemma_word_step(args, 2, st1);
    assert(sub_of(13, "cancel"@) == 18);
    let st2 = ScanV { node: 18, ..st1 };
    lemma_word_step(args, 3, st2);
    assert(st2.pos.push(id) =~= seq![id]);
    let st3 = ScanV { pos: seq![id], ..st2 };
    assert(scan(args, 4, st3) == Ok::<ScanV, (ArgErrorKind, int)>(st3));
    assert(scan(args, 3, st2) == Ok::<ScanV, (ArgErrorKind, int)>(st3));
    assert(scan(args, 2, st1) == Ok::<ScanV, (ArgErrorKind, int)>(st3));
    assert(scan(args, 1, st0) == Ok::<ScanV, (ArgErrorKind, int)>(st3));
    assert(scanned(args) == Ok::<ScanV, (ArgErrorKind, int)>(st3));
    assert(check(st3) is None);
    assert(check_final(st3) is None);
    if parse_ok(args, cli) {
        assert(built(st3, cli.command->Some_0));
    }
}

/// `reminder remove ID` parses into that reminder command on `ID`.
pub proof fn law_reminder_remove_argument_reaches_the_request(prog: Seq<char>, id: Seq<char>, cli: Cli)
    requires
        !dashed(id),
    ensures
        parse_error(seq![prog, "reminder"@, "remove"@, id]) is None,
        parse_ok(seq![prog, "reminder"@, "remove"@, id], cli) ==> (cli.command matches Some(Command::Reminder { command: ReminderCommand::Remove { reminder: r } }) && r@ == id),
{
    let args = seq![prog, "reminder"@, "remove"@, id];
    lemma_command_literals();
    reveal_strlit("--");
    reveal_strlit("add");
    reveal_strlit("block");
    reveal_strlit("cancel");
    reveal_strlit("create");
    reveal_strlit("db");
    reveal_strlit("done");
    reveal_strlit("edit");
    reveal_strlit("fired");
    reveal_strlit("help");
    reveal_strlit("history");
    reveal_strlit("json");
    reveal_strlit("list");
    reveal_strlit("note");
    reveal_strlit("parent");
    reveal_strlit("reminder");
    reveal_strlit("remove");
    reveal_strlit("reopen");
    reveal_strlit("show");
    reveal_strlit("start");
    reveal_strlit("version");
    assert("help"@[0] != "json"@[0]);
    assert("remove"@[0] != "create"@[0]);
    assert("remove"@[0] != "parent"@[0]);
    assert("remove"@[0] != "cancel"@[0]);
    assert("remove"@[2] != "reopen"@[2]);
    assert("remove"@[0] != "cancel"@[0]);
    let e: Seq<(int, Seq<char>)> = Seq::empty();
    lemma_vals_none(e);
    let st0 = start_scan();
    assert(st0.opts =~= e);
    lemma_word_step(args, 1, st0);
    assert(sub_of(0, "reminder"@) == 13);
    let st1 = ScanV { node: 13, ..st0 };
    lemma_word_step(args, 2, st1);
    assert(sub_of(13, "remove"@) == 19);
    let st2 = ScanV { node: 19, ..st1 };
    lemma_word_step(args, 3, st2);
    assert(st2.pos.push(id) =~= seq![id]);
    let st3 = ScanV { pos: seq![id], ..st2 };
    assert(scan(args, 4, st3) == Ok::<ScanV, (ArgErrorKind, int)>(st3));
    assert(scan(args, 3, st2) == Ok::<ScanV, (ArgErrorKind, int)>(st3));
    assert(scan(args, 2, st1) == Ok::<ScanV, (ArgErrorKind, int)>(st3));
    assert(scan(args, 1, st0) == Ok::<ScanV, (ArgErrorKind, int)>(st3));
    assert(scanned(args) == Ok::<ScanV, (ArgErrorKind, int)>(st3));
    assert(check(st3) is None);
    assert(check_final(st3) is None);
    if parse_ok(args, cli) {
        assert(built(st3, cli.command->Some_0));
    }
}

} // verus!
