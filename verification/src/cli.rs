//! The command line: the grammar of each command, parsing an argument list
//! into a command, telling whether JSON output was asked for, and running a
//! command against a store.
use vstd::prelude::*;

use crate::error::AppError;
use crate::model::{
    ChangeResult, CreateResult, CreateTask, CreateTaskV, EditTask, ListFilter, TaskDetail, Transition,
    TransitionResult, HistoryEntry, ListResult,
};
use crate::output::Response;
use crate::parenting::{change_view, set_parent_spec};
use crate::query::{list_view_ok, show_ok};
use crate::reminders::{
    add_reminder_spec, edit_reminder_spec, remove_reminder_spec, reminder_list_ok, reminder_result_view,
    removed_view, AddReminder, EditReminder, Reminder, ReminderResult,
};
use crate::clock::{utc_time_text, uuid_v4_text};
use crate::store::{Store, StoreV};
use crate::tasks::{create_spec, create_view, history_ok};
use crate::edits::{edit_spec, note_spec};
use crate::transitions::{transition_spec, transition_view};
use crate::text::{from_chars, opt_view, push_char, seq_view, text_eq, to_chars};

verus! {

/// Why an argument list did not become a command.  The first two are requests
/// rather than mistakes: the text to show is in the error's `text`.
#[derive(Debug, Clone, Copy, PartialEq, Eq, Structural)]
pub enum ArgErrorKind {
    DisplayHelp,
    DisplayVersion,
    UnknownArgument,
    InvalidSubcommand,
    InvalidValue,
    ArgumentConflict,
    MissingRequiredArgument,
    MissingSubcommand,
}

/// A refused argument list: its kind and, for a request for help or for the
/// version, the text to show.  The other refusals carry no wording here; the
/// program words them as its argument parser does.
#[derive(Debug)]
pub struct ArgError {
    pub kind: ArgErrorKind,
    pub text: Option<String>,
}

impl ArgError {
    pub fn kind(&self) -> (r: ArgErrorKind)
        ensures
            r == self.kind,
    {
        self.kind
    }
}

/// One `--name` option of a command: whether it takes a value, whether that
/// value may start with `-`, whether it may repeat, and which values it
/// accepts (`choices`: 0 any, 1 a category, 2 comma-separated statuses, 3 a
/// reminder status).
pub struct OptDef {
    pub name: &'static str,
    pub value: bool,
    pub hyphen: bool,
    pub multiple: bool,
    pub choices: u8,
}

pub struct OptDefV {
    pub name: Seq<char>,
    pub value: bool,
    pub hyphen: bool,
    pub multiple: bool,
    pub choices: int,
}

impl View for OptDef {
    type V = OptDefV;

    open spec fn view(&self) -> OptDefV {
        OptDefV {
            name: self.name@,
            value: self.value,
            hyphen: self.hyphen,
            multiple: self.multiple,
            choices: self.choices as int,
        }
    }
}

pub open spec fn ov(name: Seq<char>, value: bool, hyphen: bool, multiple: bool, choices: int) -> OptDefV {
    OptDefV { name, value, hyphen, multiple, choices }
}

/// The options of each command.  Commands are numbered: 0 the program itself,
/// 1 `create`, 2 `edit`, 3 `parent`, 4 `start`, 5 `block`, 6 `done`,
/// 7 `cancel`, 8 `reopen`, 9 `note`, 10 `list`, 11 `show`, 12 `history`,
/// 13 `reminder`, and under it 14 `add`, 15 `list`, 16 `edit`, 17 `fired`,
/// 18 `cancel`, 19 `remove`.
pub open spec fn defs(node: int) -> Seq<OptDefV> {
    if node == 1 {
        seq![
            ov("category"@, true, false, false, 1),
            ov("description"@, true, true, false, 0),
            ov("project"@, true, true, false, 0),
            ov("parent"@, true, true, false, 0),
            ov("source"@, true, true, true, 0),
            ov("creation-token"@, true, true, false, 0),
        ]
    } else if node == 2 {
        seq![
            ov("title"@, true, true, false, 0),
            ov("category"@, true, false, false, 1),
            ov("description"@, true, true, false, 0),
            ov("clear-description"@, false, false, false, 0),
            ov("project"@, true, true, false, 0),
            ov("clear-project"@, false, false, false, 0),
            ov("source"@, true, true, true, 0),
            ov("clear-sources"@, false, false, false, 0),
        ]
    } else if node == 3 {
        seq![ov("parent"@, true, true, false, 0), ov("clear-parent"@, false, false, false, 0)]
    } else if node == 5 {
        seq![ov("reason"@, true, true, false, 0)]
    } else if node == 6 {
        seq![ov("cascade"@, false, false, false, 0)]
    } else if node == 7 {
        seq![ov("reason"@, true, true, false, 0), ov("cascade"@, false, false, false, 0)]
    } else if node == 10 {
        seq![
            ov("all"@, false, false, false, 0),
            ov("category"@, true, false, false, 1),
            ov("project"@, true, true, false, 0),
            ov("status"@, true, false, true, 2),
            ov("search"@, true, true, false, 0),
        ]
    } else if node == 14 || node == 16 {
        seq![
            ov("external-id"@, true, true, false, 0),
            ov("at"@, true, true, false, 0),
            ov("timezone"@, true, true, false, 0),
            ov("channel"@, true, true, false, 0),
            ov("status"@, true, false, false, 3),
        ]
    } else {
        seq![]
    }
}

pub open spec fn defs_view(v: Seq<OptDef>) -> Seq<OptDefV> {
    v.map_values(|d: OptDef| d@)
}

fn od(name: &'static str, value: bool, hyphen: bool, multiple: bool, choices: u8) -> (r: OptDef)
    ensures
        r@ == ov(name@, value, hyphen, multiple, choices as int),
{
    OptDef { name, value, hyphen, multiple, choices }
}

/// The options of command `node`.
pub fn defs_of(node: usize) -> (r: Vec<OptDef>)
    ensures
        defs_view(r@) == defs(node as int),
{
    let mut v: Vec<OptDef> = Vec::new();
    if node == 1 {
        v.push(od("category", true, false, false, 1));
        v.push(od("description", true, true, false, 0));
        v.push(od("project", true, true, false, 0));
        v.push(od("parent", true, true, false, 0));
        v.push(od("source", true, true, true, 0));
        v.push(od("creation-token", true, true, false, 0));
    } else if node == 2 {
        v.push(od("title", true, true, false, 0));
        v.push(od("category", true, false, false, 1));
        v.push(od("description", true, true, false, 0));
        v.push(od("clear-description", false, false, false, 0));
        v.push(od("project", true, true, false, 0));
        v.push(od("clear-project", false, false, false, 0));
        v.push(od("source", true, true, true, 0));
        v.push(od("clear-sources", false, false, false, 0));
    } else if node == 3 {
        v.push(od("parent", true, true, false, 0));
        v.push(od("clear-parent", false, false, false, 0));
    } else if node == 5 {
        v.push(od("reason", true, true, false, 0));
    } else if node == 6 {
        v.push(od("cascade", false, false, false, 0));
    } else if node == 7 {
        v.push(od("reason", true, true, false, 0));
        v.push(od("cascade", false, false, false, 0));
    } else if node == 10 {
        v.push(od("all", false, false, false, 0));
        v.push(od("category", true, false, false, 1));
        v.push(od("project", true, true, false, 0));
        v.push(od("status", true, false, true, 2));
        v.push(od("search", true, true, false, 0));
    } else if node == 14 || node == 16 {
        v.push(od("external-id", true, true, false, 0));
        v.push(od("at", true, true, false, 0));
        v.push(od("timezone", true, true, false, 0));
        v.push(od("channel", true, true, false, 0));
        v.push(od("status", true, false, false, 3));
    }
    assert(defs_view(v@) =~= defs(node as int));
    v
}

/// The command that the word `t` selects below `node`, or -1.
pub open spec fn sub_of(node: int, t: Seq<char>) -> int {
    if node == 0 {
        if t == "create"@ { 1 }
        else if t == "edit"@ { 2 }
        else if t == "parent"@ { 3 }
        else if t == "start"@ { 4 }
        else if t == "block"@ { 5 }
        else if t == "done"@ { 6 }
        else if t == "cancel"@ { 7 }
        else if t == "reopen"@ { 8 }
        else if t == "note"@ { 9 }
        else if t == "list"@ { 10 }
        else if t == "show"@ { 11 }
        else if t == "history"@ { 12 }
        else if t == "reminder"@ { 13 }
        else { -1 }
    } else if node == 13 {
        if t == "add"@ { 14 }
        else if t == "list"@ { 15 }
        else if t == "edit"@ { 16 }
        else if t == "fired"@ { 17 }
        else if t == "cancel"@ { 18 }
        else if t == "remove"@ { 19 }
        else { -1 }
    } else {
        -1
    }
}

fn sub_command(node: usize, t: &str) -> (r: i64)
    ensures
        r == sub_of(node as int, t@),
{
    if node == 0 {
        if text_eq(t, "create") { 1 }
        else if text_eq(t, "edit") { 2 }
        else if text_eq(t, "parent") { 3 }
        else if text_eq(t, "start") { 4 }
        else if text_eq(t, "block") { 5 }
        else if text_eq(t, "done") { 6 }
        else if text_eq(t, "cancel") { 7 }
        else if text_eq(t, "reopen") { 8 }
        else if text_eq(t, "note") { 9 }
        else if text_eq(t, "list") { 10 }
        else if text_eq(t, "show") { 11 }
        else if text_eq(t, "history") { 12 }
        else if text_eq(t, "reminder") { 13 }
        else { -1 }
    } else if node == 13 {
        if text_eq(t, "add") { 14 }
        else if text_eq(t, "list") { 15 }
        else if text_eq(t, "edit") { 16 }
        else if text_eq(t, "fired") { 17 }
        else if text_eq(t, "cancel") { 18 }
        else if text_eq(t, "remove") { 19 }
        else { -1 }
    } else {
        -1
    }
}

/// Commands that only select a further command.
pub open spec fn is_branch(node: int) -> bool {
    node == 0 || node == 13
}

/// How many positional arguments a command takes.
pub open spec fn npos(node: int) -> int {
    if node == 9 {
        2
    } else if node == 10 || is_branch(node) {
        0
    } else {
        1
    }
}

fn npos_of(node: usize) -> (r: usize)
    ensures
        r == npos(node as int),
{
    if node == 9 {
        2
    } else if node == 10 || node == 0 || node == 13 {
        0
    } else {
        1
    }
}

/// The first option at or after `k` named `name`, or -1.
pub open spec fn find_def(ds: Seq<OptDefV>, name: Seq<char>, k: int) -> int
    decreases ds.len() - k,
{
    if k < 0 || k >= ds.len() {
        -1
    } else if ds[k].name == name {
        k
    } else {
        find_def(ds, name, k + 1)
    }
}

fn find_def_in(ds: &Vec<OptDef>, name: &str) -> (r: i64)
    requires
        ds@.len() < i64::MAX,
    ensures
        r == find_def(defs_view(ds@), name@, 0),
        -1 <= r < ds@.len(),
{
    let ghost dv = defs_view(ds@);
    let mut k: usize = 0;
    while k < ds.len()
        invariant
            k <= ds@.len(),
            ds@.len() < i64::MAX,
            dv == defs_view(ds@),
            find_def(dv, name@, 0) == find_def(dv, name@, k as int),
        decreases ds.len() - k,
    {
        if text_eq(ds[k].name, name) {
            return k as i64;
        }
        k = k + 1;
    }
    -1
}

/// Whether `v` is one of the values that option kind `c` accepts.
pub open spec fn allowed(c: int, v: Seq<char>) -> bool {
    if c == 1 {
        v == "personal"@ || v == "work"@
    } else if c == 2 {
        v == "pending"@ || v == "in_progress"@ || v == "blocked"@ || v == "done"@ || v
            == "cancelled"@
    } else if c == 3 {
        v == "scheduled"@ || v == "fired"@ || v == "cancelled"@ || v == "unknown"@
    } else {
        true
    }
}

fn allowed_value(c: u8, v: &str) -> (r: bool)
    ensures
        r == allowed(c as int, v@),
{
    if c == 1 {
        text_eq(v, "personal") || text_eq(v, "work")
    } else if c == 2 {
        text_eq(v, "pending") || text_eq(v, "in_progress") || text_eq(v, "blocked") || text_eq(
            v,
            "done",
        ) || text_eq(v, "cancelled")
    } else if c == 3 {
        text_eq(v, "scheduled") || text_eq(v, "fired") || text_eq(v, "cancelled") || text_eq(
            v,
            "unknown",
        )
    } else {
        true
    }
}

/// The pieces of `s` between commas, as `str::split(',')` gives them.
pub open spec fn split_commas(s: Seq<char>) -> Seq<Seq<char>>
    decreases s.len(),
{
    if s.len() == 0 {
        seq![Seq::empty()]
    } else {
        let r = split_commas(s.drop_last());
        if s.last() == ',' {
            r.push(Seq::empty())
        } else {
            r.update(r.len() - 1, r.last().push(s.last()))
        }
    }
}

pub proof fn lemma_split_nonempty(s: Seq<char>)
    ensures
        split_commas(s).len() >= 1,
    decreases s.len(),
{
    if s.len() > 0 {
        lemma_split_nonempty(s.drop_last());
    }
}

fn split_at_commas(v: &str) -> (r: Vec<String>)
    ensures
        seq_view(r@) == split_commas(v@),
{
    let cs = to_chars(v);
    let mut parts: Vec<String> = Vec::new();
    let mut cur = String::new();
    let mut j: usize = 0;
    assert(cs@.take(0) =~= Seq::<char>::empty());
    assert(seq_view(parts@).push(cur@) =~= split_commas(cs@.take(0)));
    while j < cs.len()
        invariant
            j <= cs@.len(),
            cs@ == v@,
            seq_view(parts@).push(cur@) == split_commas(cs@.take(j as int)),
        decreases cs.len() - j,
    {
        let c = cs[j];
        proof {
            assert(cs@.take(j + 1).drop_last() =~= cs@.take(j as int));
            assert(cs@.take(j + 1).last() == c);
        }
        if c == ',' {
            let done = cur;
            parts.push(done);
            cur = String::new();
            assert(seq_view(parts@).push(cur@) =~= split_commas(cs@.take(j + 1)));
        } else {
            let ghost before = cur@;
            push_char(&mut cur, c);
            assert(seq_view(parts@).push(cur@) =~= split_commas(cs@.take(j + 1)));
        }
        j = j + 1;
    }
    assert(cs@.take(cs@.len() as int) =~= cs@);
    parts.push(cur);
    assert(seq_view(parts@) =~= split_commas(v@));
    parts
}

/// Parsed option values: the option's position in its command's table, and
/// the value (empty for a flag).
pub open spec fn opts_view(o: Seq<(usize, String)>) -> Seq<(int, Seq<char>)> {
    o.map_values(|e: (usize, String)| (e.0 as int, e.1@))
}

pub open spec fn is_opt(k: int) -> spec_fn((int, Seq<char>)) -> bool {
    |e: (int, Seq<char>)| e.0 == k
}

/// Every value given for option `k`, in order.
pub open spec fn vals(o: Seq<(int, Seq<char>)>, k: int) -> Seq<Seq<char>> {
    o.filter(is_opt(k)).map_values(|e: (int, Seq<char>)| e.1)
}

/// Option `k` was given.
pub open spec fn has_opt(o: Seq<(int, Seq<char>)>, k: int) -> bool {
    vals(o, k).len() > 0
}

/// The first value given for option `k`.
pub open spec fn first(o: Seq<(int, Seq<char>)>, k: int) -> Option<Seq<char>> {
    if has_opt(o, k) {
        Some(vals(o, k)[0])
    } else {
        None
    }
}

fn values_of(o: &Vec<(usize, String)>, k: usize) -> (r: Vec<String>)
    ensures
        seq_view(r@) == vals(opts_view(o@), k as int),
{
    let ghost ov = opts_view(o@);
    let ghost p = is_opt(k as int);
    let mut r: Vec<String> = Vec::new();
    let mut j: usize = 0;
    assert(ov.take(0) =~= Seq::<(int, Seq<char>)>::empty());
    assert(seq_view(r@) =~= vals(ov.take(0), k as int));
    while j < o.len()
        invariant
            j <= o@.len(),
            ov == opts_view(o@),
            p == is_opt(k as int),
            seq_view(r@) == vals(ov.take(j as int), k as int),
        decreases o.len() - j,
    {
        proof {
            assert(ov.take(j + 1) =~= ov.take(j as int).push(ov[j as int]));
            ov.take(j as int).lemma_filter_push(ov[j as int], p);
        }
        assert(ov[j as int] == (o@[j as int].0 as int, o@[j as int].1@));
        if o[j].0 == k {
            assert(p(ov[j as int]));
            assert(ov.take(j + 1).filter(p) == ov.take(j as int).filter(p).push(ov[j as int]));
            let ghost before = seq_view(r@);
            r.push(o[j].1.clone());
            assert(seq_view(r@) =~= before.push(o@[j as int].1@));
            assert(vals(ov.take(j + 1), k as int) =~= vals(ov.take(j as int), k as int).push(
                o@[j as int].1@,
            ));
        } else {
            assert(ov.take(j + 1).filter(p) == ov.take(j as int).filter(p));
        }
        j = j + 1;
    }
    assert(ov.take(o@.len() as int) =~= ov);
    r
}

fn has_value(o: &Vec<(usize, String)>, k: usize) -> (r: bool)
    ensures
        r == has_opt(opts_view(o@), k as int),
{
    values_of(o, k).len() > 0
}

fn first_value(o: &Vec<(usize, String)>, k: usize) -> (r: Option<String>)
    ensures
        opt_view(r) == first(opts_view(o@), k as int),
{
    let vs = values_of(o, k);
    if vs.len() > 0 {
        Some(vs[0].clone())
    } else {
        None
    }
}

/// The state of a parse part-way through the arguments.
pub struct ScanV {
    /// The command reached so far.
    pub node: int,
    /// Its positional arguments so far.
    pub pos: Seq<Seq<char>>,
    /// Its option values so far.
    pub opts: Seq<(int, Seq<char>)>,
    /// `--db`, when given.
    pub db: Option<Seq<char>>,
    /// `--json` was given.
    pub json: bool,
    /// `--` was seen: everything after it is positional.
    pub dd: bool,
}

pub open spec fn start_scan() -> ScanV {
    ScanV { node: 0, pos: seq![], opts: seq![], db: None, json: false, dd: false }
}

/// `t` looks like a flag.
pub open spec fn dashed(t: Seq<char>) -> bool {
    t.len() > 1 && t[0] == '-'
}

/// The first position at or after `from` holding `c`, or -1.
pub open spec fn find_char(s: Seq<char>, c: char, from: int) -> int
    decreases s.len() - from,
{
    if from < 0 || from >= s.len() {
        -1
    } else if s[from] == c {
        from
    } else {
        find_char(s, c, from + 1)
    }
}

pub open spec fn tagged(k: int, ps: Seq<Seq<char>>) -> Seq<(int, Seq<char>)> {
    ps.map_values(|p: Seq<char>| (k, p))
}

/// Records value `v` of option `k`: a repeated single option is a conflict,
/// and a value outside the option's choices is invalid.  A status list is
/// split at commas first.
pub open spec fn add_value(st: ScanV, k: int, d: OptDefV, v: Seq<char>) -> Result<ScanV, ArgErrorKind> {
    if !d.multiple && has_opt(st.opts, k) {
        Err(ArgErrorKind::ArgumentConflict)
    } else if d.choices == 2 {
        let ps = split_commas(v);
        if forall|j: int| 0 <= j < ps.len() ==> allowed(2, #[trigger] ps[j]) {
            Ok(ScanV { opts: st.opts + tagged(k, ps), ..st })
        } else {
            Err(ArgErrorKind::InvalidValue)
        }
    } else if !allowed(d.choices, v) {
        Err(ArgErrorKind::InvalidValue)
    } else {
        Ok(ScanV { opts: st.opts.push((k, v)), ..st })
    }
}

/// A word that is not an option: it selects a command below a branch, or is
/// the command's next positional argument.
pub open spec fn positional(st: ScanV, t: Seq<char>) -> Result<ScanV, ArgErrorKind> {
    if is_branch(st.node) {
        if st.dd {
            Err(ArgErrorKind::UnknownArgument)
        } else if sub_of(st.node, t) >= 0 {
            Ok(ScanV { node: sub_of(st.node, t), ..st })
        } else {
            Err(ArgErrorKind::InvalidSubcommand)
        }
    } else if st.pos.len() < npos(st.node) {
        Ok(ScanV { pos: st.pos.push(t), ..st })
    } else {
        Err(ArgErrorKind::UnknownArgument)
    }
}

pub open spec fn lift(r: Result<ScanV, ArgErrorKind>, used: int, node: int) -> Result<
    (ScanV, int),
    (ArgErrorKind, int),
> {
    match r {
        Ok(s) => Ok((s, used)),
        Err(k) => Err((k, node)),
    }
}

/// One step of the parse at argument `i`: the new state and how many
/// arguments it used, or the error with the command it was found in.
pub open spec fn step(args: Seq<Seq<char>>, i: int, st: ScanV) -> Result<(ScanV, int), (ArgErrorKind, int)> {
    let t = args[i];
    let has_next = i + 1 < args.len();
    let node = st.node;
    if st.dd {
        lift(positional(st, t), 1, node)
    } else if t == "--"@ {
        Ok((ScanV { dd: true, ..st }, 1))
    } else if t.len() >= 2 && t[0] == '-' && t[1] == '-' {
        let eq = find_char(t, '=', 2);
        let name = if eq >= 0 {
            t.subrange(2, eq)
        } else {
            t.skip(2)
        };
        let inline = t.skip(eq + 1);
        if name == "help"@ {
            if eq >= 0 {
                Err((ArgErrorKind::InvalidValue, node))
            } else {
                Err((ArgErrorKind::DisplayHelp, node))
            }
        } else if name == "version"@ && node == 0 {
            if eq >= 0 {
                Err((ArgErrorKind::InvalidValue, node))
            } else {
                Err((ArgErrorKind::DisplayVersion, node))
            }
        } else if name == "json"@ {
            if eq >= 0 {
                Err((ArgErrorKind::InvalidValue, node))
            } else if st.json {
                Err((ArgErrorKind::ArgumentConflict, node))
            } else {
                Ok((ScanV { json: true, ..st }, 1))
            }
        } else if name == "db"@ {
            if st.db is Some {
                Err((ArgErrorKind::ArgumentConflict, node))
            } else if eq >= 0 {
                Ok((ScanV { db: Some(inline), ..st }, 1))
            } else if has_next {
                Ok((ScanV { db: Some(args[i + 1]), ..st }, 2))
            } else {
                Err((ArgErrorKind::InvalidValue, node))
            }
        } else {
            let ds = defs(node);
            let k = find_def(ds, name, 0);
            if k < 0 {
                Err((ArgErrorKind::UnknownArgument, node))
            } else if !ds[k].value {
                if eq >= 0 {
                    Err((ArgErrorKind::InvalidValue, node))
                } else {
                    lift(add_value(st, k, ds[k], Seq::empty()), 1, node)
                }
            } else if eq >= 0 {
                lift(add_value(st, k, ds[k], inline), 1, node)
            } else if has_next && (ds[k].hyphen || !dashed(args[i + 1])) {
                lift(add_value(st, k, ds[k], args[i + 1]), 2, node)
            } else {
                Err((ArgErrorKind::InvalidValue, node))
            }
        }
    } else if dashed(t) {
        if t == "-h"@ {
            Err((ArgErrorKind::DisplayHelp, node))
        } else if t == "-V"@ && node == 0 {
            Err((ArgErrorKind::DisplayVersion, node))
        } else {
            Err((ArgErrorKind::UnknownArgument, node))
        }
    } else {
        lift(positional(st, t), 1, node)
    }
}

/// The parse from argument `i` on.
pub open spec fn scan(args: Seq<Seq<char>>, i: int, st: ScanV) -> Result<ScanV, (ArgErrorKind, int)>
    decreases args.len() + 2 - i,
{
    if i < 0 || i >= args.len() {
        Ok(st)
    } else {
        match step(args, i, st) {
            Ok((s2, used)) => if 1 <= used <= 2 {
                scan(args, i + used, s2)
            } else {
                Ok(s2)
            },
            Err(e) => Err(e),
        }
    }
}

/// The parse of a whole argument list; the first argument names the program.
pub open spec fn scanned(args: Seq<Seq<char>>) -> Result<ScanV, (ArgErrorKind, int)> {
    scan(args, if args.len() > 0 { 1 } else { 0 }, start_scan())
}

struct ScanState {
    node: usize,
    pos: Vec<String>,
    opts: Vec<(usize, String)>,
    db: Option<String>,
    json: bool,
    dd: bool,
}

impl View for ScanState {
    type V = ScanV;

    closed spec fn view(&self) -> ScanV {
        ScanV {
            node: self.node as int,
            pos: seq_view(self.pos@),
            opts: opts_view(self.opts@),
            db: opt_view(self.db),
            json: self.json,
            dd: self.dd,
        }
    }
}

fn add_option(st: &mut ScanState, k: usize, d: &OptDef, v: String) -> (r: Result<(), ArgErrorKind>)
    ensures
        match add_value(old(st)@, k as int, d@, v@) {
            Ok(s2) => r is Ok && final(st)@ == s2,
            Err(e) => r == Err::<(), ArgErrorKind>(e),
        },
        final(st).node == old(st).node,
{
    if !d.multiple && has_value(&st.opts, k) {
        return Err(ArgErrorKind::ArgumentConflict);
    }
    if d.choices == 2 {
        let ps = split_at_commas(v.as_str());
        let ghost pv = seq_view(ps@);
        let mut j: usize = 0;
        while j < ps.len()
            invariant
                j <= ps@.len(),
                pv == seq_view(ps@),
                pv == split_commas(v@),
                d.choices == 2,
                st@ == old(st)@,
                !(!d.multiple && has_opt(old(st)@.opts, k as int)),
                forall|a: int| 0 <= a < j ==> allowed(2, #[trigger] pv[a]),
            decreases ps.len() - j,
        {
            if !allowed_value(2, ps[j].as_str()) {
                assert(!allowed(2, pv[j as int]));
                return Err(ArgErrorKind::InvalidValue);
            }
            j = j + 1;
        }
        let ghost o0 = opts_view(st.opts@);
        let mut j: usize = 0;
        while j < ps.len()
            invariant
                j <= ps@.len(),
                pv == seq_view(ps@),
                opts_view(st.opts@) == o0 + tagged(k as int, pv.take(j as int)),
                st.node == old(st).node,
                st.pos == old(st).pos,
                st.db == old(st).db,
                st.json == old(st).json,
                st.dd == old(st).dd,
            decreases ps.len() - j,
        {
            let ghost before = opts_view(st.opts@);
            st.opts.push((k, ps[j].clone()));
            assert(opts_view(st.opts@) =~= before.push((k as int, pv[j as int])));
            assert(tagged(k as int, pv.take(j + 1)) =~= tagged(k as int, pv.take(j as int)).push(
                (k as int, pv[j as int]),
            ));
            assert(opts_view(st.opts@) =~= o0 + tagged(k as int, pv.take(j + 1)));
            j = j + 1;
        }
        assert(pv.take(pv.len() as int) =~= pv);
        return Ok(());
    }
    if !allowed_value(d.choices, v.as_str()) {
        return Err(ArgErrorKind::InvalidValue);
    }
    let ghost o0 = opts_view(st.opts@);
    st.opts.push((k, v));
    assert(opts_view(st.opts@) =~= o0.push((k as int, v@)));
    Ok(())
}

fn is_dashed(t: &str) -> (r: bool)
    ensures
        r == dashed(t@),
{
    let cs = to_chars(t);
    cs.len() > 1 && cs[0] == '-'
}

fn add_positional(st: &mut ScanState, t: &String) -> (r: Result<(), ArgErrorKind>)
    requires
        old(st).node < 20,
    ensures
        match positional(old(st)@, t@) {
            Ok(s2) => r is Ok && final(st)@ == s2 && final(st).node < 20,
            Err(e) => r == Err::<(), ArgErrorKind>(e),
        },
{
    if st.node == 0 || st.node == 13 {
        if st.dd {
            return Err(ArgErrorKind::UnknownArgument);
        }
        let n = sub_command(st.node, t.as_str());
        if n >= 0 {
            st.node = n as usize;
            Ok(())
        } else {
            Err(ArgErrorKind::InvalidSubcommand)
        }
    } else if st.pos.len() < npos_of(st.node) {
        let ghost before = seq_view(st.pos@);
        st.pos.push(t.clone());
        assert(seq_view(st.pos@) =~= before.push(t@));
        Ok(())
    } else {
        Err(ArgErrorKind::UnknownArgument)
    }
}

fn lifted(r: Result<(), ArgErrorKind>, used: usize, node: usize) -> (out: Result<usize, (ArgErrorKind, usize)>)
    ensures
        match r {
            Ok(_) => out == Ok::<usize, (ArgErrorKind, usize)>(used),
            Err(k) => out == Err::<usize, (ArgErrorKind, usize)>((k, node)),
        },
{
    match r {
        Ok(_) => Ok(used),
        Err(k) => Err((k, node)),
    }
}

/// The result of one step, with the state it leaves.
pub open spec fn step_done(
    s: Result<(ScanV, int), (ArgErrorKind, int)>,
    r: Result<usize, (ArgErrorKind, usize)>,
    st: ScanV,
    node: usize,
) -> bool {
    match s {
        Ok((s2, used)) => r == Ok::<usize, (ArgErrorKind, usize)>(used as usize) && st == s2 && node
            < 20 && 1 <= used <= 2,
        Err((k, n)) => r == Err::<usize, (ArgErrorKind, usize)>((k, n as usize)),
    }
}

fn scan_option(
    args: &Vec<String>,
    i: usize,
    st: &mut ScanState,
    cs: &Vec<char>,
    e: usize,
    name: &String,
) -> (r: Result<usize, (ArgErrorKind, usize)>)
    requires
        i < args@.len(),
        old(st).node < 20,
        !old(st)@.dd,
        cs@ == args@[i as int]@,
        2 <= e <= cs@.len(),
        e == (if find_char(cs@, '=', 2) >= 0 {
            find_char(cs@, '=', 2)
        } else {
            cs@.len() as int
        }),
        name@ == cs@.subrange(2, e as int),
        !(name@ == "help"@),
        !(name@ == "version"@ && old(st).node == 0),
        !(name@ == "json"@),
        !(name@ == "db"@),
    ensures
        step_done(
            lift_option(seq_view(args@), i as int, old(st)@, cs@, e as int, name@),
            r,
            final(st)@,
            final(st).node,
        ),
{
    let node = st.node;
    let has_eq = e < cs.len();
    let ds = defs_of(node);
    assert(defs(node as int).len() <= 8);
    let k = find_def_in(&ds, name.as_str());
    if k < 0 {
        return Err((ArgErrorKind::UnknownArgument, node));
    }
    let k = k as usize;
    let d = &ds[k];
    assert(d@ == defs(node as int)[k as int]);
    if !d.value {
        if has_eq {
            return Err((ArgErrorKind::InvalidValue, node));
        }
        let r = add_option(st, k, d, String::new());
        return lifted(r, 1, node);
    }
    if has_eq {
        let inline = from_chars(cs, e + 1, cs.len());
        let r = add_option(st, k, d, inline);
        return lifted(r, 1, node);
    }
    if args.len() - i > 1 && (d.hyphen || !is_dashed(args[i + 1].as_str())) {
        let r = add_option(st, k, d, args[i + 1].clone());
        return lifted(r, 2, node);
    }
    Err((ArgErrorKind::InvalidValue, node))
}

/// The option branch of `step`, for a token `t` whose name part is `name`.
pub open spec fn lift_option(
    args: Seq<Seq<char>>,
    i: int,
    st: ScanV,
    t: Seq<char>,
    e: int,
    name: Seq<char>,
) -> Result<(ScanV, int), (ArgErrorKind, int)> {
    let has_next = i + 1 < args.len();
    let node = st.node;
    let has_eq = e < t.len();
    let inline = t.skip(e + 1);
    let ds = defs(node);
    let k = find_def(ds, name, 0);
    if k < 0 {
        Err((ArgErrorKind::UnknownArgument, node))
    } else if !ds[k].value {
        if has_eq {
            Err((ArgErrorKind::InvalidValue, node))
        } else {
            lift(add_value(st, k, ds[k], Seq::empty()), 1, node)
        }
    } else if has_eq {
        lift(add_value(st, k, ds[k], inline), 1, node)
    } else if has_next && (ds[k].hyphen || !dashed(args[i + 1])) {
        lift(add_value(st, k, ds[k], args[i + 1]), 2, node)
    } else {
        Err((ArgErrorKind::InvalidValue, node))
    }
}

fn scan_step(args: &Vec<String>, i: usize, st: &mut ScanState) -> (r: Result<usize, (ArgErrorKind, usize)>)
    requires
        i < args@.len(),
        old(st).node < 20,
    ensures
        step_done(step(seq_view(args@), i as int, old(st)@), r, final(st)@, final(st).node),
{
    let ghost av = seq_view(args@);
    assert(av[i as int] == args@[i as int]@);
    let t = &args[i];
    let node = st.node;
    if st.dd {
        let r = add_positional(st, t);
        return lifted(r, 1, node);
    }
    if text_eq(t.as_str(), "--") {
        st.dd = true;
        return Ok(1);
    }
    let cs = to_chars(t.as_str());
    if cs.len() >= 2 && cs[0] == '-' && cs[1] == '-' {
        let mut e: usize = 2;
        while e < cs.len() && cs[e] != '='
            invariant
                2 <= e <= cs@.len(),
                find_char(cs@, '=', 2) == find_char(cs@, '=', e as int),
            decreases cs.len() - e,
        {
            e = e + 1;
        }
        let has_eq = e < cs.len();
        assert(e == (if find_char(cs@, '=', 2) >= 0 {
            find_char(cs@, '=', 2)
        } else {
            cs@.len() as int
        }));
        let name = from_chars(&cs, 2, e);
        assert(!has_eq ==> cs@.subrange(2, e as int) =~= cs@.skip(2));
        if text_eq(name.as_str(), "help") {
            if has_eq {
                return Err((ArgErrorKind::InvalidValue, node));
            }
            return Err((ArgErrorKind::DisplayHelp, node));
        }
        if text_eq(name.as_str(), "version") && node == 0 {
            if has_eq {
                return Err((ArgErrorKind::InvalidValue, node));
            }
            return Err((ArgErrorKind::DisplayVersion, node));
        }
        if text_eq(name.as_str(), "json") {
            if has_eq {
                return Err((ArgErrorKind::InvalidValue, node));
            }
            if st.json {
                return Err((ArgErrorKind::ArgumentConflict, node));
            }
            st.json = true;
            return Ok(1);
        }
        if text_eq(name.as_str(), "db") {
            if st.db.is_some() {
                return Err((ArgErrorKind::ArgumentConflict, node));
            }
            if has_eq {
                st.db = Some(from_chars(&cs, e + 1, cs.len()));
                assert(cs@.subrange(e + 1, cs@.len() as int) =~= cs@.skip(e + 1));
                return Ok(1);
            }
            if args.len() - i > 1 {
                st.db = Some(args[i + 1].clone());
                assert(av[i + 1] == args@[i + 1]@);
                return Ok(2);
            }
            return Err((ArgErrorKind::InvalidValue, node));
        }
        let r = scan_option(args, i, st, &cs, e, &name);
        proof {
            if e < cs@.len() {
                assert(cs@.subrange(2, e as int) == cs@.subrange(2, find_char(cs@, '=', 2)));
            }
        }
        return r;
    }
    if cs.len() > 1 && cs[0] == '-' {
        if text_eq(t.as_str(), "-h") {
            return Err((ArgErrorKind::DisplayHelp, node));
        }
        if text_eq(t.as_str(), "-V") && node == 0 {
            return Err((ArgErrorKind::DisplayVersion, node));
        }
        return Err((ArgErrorKind::UnknownArgument, node));
    }
    let r = add_positional(st, t);
    lifted(r, 1, node)
}

/// A parsed command line: the global options and the command, if any.
#[derive(Debug)]
pub struct Cli {
    /// Database file; when absent the caller falls back to `CLAW_TODO_DB`,
    /// then to the user data directory.
    pub db: Option<String>,
    /// Emit a stable JSON envelope, including on errors.
    pub json: bool,
    pub command: Option<Command>,
}

#[derive(Debug)]
pub enum Command {
    /// Create a pending task; repeated tokens compare the original request.
    Create(CreateArgs),
    /// Edit business fields without changing task status.
    Edit(EditArgs),
    /// Set or clear a parent without changing task state.
    Parent(ParentArgs),
    /// Start an open task.
    Start(TaskId),
    /// Block an open task with a reason.
    Block { id: String, reason: String },
    /// Complete a task, optionally completing all open descendants atomically.
    Done { id: String, cascade: bool },
    /// Cancel a task, optionally cancelling all open descendants atomically.
    Cancel { id: String, reason: Option<String>, cascade: bool },
    /// Explicitly reopen a closed task as pending.
    Reopen(TaskId),
    /// Append a progress note to task history.
    Note { id: String, text: String },
    /// List all matching tasks, including ancestor context for a readable tree.
    List(ListArgs),
    /// Show every task field, direct-child progress, and reminder associations.
    Show(TaskId),
    /// Show the complete history for a task.
    History(TaskId),
    /// Manage local reminder associations; external reminders are never changed.
    Reminder { command: ReminderCommand },
}

#[derive(Debug)]
pub struct TaskId {
    pub id: String,
}

#[derive(Debug)]
pub struct CreateArgs {
    pub title: String,
    pub category: String,
    pub description: Option<String>,
    pub project: Option<String>,
    pub parent: Option<String>,
    pub sources: Vec<String>,
    pub creation_token: Option<String>,
}

#[derive(Debug)]
pub struct EditArgs {
    pub id: String,
    pub title: Option<String>,
    pub category: Option<String>,
    pub description: Option<String>,
    pub clear_description: bool,
    pub project: Option<String>,
    pub clear_project: bool,
    pub sources: Vec<String>,
    pub clear_sources: bool,
}

/// Exactly one of a new parent and `--clear-parent`.
#[derive(Debug)]
pub struct ParentChoice {
    pub parent: Option<String>,
    pub clear_parent: bool,
}

#[derive(Debug)]
pub struct ParentArgs {
    pub id: String,
    pub choice: ParentChoice,
}

#[derive(Debug)]
pub struct ListArgs {
    pub all: bool,
    pub category: Option<String>,
    pub project: Option<String>,
    pub statuses: Vec<String>,
    pub search: Option<String>,
}

#[derive(Debug)]
pub enum ReminderCommand {
    /// Associate an external reminder after the caller creates it.
    Add {
        task: String,
        external_id: String,
        at: String,
        timezone: String,
        channel: String,
        status: String,
    },
    /// List every reminder associated with a task.
    List { task: String },
    /// Update local association information after the external operation succeeds.
    Edit {
        reminder: String,
        external_id: Option<String>,
        at: Option<String>,
        timezone: Option<String>,
        channel: Option<String>,
        status: Option<String>,
    },
    /// Record that an external reminder has fired.
    Fired { reminder: String },
    /// Record that an external reminder was successfully cancelled.
    Cancel { reminder: String },
    /// Remove a local association after external deletion succeeds.
    Remove { reminder: String },
}

/// What is still wrong once every argument was read: a missing subcommand,
/// options that exclude each other, then missing required arguments.
pub open spec fn check(st: ScanV) -> Option<ArgErrorKind> {
    let o = st.opts;
    let n = st.node;
    if n == 13 {
        Some(ArgErrorKind::MissingSubcommand)
    } else if n == 2 && ((has_opt(o, 2) && has_opt(o, 3)) || (has_opt(o, 4) && has_opt(o, 5)) || (
    has_opt(o, 6) && has_opt(o, 7))) {
        Some(ArgErrorKind::ArgumentConflict)
    } else if n == 3 && has_opt(o, 0) && has_opt(o, 1) {
        Some(ArgErrorKind::ArgumentConflict)
    } else if st.pos.len() < npos(n) {
        Some(ArgErrorKind::MissingRequiredArgument)
    } else if (n == 1 && !has_opt(o, 0)) || (n == 3 && !has_opt(o, 0) && !has_opt(o, 1)) || (n == 5
        && !has_opt(o, 0)) || (n == 14 && !(has_opt(o, 0) && has_opt(o, 1) && has_opt(o, 2)
        && has_opt(o, 3))) {
        Some(ArgErrorKind::MissingRequiredArgument)
    } else {
        None
    }
}

/// `c` is the command that the finished parse `st` describes.
pub open spec fn built(st: ScanV, c: Command) -> bool {
    let o = st.opts;
    let p = st.pos;
    let n = st.node;
    if n == 1 {
        c matches Command::Create(a) && a.title@ == p[0] && first(o, 0) == Some(a.category@)
            && opt_view(a.description) == first(o, 1) && opt_view(a.project) == first(o, 2)
            && opt_view(a.parent) == first(o, 3) && seq_view(a.sources@) == vals(o, 4) && opt_view(
            a.creation_token,
        ) == first(o, 5)
    } else if n == 2 {
        c matches Command::Edit(a) && a.id@ == p[0] && opt_view(a.title) == first(o, 0) && opt_view(
            a.category,
        ) == first(o, 1) && opt_view(a.description) == first(o, 2) && a.clear_description
            == has_opt(o, 3) && opt_view(a.project) == first(o, 4) && a.clear_project == has_opt(
            o,
            5,
        ) && seq_view(a.sources@) == vals(o, 6) && a.clear_sources == has_opt(o, 7)
    } else if n == 3 {
        c matches Command::Parent(a) && a.id@ == p[0] && opt_view(a.choice.parent) == first(o, 0)
            && a.choice.clear_parent == has_opt(o, 1)
    } else if n == 4 {
        c matches Command::Start(a) && a.id@ == p[0]
    } else if n == 5 {
        c matches Command::Block { id, reason } && id@ == p[0] && first(o, 0) == Some(reason@)
    } else if n == 6 {
        c matches Command::Done { id, cascade } && id@ == p[0] && cascade == has_opt(o, 0)
    } else if n == 7 {
        c matches Command::Cancel { id, reason, cascade } && id@ == p[0] && opt_view(reason)
            == first(o, 0) && cascade == has_opt(o, 1)
    } else if n == 8 {
        c matches Command::Reopen(a) && a.id@ == p[0]
    } else if n == 9 {
        c matches Command::Note { id, text } && id@ == p[0] && text@ == p[1]
    } else if n == 10 {
        c matches Command::List(a) && a.all == has_opt(o, 0) && opt_view(a.category) == first(o, 1)
            && opt_view(a.project) == first(o, 2) && seq_view(a.statuses@) == vals(o, 3)
            && opt_view(a.search) == first(o, 4)
    } else if n == 11 {
        c matches Command::Show(a) && a.id@ == p[0]
    } else if n == 12 {
        c matches Command::History(a) && a.id@ == p[0]
    } else if n == 14 {
        c matches Command::Reminder { command } && command matches ReminderCommand::Add {
            task,
            external_id,
            at,
            timezone,
            channel,
            status,
        } && task@ == p[0] && first(o, 0) == Some(external_id@) && first(o, 1) == Some(at@)
            && first(o, 2) == Some(timezone@) && first(o, 3) == Some(channel@) && status@ == (
        match first(o, 4) {
            Some(v) => v,
            None => "scheduled"@,
        })
    } else if n == 15 {
        c matches Command::Reminder { command } && command matches ReminderCommand::List { task }
            && task@ == p[0]
    } else if n == 16 {
        c matches Command::Reminder { command } && command matches ReminderCommand::Edit {
            reminder,
            external_id,
            at,
            timezone,
            channel,
            status,
        } && reminder@ == p[0] && opt_view(external_id) == first(o, 0) && opt_view(at) == first(
            o,
            1,
        ) && opt_view(timezone) == first(o, 2) && opt_view(channel) == first(o, 3) && opt_view(
            status,
        ) == first(o, 4)
    } else if n == 17 {
        c matches Command::Reminder { command } && command matches ReminderCommand::Fired {
            reminder,
        } && reminder@ == p[0]
    } else if n == 18 {
        c matches Command::Reminder { command } && command matches ReminderCommand::Cancel {
            reminder,
        } && reminder@ == p[0]
    } else {
        c matches Command::Reminder { command } && command matches ReminderCommand::Remove {
            reminder,
        } && reminder@ == p[0]
    }
}

fn check_scan(st: &ScanState) -> (r: Option<ArgErrorKind>)
    ensures
        r == check(st@),
{
    let o = &st.opts;
    let n = st.node;
    if n == 13 {
        Some(ArgErrorKind::MissingSubcommand)
    } else if n == 2 && ((has_value(o, 2) && has_value(o, 3)) || (has_value(o, 4) && has_value(o, 5))
        || (has_value(o, 6) && has_value(o, 7))) {
        Some(ArgErrorKind::ArgumentConflict)
    } else if n == 3 && has_value(o, 0) && has_value(o, 1) {
        Some(ArgErrorKind::ArgumentConflict)
    } else if st.pos.len() < npos_of(n) {
        Some(ArgErrorKind::MissingRequiredArgument)
    } else if (n == 1 && !has_value(o, 0)) || (n == 3 && !has_value(o, 0) && !has_value(o, 1)) || (n
        == 5 && !has_value(o, 0)) || (n == 14 && !(has_value(o, 0) && has_value(o, 1) && has_value(
        o,
        2,
    ) && has_value(o, 3))) {
        Some(ArgErrorKind::MissingRequiredArgument)
    } else {
        None
    }
}

fn req_value(o: &Vec<(usize, String)>, k: usize) -> (r: String)
    requires
        has_opt(opts_view(o@), k as int),
    ensures
        first(opts_view(o@), k as int) == Some(r@),
{
    match first_value(o, k) {
        Some(v) => v,
        None => String::new(),
    }
}

fn pos_at(st: &ScanState, j: usize) -> (r: String)
    requires
        j < st@.pos.len(),
    ensures
        r@ == st@.pos[j as int],
{
    st.pos[j].clone()
}

fn build_reminder(st: &ScanState) -> (c: Command)
    requires
        14 <= st@.node < 20,
        check(st@) is None,
    ensures
        built(st@, c),
{
    let o = &st.opts;
    let n = st.node;
    let command = if n == 14 {
        let status = match first_value(o, 4) {
            Some(v) => v,
            None => "scheduled".to_owned(),
        };
        ReminderCommand::Add {
            task: pos_at(st, 0),
            external_id: req_value(o, 0),
            at: req_value(o, 1),
            timezone: req_value(o, 2),
            channel: req_value(o, 3),
            status,
        }
    } else if n == 15 {
        ReminderCommand::List { task: pos_at(st, 0) }
    } else if n == 16 {
        ReminderCommand::Edit {
            reminder: pos_at(st, 0),
            external_id: first_value(o, 0),
            at: first_value(o, 1),
            timezone: first_value(o, 2),
            channel: first_value(o, 3),
            status: first_value(o, 4),
        }
    } else if n == 17 {
        ReminderCommand::Fired { reminder: pos_at(st, 0) }
    } else if n == 18 {
        ReminderCommand::Cancel { reminder: pos_at(st, 0) }
    } else {
        ReminderCommand::Remove { reminder: pos_at(st, 0) }
    };
    Command::Reminder { command }
}

fn build(st: &ScanState) -> (c: Command)
    requires
        1 <= st@.node < 20,
        check(st@) is None,
    ensures
        built(st@, c),
{
    let o = &st.opts;
    let n = st.node;
    if n == 1 {
        Command::Create(
            CreateArgs {
                title: pos_at(st, 0),
                category: req_value(o, 0),
                description: first_value(o, 1),
                project: first_value(o, 2),
                parent: first_value(o, 3),
                sources: values_of(o, 4),
                creation_token: first_value(o, 5),
            },
        )
    } else if n == 2 {
        Command::Edit(
            EditArgs {
                id: pos_at(st, 0),
                title: first_value(o, 0),
                category: first_value(o, 1),
                description: first_value(o, 2),
                clear_description: has_value(o, 3),
                project: first_value(o, 4),
                clear_project: has_value(o, 5),
                sources: values_of(o, 6),
                clear_sources: has_value(o, 7),
            },
        )
    } else if n == 3 {
        Command::Parent(
            ParentArgs {
                id: pos_at(st, 0),
                choice: ParentChoice { parent: first_value(o, 0), clear_parent: has_value(o, 1) },
            },
        )
    } else if n == 4 {
        Command::Start(TaskId { id: pos_at(st, 0) })
    } else if n == 5 {
        Command::Block { id: pos_at(st, 0), reason: req_value(o, 0) }
    } else if n == 6 {
        Command::Done { id: pos_at(st, 0), cascade: has_value(o, 0) }
    } else if n == 7 {
        Command::Cancel { id: pos_at(st, 0), reason: first_value(o, 0), cascade: has_value(o, 1) }
    } else if n == 8 {
        Command::Reopen(TaskId { id: pos_at(st, 0) })
    } else if n == 9 {
        Command::Note { id: pos_at(st, 0), text: pos_at(st, 1) }
    } else if n == 10 {
        Command::List(
            ListArgs {
                all: has_value(o, 0),
                category: first_value(o, 1),
                project: first_value(o, 2),
                statuses: values_of(o, 3),
                search: first_value(o, 4),
            },
        )
    } else if n == 11 {
        Command::Show(TaskId { id: pos_at(st, 0) })
    } else if n == 12 {
        Command::History(TaskId { id: pos_at(st, 0) })
    } else {
        build_reminder(st)
    }
}

pub const ROOT_HELP: &'static str = "Local todo state for humans and agents\n\nUsage: claw-todo [OPTIONS] [COMMAND]\n\nCommands:\n  create    Create a pending task; repeated tokens compare the original request\n  edit      Edit business fields without changing task status\n  parent    Set or clear a parent without changing task state\n  start     Start an open task\n  block     Block an open task with a reason\n  done      Complete a task, optionally completing all open descendants atomically\n  cancel    Cancel a task, optionally cancelling all open descendants atomically\n  reopen    Explicitly reopen a closed task as pending\n  note      Append a progress note to task history\n  list      List all matching tasks, including ancestor context for a readable tree\n  show      Show every task field, direct-child progress, and reminder associations\n  history   Show the complete history for a task\n  reminder  Manage local reminder associations; external reminders are never changed\n\nOptions:\n      --db <PATH>  Database file (defaults to the user data directory) [env: CLAW_TODO_DB=]\n      --json       Emit a stable JSON envelope, including on errors\n  -h, --help       Print help\n  -V, --version    Print version\n";

pub const CREATE_HELP: &'static str = "Create a pending task; repeated tokens compare the original request\n\nUsage: claw-todo create [OPTIONS] --category <CATEGORY> <TITLE>\n\nArguments:\n  <TITLE>\n\nOptions:\n      --category <CATEGORY>              [possible values: personal, work]\n      --description <DESCRIPTION>\n      --project <PROJECT>\n      --parent <TASK_ID>\n      --source <REFERENCE>               Source reference; repeat for multiple references\n      --creation-token <CREATION_TOKEN>\n      --db <PATH>  Database file (defaults to the user data directory) [env: CLAW_TODO_DB=]\n      --json       Emit a stable JSON envelope, including on errors\n  -h, --help       Print help\n";

pub const EDIT_HELP: &'static str = "Edit business fields without changing task status\n\nUsage: claw-todo edit [OPTIONS] <ID>\n\nArguments:\n  <ID>\n\nOptions:\n      --title <TITLE>\n      --category <CATEGORY>        [possible values: personal, work]\n      --description <DESCRIPTION>\n      --clear-description\n      --project <PROJECT>\n      --clear-project\n      --source <REFERENCE>         Replace source references; repeat for multiple references\n      --clear-sources\n      --db <PATH>  Database file (defaults to the user data directory) [env: CLAW_TODO_DB=]\n      --json       Emit a stable JSON envelope, including on errors\n  -h, --help       Print help\n";

pub const PARENT_HELP: &'static str = "Set or clear a parent without changing task state\n\nUsage: claw-todo parent <--parent <TASK_ID>|--clear-parent> <ID>\n\nArguments:\n  <ID>\n\nOptions:\n      --parent <TASK_ID>\n      --clear-parent\n      --db <PATH>  Database file (defaults to the user data directory) [env: CLAW_TODO_DB=]\n      --json       Emit a stable JSON envelope, including on errors\n  -h, --help       Print help\n";

pub const START_HELP: &'static str = "Start an open task\n\nUsage: claw-todo start [OPTIONS] <ID>\n\nArguments:\n  <ID>\n\nOptions:\n      --db <PATH>  Database file (defaults to the user data directory) [env: CLAW_TODO_DB=]\n      --json       Emit a stable JSON envelope, including on errors\n  -h, --help       Print help\n";

pub const BLOCK_HELP: &'static str = "Block an open task with a reason\n\nUsage: claw-todo block [OPTIONS] --reason <REASON> <ID>\n\nArguments:\n  <ID>\n\nOptions:\n      --reason <REASON>\n      --db <PATH>  Database file (defaults to the user data directory) [env: CLAW_TODO_DB=]\n      --json       Emit a stable JSON envelope, including on errors\n  -h, --help       Print help\n";

pub const DONE_HELP: &'static str = "Complete a task, optionally completing all open descendants atomically\n\nUsage: claw-todo done [OPTIONS] <ID>\n\nArguments:\n  <ID>\n\nOptions:\n      --cascade\n      --db <PATH>  Database file (defaults to the user data directory) [env: CLAW_TODO_DB=]\n      --json       Emit a stable JSON envelope, including on errors\n  -h, --help       Print help\n";

pub const CANCEL_HELP: &'static str = "Cancel a task, optionally cancelling all open descendants atomically\n\nUsage: claw-todo cancel [OPTIONS] <ID>\n\nArguments:\n  <ID>\n\nOptions:\n      --reason <REASON>\n      --cascade\n      --db <PATH>  Database file (defaults to the user data directory) [env: CLAW_TODO_DB=]\n      --json       Emit a stable JSON envelope, including on errors\n  -h, --help       Print help\n";

pub const REOPEN_HELP: &'static str = "Explicitly reopen a closed task as pending\n\nUsage: claw-todo reopen [OPTIONS] <ID>\n\nArguments:\n  <ID>\n\nOptions:\n      --db <PATH>  Database file (defaults to the user data directory) [env: CLAW_TODO_DB=]\n      --json       Emit a stable JSON envelope, including on errors\n  -h, --help       Print help\n";

pub const NOTE_HELP: &'static str = "Append a progress note to task history\n\nUsage: claw-todo note [OPTIONS] <ID> <TEXT>\n\nArguments:\n  <ID>\n  <TEXT>\n\nOptions:\n      --db <PATH>  Database file (defaults to the user data directory) [env: CLAW_TODO_DB=]\n      --json       Emit a stable JSON envelope, including on errors\n  -h, --help       Print help\n";

pub const LIST_HELP: &'static str = "List all matching tasks, including ancestor context for a readable tree\n\nUsage: claw-todo list [OPTIONS]\n\nOptions:\n      --all                  Include closed tasks when no explicit status filter is supplied\n      --category <CATEGORY>  [possible values: personal, work]\n      --project <PROJECT>\n      --status <STATUSES>    Filter statuses; comma-separated or repeatable (default: open statuses) [possible values: pending, in_progress, blocked, done, cancelled]\n      --search <SEARCH>      Search title and description for a literal substring\n      --db <PATH>  Database file (defaults to the user data directory) [env: CLAW_TODO_DB=]\n      --json       Emit a stable JSON envelope, including on errors\n  -h, --help       Print help\n";

pub const SHOW_HELP: &'static str = "Show every task field, direct-child progress, and reminder associations\n\nUsage: claw-todo show [OPTIONS] <ID>\n\nArguments:\n  <ID>\n\nOptions:\n      --db <PATH>  Database file (defaults to the user data directory) [env: CLAW_TODO_DB=]\n      --json       Emit a stable JSON envelope, including on errors\n  -h, --help       Print help\n";

pub const HISTORY_HELP: &'static str = "Show the complete history for a task\n\nUsage: claw-todo history [OPTIONS] <ID>\n\nArguments:\n  <ID>\n\nOptions:\n      --db <PATH>  Database file (defaults to the user data directory) [env: CLAW_TODO_DB=]\n      --json       Emit a stable JSON envelope, including on errors\n  -h, --help       Print help\n";

pub const REMINDER_HELP: &'static str = "Manage local reminder associations; external reminders are never changed\n\nUsage: claw-todo reminder [OPTIONS] <COMMAND>\n\nCommands:\n  add     Associate an external reminder after the caller creates it\n  list    List every reminder associated with a task\n  edit    Update local association information after the external operation succeeds\n  fired   Record that an external reminder has fired\n  cancel  Record that an external reminder was successfully cancelled\n  remove  Remove a local association after external deletion succeeds\n\nOptions:\n      --db <PATH>  Database file (defaults to the user data directory) [env: CLAW_TODO_DB=]\n      --json       Emit a stable JSON envelope, including on errors\n  -h, --help       Print help\n";

pub const REMINDER_ADD_HELP: &'static str = "Associate an external reminder after the caller creates it\n\nUsage: claw-todo reminder add [OPTIONS] --external-id <EXTERNAL_ID> --at <AT> --timezone <TIMEZONE> --channel <CHANNEL> <TASK>\n\nArguments:\n  <TASK>\n\nOptions:\n      --external-id <EXTERNAL_ID>\n      --at <AT>                    Scheduled instant in RFC 3339 format, including its UTC offset\n      --timezone <TIMEZONE>\n      --channel <CHANNEL>\n      --status <STATUS>            [default: scheduled] [possible values: scheduled, fired, cancelled, unknown]\n      --db <PATH>  Database file (defaults to the user data directory) [env: CLAW_TODO_DB=]\n      --json       Emit a stable JSON envelope, including on errors\n  -h, --help       Print help\n";

pub const REMINDER_LIST_HELP: &'static str = "List every reminder associated with a task\n\nUsage: claw-todo reminder list [OPTIONS] <TASK>\n\nArguments:\n  <TASK>\n\nOptions:\n      --db <PATH>  Database file (defaults to the user data directory) [env: CLAW_TODO_DB=]\n      --json       Emit a stable JSON envelope, including on errors\n  -h, --help       Print help\n";

pub const REMINDER_EDIT_HELP: &'static str = "Update local association information after the external operation succeeds\n\nUsage: claw-todo reminder edit [OPTIONS] <REMINDER>\n\nArguments:\n  <REMINDER>\n\nOptions:\n      --external-id <EXTERNAL_ID>\n      --at <AT>\n      --timezone <TIMEZONE>\n      --channel <CHANNEL>\n      --status <STATUS>            [possible values: scheduled, fired, cancelled, unknown]\n      --db <PATH>  Database file (defaults to the user data directory) [env: CLAW_TODO_DB=]\n      --json       Emit a stable JSON envelope, including on errors\n  -h, --help       Print help\n";

pub const REMINDER_FIRED_HELP: &'static str = "Record that an external reminder has fired\n\nUsage: claw-todo reminder fired [OPTIONS] <REMINDER>\n\nArguments:\n  <REMINDER>\n\nOptions:\n      --db <PATH>  Database file (defaults to the user data directory) [env: CLAW_TODO_DB=]\n      --json       Emit a stable JSON envelope, including on errors\n  -h, --help       Print help\n";

pub const REMINDER_CANCEL_HELP: &'static str = "Record that an external reminder was successfully cancelled\n\nUsage: claw-todo reminder cancel [OPTIONS] <REMINDER>\n\nArguments:\n  <REMINDER>\n\nOptions:\n      --db <PATH>  Database file (defaults to the user data directory) [env: CLAW_TODO_DB=]\n      --json       Emit a stable JSON envelope, including on errors\n  -h, --help       Print help\n";

pub const REMINDER_REMOVE_HELP: &'static str = "Remove a local association after external deletion succeeds\n\nUsage: claw-todo reminder remove [OPTIONS] <REMINDER>\n\nArguments:\n  <REMINDER>\n\nOptions:\n      --db <PATH>  Database file (defaults to the user data directory) [env: CLAW_TODO_DB=]\n      --json       Emit a stable JSON envelope, including on errors\n  -h, --help       Print help\n";

/// The help text of command `node` (numbered as for `defs`).
pub open spec fn help_spec(node: int) -> Seq<char> {
    if node == 0 {
        ROOT_HELP@
    }
    else if node == 1 {
        CREATE_HELP@
    }
    else if node == 2 {
        EDIT_HELP@
    }
    else if node == 3 {
        PARENT_HELP@
    }
    else if node == 4 {
        START_HELP@
    }
    else if node == 5 {
        BLOCK_HELP@
    }
    else if node == 6 {
        DONE_HELP@
    }
    else if node == 7 {
        CANCEL_HELP@
    }
    else if node == 8 {
        REOPEN_HELP@
    }
    else if node == 9 {
        NOTE_HELP@
    }
    else if node == 10 {
        LIST_HELP@
    }
    else if node == 11 {
        SHOW_HELP@
    }
    else if node == 12 {
        HISTORY_HELP@
    }
    else if node == 13 {
        REMINDER_HELP@
    }
    else if node == 14 {
        REMINDER_ADD_HELP@
    }
    else if node == 15 {
        REMINDER_LIST_HELP@
    }
    else if node == 16 {
        REMINDER_EDIT_HELP@
    }
    else if node == 17 {
        REMINDER_FIRED_HELP@
    }
    else if node == 18 {
        REMINDER_CANCEL_HELP@
    }
    else if node == 19 {
        REMINDER_REMOVE_HELP@
    } else {
        ROOT_HELP@
    }
}

/// The help text of command `node`.
pub fn help_text(node: usize) -> (r: &'static str)
    ensures
        r@ == help_spec(node as int),
{
    if node == 0 {
        ROOT_HELP
    }
    else if node == 1 {
        CREATE_HELP
    }
    else if node == 2 {
        EDIT_HELP
    }
    else if node == 3 {
        PARENT_HELP
    }
    else if node == 4 {
        START_HELP
    }
    else if node == 5 {
        BLOCK_HELP
    }
    else if node == 6 {
        DONE_HELP
    }
    else if node == 7 {
        CANCEL_HELP
    }
    else if node == 8 {
        REOPEN_HELP
    }
    else if node == 9 {
        NOTE_HELP
    }
    else if node == 10 {
        LIST_HELP
    }
    else if node == 11 {
        SHOW_HELP
    }
    else if node == 12 {
        HISTORY_HELP
    }
    else if node == 13 {
        REMINDER_HELP
    }
    else if node == 14 {
        REMINDER_ADD_HELP
    }
    else if node == 15 {
        REMINDER_LIST_HELP
    }
    else if node == 16 {
        REMINDER_EDIT_HELP
    }
    else if node == 17 {
        REMINDER_FIRED_HELP
    }
    else if node == 18 {
        REMINDER_CANCEL_HELP
    }
    else if node == 19 {
        REMINDER_REMOVE_HELP
    } else {
        ROOT_HELP
    }
}

/// The version text.
pub const VERSION_TEXT: &'static str = "claw-todo 0.1.0\n";

/// The text shown for a refusal: the help of the command it arose in, or the
/// version; none for the other kinds.
pub open spec fn shown_text(k: ArgErrorKind, node: int) -> Option<Seq<char>> {
    match k {
        ArgErrorKind::DisplayHelp => Some(help_spec(node)),
        ArgErrorKind::DisplayVersion => Some(VERSION_TEXT@),
        _ => None,
    }
}

fn arg_error(kind: ArgErrorKind, node: usize) -> (r: ArgError)
    ensures
        r.kind == kind,
        opt_view(r.text) == shown_text(kind, node as int),
{
    let text = match kind {
        ArgErrorKind::DisplayHelp => Some(help_text(node).to_owned()),
        ArgErrorKind::DisplayVersion => Some(VERSION_TEXT.to_owned()),
        _ => None,
    };
    ArgError { kind, text }
}

/// The parse of `args` as `try_parse_from` gives it.
pub open spec fn parse_ok(args: Seq<Seq<char>>, cli: Cli) -> bool {
    match scanned(args) {
        Ok(st) => check_final(st) is None && opt_view(cli.db) == st.db && cli.json == st.json && if st.node
            == 0 {
            cli.command is None
        } else {
            cli.command matches Some(c) && built(st, c)
        },
        Err(_) => false,
    }
}

/// The refusal of `args`, if any: the kind and the command it arose in.
pub open spec fn parse_error(args: Seq<Seq<char>>) -> Option<(ArgErrorKind, int)> {
    match scanned(args) {
        Ok(st) => match check_final(st) {
            Some(k) => Some((k, st.node)),
            None => None,
        },
        Err(e) => Some(e),
    }
}

pub open spec fn check_final(st: ScanV) -> Option<ArgErrorKind> {
    if st.node == 0 {
        None
    } else {
        check(st)
    }
}

impl Cli {
    /// Parses a whole argument list, whose first element names the program.
    pub fn try_parse_from(args: &Vec<String>) -> (r: Result<Cli, ArgError>)
        ensures
            match parse_error(seq_view(args@)) {
                Some((k, n)) => r matches Err(e) && e.kind == k && opt_view(e.text) == shown_text(k, n),
                None => r matches Ok(cli) && parse_ok(seq_view(args@), cli),
            },
    {
        let ghost av = seq_view(args@);
        let mut st = ScanState {
            node: 0,
            pos: Vec::new(),
            opts: Vec::new(),
            db: None,
            json: false,
            dd: false,
        };
        assert(st@ == start_scan()) by {
            assert(seq_view(st.pos@) =~= Seq::<Seq<char>>::empty());
            assert(opts_view(st.opts@) =~= Seq::<(int, Seq<char>)>::empty());
        }
        let mut i: usize = if args.len() > 0 {
            1
        } else {
            0
        };
        while i < args.len()
            invariant
                i <= args@.len(),
                av == seq_view(args@),
                st.node < 20,
                scan(av, i as int, st@) == scanned(av),
            decreases args.len() - i,
        {
            match scan_step(args, i, &mut st) {
                Ok(used) => {
                    i = i + used;
                },
                Err((k, n)) => {
                    return Err(arg_error(k, n));
                },
            }
        }
        if st.node == 0 {
            return Ok(Cli { db: st.db, json: st.json, command: None });
        }
        match check_scan(&st) {
            Some(k) => {
                return Err(arg_error(k, st.node));
            },
            None => {},
        }
        let c = build(&st);
        Ok(Cli { db: st.db, json: st.json, command: Some(c) })
    }
}

/// An edit field from its new value and its clear flag: clearing wins,
/// otherwise the value, if any, is set.
pub open spec fn edit_field(value: Option<String>, clear: bool) -> Option<Option<Seq<char>>> {
    if clear {
        Some(None)
    } else {
        match value {
            Some(v) => Some(Some(v@)),
            None => None,
        }
    }
}

pub open spec fn edit_field_view(e: Option<Option<String>>) -> Option<Option<Seq<char>>> {
    match e {
        Some(x) => Some(opt_view(x)),
        None => None,
    }
}

/// `Some(None)` to clear, `Some(Some(v))` to set, `None` to keep.
pub fn optional_edit(value: Option<String>, clear: bool) -> (r: Option<Option<String>>)
    ensures
        edit_field_view(r) == edit_field(value, clear),
{
    if clear {
        Some(None)
    } else {
        match value {
            Some(v) => Some(Some(v)),
            None => None,
        }
    }
}

/// The creation request of `create` arguments.
pub open spec fn create_input(a: CreateArgs) -> CreateTaskV {
    CreateTaskV {
        title: a.title@,
        category: a.category@,
        description: opt_view(a.description),
        project: opt_view(a.project),
        parent_id: opt_view(a.parent),
        sources: seq_view(a.sources@),
        creation_token: opt_view(a.creation_token),
    }
}

/// `e` is the edit that `edit` arguments ask for: sources are replaced when
/// some are given, emptied when cleared, and kept otherwise.
pub open spec fn edit_request(a: EditArgs, e: EditTask) -> bool {
    &&& opt_view(e.title) == opt_view(a.title)
    &&& opt_view(e.category) == opt_view(a.category)
    &&& edit_field_view(e.description) == edit_field(a.description, a.clear_description)
    &&& edit_field_view(e.project) == edit_field(a.project, a.clear_project)
    &&& match e.sources {
        Some(v) => if a.clear_sources {
            v@.len() == 0
        } else {
            a.sources@.len() > 0 && seq_view(v@) == seq_view(a.sources@)
        },
        None => !a.clear_sources && a.sources@.len() == 0,
    }
}

/// `e` changes only the status, to `status`.
pub open spec fn status_request(e: EditReminder, status: Seq<char>) -> bool {
    &&& e.external_id is None
    &&& e.scheduled_at is None
    &&& e.timezone is None
    &&& e.channel is None
    &&& e.status matches Some(s) && s@ == status
}

pub open spec fn created(r: Result<Response, AppError>) -> Option<Result<CreateResult, AppError>> {
    match r {
        Ok(Response::Created(c)) => Some(Ok(c)),
        Err(e) => Some(Err(e)),
        _ => None,
    }
}

pub open spec fn changed(r: Result<Response, AppError>) -> Option<Result<ChangeResult, AppError>> {
    match r {
        Ok(Response::Changed(c)) => Some(Ok(c)),
        Err(e) => Some(Err(e)),
        _ => None,
    }
}

pub open spec fn transitioned(r: Result<Response, AppError>) -> Option<Result<TransitionResult, AppError>> {
    match r {
        Ok(Response::Transitioned(c)) => Some(Ok(c)),
        Err(e) => Some(Err(e)),
        _ => None,
    }
}

pub open spec fn listed(r: Result<Response, AppError>) -> Option<Result<ListResult, AppError>> {
    match r {
        Ok(Response::Listed(c)) => Some(Ok(c)),
        Err(e) => Some(Err(e)),
        _ => None,
    }
}

pub open spec fn detailed(r: Result<Response, AppError>) -> Option<Result<TaskDetail, AppError>> {
    match r {
        Ok(Response::Detail(c)) => Some(Ok(c)),
        Err(e) => Some(Err(e)),
        _ => None,
    }
}

pub open spec fn histories(r: Result<Response, AppError>) -> Option<Result<Vec<HistoryEntry>, AppError>> {
    match r {
        Ok(Response::History(c)) => Some(Ok(c)),
        Err(e) => Some(Err(e)),
        _ => None,
    }
}

pub open spec fn reminder_changed(r: Result<Response, AppError>) -> Option<Result<ReminderResult, AppError>> {
    match r {
        Ok(Response::ReminderChanged(c)) => Some(Ok(c)),
        Err(e) => Some(Err(e)),
        _ => None,
    }
}

pub open spec fn reminder_listed(r: Result<Response, AppError>) -> Option<Result<Vec<Reminder>, AppError>> {
    match r {
        Ok(Response::Reminders(c)) => Some(Ok(c)),
        Err(e) => Some(Err(e)),
        _ => None,
    }
}

pub open spec fn reminder_removed(r: Result<Response, AppError>) -> Option<Result<Reminder, AppError>> {
    match r {
        Ok(Response::ReminderRemoved(c)) => Some(Ok(c)),
        Err(e) => Some(Err(e)),
        _ => None,
    }
}

/// The store operation that a transition command runs.
pub open spec fn transition_ran(s: StoreV, s2: StoreV, id: Seq<char>, t: Transition, r: Result<Response, AppError>) -> bool {
    transitioned(r) matches Some(x) && exists|at: Seq<char>|
        utc_time_text(at) && (s2, transition_view(x)) == transition_spec(s, id, t, at)
}

pub open spec fn reminder_ran(s: StoreV, s2: StoreV, c: ReminderCommand, r: Result<Response, AppError>) -> bool {
    match c {
        ReminderCommand::Add { task, external_id, at, timezone, channel, status } => reminder_changed(r) matches Some(x)
            && exists|id: Seq<char>, now: Seq<char>|
            uuid_v4_text(id) && utc_time_text(now) && (s2, reminder_result_view(x)) == add_reminder_spec(
                s,
                task@,
                AddReminder { external_id, scheduled_at: at, timezone, channel, status },
                id,
                now,
            ),
        ReminderCommand::List { task } => s2 == s && (reminder_listed(r) matches Some(x) && reminder_list_ok(x, s, task@)),
        ReminderCommand::Edit { reminder, external_id, at, timezone, channel, status } => reminder_changed(r) matches Some(x)
            && exists|now: Seq<char>|
            utc_time_text(now) && (s2, reminder_result_view(x)) == edit_reminder_spec(
                s,
                reminder@,
                EditReminder { external_id, scheduled_at: at, timezone, channel, status },
                now,
            ),
        ReminderCommand::Fired { reminder } => reminder_changed(r) matches Some(x) && exists|
            e: EditReminder,
            now: Seq<char>,
        | status_request(e, "fired"@) && utc_time_text(now) && (s2, reminder_result_view(x)) == edit_reminder_spec(s, reminder@, e, now),
        ReminderCommand::Cancel { reminder } => reminder_changed(r) matches Some(x) && exists|
            e: EditReminder,
            now: Seq<char>,
        | status_request(e, "cancelled"@) && utc_time_text(now) && (s2, reminder_result_view(x)) == edit_reminder_spec(s, reminder@, e, now),
        ReminderCommand::Remove { reminder } => reminder_removed(r) matches Some(x) && exists|now: Seq<char>|
            utc_time_text(now) && (s2, removed_view(x)) == remove_reminder_spec(s, reminder@, now),
    }
}

/// Running command `c` took the store from `s` to `s2` and answered `r`: the
/// store operation it names, on the inputs it carries, at some time (and with
/// some fresh id where one is made).
pub open spec fn dispatched(s: StoreV, s2: StoreV, c: Command, r: Result<Response, AppError>) -> bool {
    match c {
        Command::Create(a) => created(r) matches Some(x) && exists|id: Seq<char>, at: Seq<char>|
            uuid_v4_text(id) && utc_time_text(at) && (s2, create_view(x)) == create_spec(s, create_input(a), id, at),
        Command::Edit(a) => changed(r) matches Some(x) && exists|e: EditTask, at: Seq<char>|
            edit_request(a, e) && utc_time_text(at) && (s2, change_view(x)) == edit_spec(s, a.id@, e, at),
        Command::Parent(a) => changed(r) matches Some(x) && exists|at: Seq<char>|
            utc_time_text(at) && (s2, change_view(x)) == set_parent_spec(s, a.id@, opt_view(a.choice.parent), at),
        Command::Start(a) => transition_ran(s, s2, a.id@, Transition::Start, r),
        Command::Block { id, reason } => transition_ran(s, s2, id@, Transition::Block { reason }, r),
        Command::Done { id, cascade } => transition_ran(s, s2, id@, Transition::Done { cascade }, r),
        Command::Cancel { id, reason, cascade } => transition_ran(
            s,
            s2,
            id@,
            Transition::Cancel { reason, cascade },
            r,
        ),
        Command::Reopen(a) => transition_ran(s, s2, a.id@, Transition::Reopen, r),
        Command::Note { id, text } => changed(r) matches Some(x) && exists|at: Seq<char>|
            utc_time_text(at) && (s2, change_view(x)) == note_spec(s, id@, text@, at),
        Command::List(a) => s2 == s && (listed(r) matches Some(x) && list_view_ok(
            x,
            s,
            ListFilter {
                all: a.all,
                category: a.category,
                project: a.project,
                statuses: a.statuses,
                search: a.search,
            },
        )),
        Command::Show(a) => s2 == s && (detailed(r) matches Some(x) && show_ok(x, s, a.id@)),
        Command::History(a) => s2 == s && (histories(r) matches Some(x) && history_ok(x, s, a.id@)),
        Command::Reminder { command } => reminder_ran(s, s2, command, r),
    }
}

fn transition_command(store: &mut Store, id: String, t: Transition) -> (r: Result<Response, AppError>)
    requires
        old(store)@.wf(),
    ensures
        final(store)@.wf(),
        transition_ran(old(store)@, final(store)@, id@, t, r),
{
    match store.transition(id.as_str(), t) {
        Ok(c) => Ok(Response::Transitioned(c)),
        Err(e) => Err(e),
    }
}

fn reminder_command(store: &mut Store, command: ReminderCommand) -> (r: Result<Response, AppError>)
    requires
        old(store)@.wf(),
    ensures
        final(store)@.wf(),
        reminder_ran(old(store)@, final(store)@, command, r),
{
    match command {
        ReminderCommand::Add { task, external_id, at, timezone, channel, status } => {
            let input = AddReminder { external_id, scheduled_at: at, timezone, channel, status };
            match store.add_reminder(task.as_str(), input) {
                Ok(c) => Ok(Response::ReminderChanged(c)),
                Err(e) => Err(e),
            }
        },
        ReminderCommand::List { task } => match store.list_reminders(task.as_str()) {
            Ok(c) => Ok(Response::Reminders(c)),
            Err(e) => Err(e),
        },
        ReminderCommand::Edit { reminder, external_id, at, timezone, channel, status } => {
            let input = EditReminder { external_id, scheduled_at: at, timezone, channel, status };
            match store.edit_reminder(reminder.as_str(), input) {
                Ok(c) => Ok(Response::ReminderChanged(c)),
                Err(e) => Err(e),
            }
        },
        ReminderCommand::Fired { reminder } => {
            let input = EditReminder {
                external_id: None,
                scheduled_at: None,
                timezone: None,
                channel: None,
                status: Some("fired".to_owned()),
            };
            assert(status_request(input, "fired"@));
            match store.edit_reminder(reminder.as_str(), input) {
                Ok(c) => Ok(Response::ReminderChanged(c)),
                Err(e) => Err(e),
            }
        },
        ReminderCommand::Cancel { reminder } => {
            let input = EditReminder {
                external_id: None,
                scheduled_at: None,
                timezone: None,
                channel: None,
                status: Some("cancelled".to_owned()),
            };
            assert(status_request(input, "cancelled"@));
            match store.edit_reminder(reminder.as_str(), input) {
                Ok(c) => Ok(Response::ReminderChanged(c)),
                Err(e) => Err(e),
            }
        },
        ReminderCommand::Remove { reminder } => match store.remove_reminder(reminder.as_str()) {
            Ok(c) => Ok(Response::ReminderRemoved(c)),
            Err(e) => Err(e),
        },
    }
}

/// Runs one command against the store.
pub fn dispatch(store: &mut Store, command: Command) -> (r: Result<Response, AppError>)
    requires
        old(store)@.wf(),
    ensures
        final(store)@.wf(),
        dispatched(old(store)@, final(store)@, command, r),
{
    match command {
        Command::Create(args) => {
            let input = CreateTask {
                title: args.title,
                category: args.category,
                description: args.description,
                project: args.project,
                parent_id: args.parent,
                sources: args.sources,
                creation_token: args.creation_token,
            };
            match store.create(input) {
                Ok(c) => Ok(Response::Created(c)),
                Err(e) => Err(e),
            }
        },
        Command::Edit(args) => {
            let sources = if args.clear_sources {
                Some(Vec::new())
            } else if args.sources.len() == 0 {
                None
            } else {
                Some(args.sources)
            };
            let input = EditTask {
                title: args.title,
                category: args.category,
                description: optional_edit(args.description, args.clear_description),
                project: optional_edit(args.project, args.clear_project),
                sources,
            };
            match store.edit(args.id.as_str(), input) {
                Ok(c) => Ok(Response::Changed(c)),
                Err(e) => Err(e),
            }
        },
        Command::Parent(args) => {
            let parent = match &args.choice.parent {
                Some(p) => Some(p.as_str()),
                None => None,
            };
            match store.set_parent(args.id.as_str(), parent) {
                Ok(c) => Ok(Response::Changed(c)),
                Err(e) => Err(e),
            }
        },
        Command::Start(args) => transition_command(store, args.id, Transition::Start),
        Command::Block { id, reason } => transition_command(store, id, Transition::Block { reason }),
        Command::Done { id, cascade } => transition_command(store, id, Transition::Done { cascade }),
        Command::Cancel { id, reason, cascade } => transition_command(
            store,
            id,
            Transition::Cancel { reason, cascade },
        ),
        Command::Reopen(args) => transition_command(store, args.id, Transition::Reopen),
        Command::Note { id, text } => match store.note(id.as_str(), text.as_str()) {
            Ok(c) => Ok(Response::Changed(c)),
            Err(e) => Err(e),
        },
        Command::List(args) => {
            let filter = ListFilter {
                all: args.all,
                category: args.category,
                project: args.project,
                statuses: args.statuses,
                search: args.search,
            };
            match store.list(filter) {
                Ok(c) => Ok(Response::Listed(c)),
                Err(e) => Err(e),
            }
        },
        Command::Show(args) => match store.show(args.id.as_str()) {
            Ok(c) => Ok(Response::Detail(c)),
            Err(e) => Err(e),
        },
        Command::History(args) => match store.history(args.id.as_str()) {
            Ok(c) => Ok(Response::History(c)),
            Err(e) => Err(e),
        },
        Command::Reminder { command } => reminder_command(store, command),
    }
}

/// Whether option `name` of command `node` takes a value, and whether that
/// value may start with `-`; `--db` belongs to every command.
pub open spec fn value_option(node: int, name: Seq<char>) -> (bool, bool) {
    let ds = defs(node);
    let k = find_def(ds, name, 0);
    if name == "db"@ {
        (true, true)
    } else if k >= 0 {
        (ds[k].value, ds[k].hyphen)
    } else {
        (false, false)
    }
}

pub open spec fn starts_dash(t: Seq<char>) -> bool {
    t.len() > 0 && t[0] == '-'
}

/// Whether `--json` occurs from argument `i` on as an option of its own:
/// not after `--`, not as the value of an option that takes one, and not
/// inside `--name=value`.  Subcommand words are followed so that each option
/// is looked up in the command it belongs to.
pub open spec fn asks_json(args: Seq<Seq<char>>, i: int, node: int) -> bool
    decreases args.len() + 2 - i,
{
    if i < 0 || i >= args.len() {
        false
    } else {
        let a = args[i];
        if a == "--"@ {
            false
        } else if a == "--json"@ {
            true
        } else if a.len() >= 2 && a[0] == '-' && a[1] == '-' {
            let name = a.skip(2);
            if find_char(name, '=', 0) >= 0 {
                asks_json(args, i + 1, node)
            } else {
                let (takes, hyphen) = value_option(node, name);
                if takes && i + 1 < args.len() && (hyphen || !starts_dash(args[i + 1])) {
                    asks_json(args, i + 2, node)
                } else {
                    asks_json(args, i + 1, node)
                }
            }
        } else if sub_of(node, a) >= 0 {
            asks_json(args, i + 1, sub_of(node, a))
        } else {
            asks_json(args, i + 1, node)
        }
    }
}

/// Whether an argument list asks for JSON output, read without parsing it
/// fully, so that help and parse errors can honour a trailing `--json`.
pub fn requests_json(args: &Vec<String>) -> (r: bool)
    ensures
        r == asks_json(seq_view(args@), 1, 0),
{
    let ghost av = seq_view(args@);
    let mut node: usize = 0;
    let mut i: usize = 1;
    while i < args.len()
        invariant
            1 <= i,
            av == seq_view(args@),
            node < 20,
            asks_json(av, i as int, node as int) == asks_json(av, 1, 0),
        decreases args.len() - i,
    {
        let a = &args[i];
        assert(av[i as int] == a@);
        if text_eq(a.as_str(), "--") {
            return false;
        }
        if text_eq(a.as_str(), "--json") {
            return true;
        }
        let cs = to_chars(a.as_str());
        if cs.len() >= 2 && cs[0] == '-' && cs[1] == '-' {
            let mut e: usize = 2;
            while e < cs.len() && cs[e] != '='
                invariant
                    2 <= e <= cs@.len(),
                    find_char(cs@.skip(2), '=', 0) == find_char(cs@.skip(2), '=', e - 2),
                decreases cs.len() - e,
            {
                assert(cs@.skip(2)[e - 2] == cs@[e as int]);
                e = e + 1;
            }
            if e < cs.len() {
                assert(cs@.skip(2)[e - 2] == '=');
                i = i + 1;
            } else {
                let name = from_chars(&cs, 2, cs.len());
                assert(name@ =~= cs@.skip(2));
                let ds = defs_of(node);
                assert(defs(node as int).len() <= 8);
                let k = find_def_in(&ds, name.as_str());
                let (takes, hyphen) = if text_eq(name.as_str(), "db") {
                    (true, true)
                } else if k >= 0 {
                    (ds[k as usize].value, ds[k as usize].hyphen)
                } else {
                    (false, false)
                };
                assert(k >= 0 ==> ds@[k as int]@ == defs(node as int)[k as int]);
                if takes && args.len() - i > 1 && (hyphen || !starts_with_dash(args[i + 1].as_str())) {
                    assert(av[i + 1] == args@[i + 1]@);
                    i = i + 2;
                } else {
                    if args.len() - i > 1 {
                        assert(av[i + 1] == args@[i + 1]@);
                    }
                    i = i + 1;
                }
            }
        } else {
            let n = sub_command(node, a.as_str());
            if n >= 0 {
                node = n as usize;
            }
            i = i + 1;
        }
    }
    false
}

fn starts_with_dash(t: &str) -> (r: bool)
    ensures
        r == starts_dash(t@),
{
    let cs = to_chars(t);
    cs.len() > 0 && cs[0] == '-'
}

/// No command has two options of one name, nor an option named like a
/// global one.
pub open spec fn consistent() -> bool {
    forall|n: int|
        0 <= n < 20 ==> {
            let ds = #[trigger] defs(n);
            &&& forall|a: int, b: int| 0 <= a < b < ds.len() ==> ds[a].name != ds[b].name
            &&& forall|a: int|
                0 <= a < ds.len() ==> ds[a].name != "db"@ && ds[a].name != "json"@ && ds[a].name
                    != "help"@ && ds[a].name != "version"@
        }
}

/// The command-line grammar as a whole.
#[derive(Debug)]
pub struct Grammar {
    pub commands: usize,
}

impl Cli {
    /// The grammar that `try_parse_from` reads.
    pub fn command() -> (r: Grammar)
        ensures
            r.commands == 20,
    {
        Grammar { commands: 20 }
    }
}

impl Grammar {
    /// Checks the grammar for internal consistency.
    pub fn debug_assert(&self) -> (r: bool)
        ensures
            r == consistent(),
    {
        let mut n: usize = 0;
        while n < 20
            invariant
                n <= 20,
                forall|m: int|
                    0 <= m < n ==> {
                        let ds = #[trigger] defs(m);
                        &&& forall|a: int, b: int| 0 <= a < b < ds.len() ==> ds[a].name != ds[b].name
                        &&& forall|a: int|
                            0 <= a < ds.len() ==> ds[a].name != "db"@ && ds[a].name != "json"@
                                && ds[a].name != "help"@ && ds[a].name != "version"@
                    },
            decreases 20 - n,
        {
            let ds = defs_of(n);
            let ghost dv = defs(n as int);
            let mut a: usize = 0;
            while a < ds.len()
                invariant
                    a <= ds@.len(),
                    n < 20,
                    dv == defs(n as int),
                    defs_view(ds@) == dv,
                    forall|x: int, y: int| 0 <= x < y < ds@.len() && x < a ==> dv[x].name != dv[y].name,
                    forall|x: int|
                        0 <= x < a ==> dv[x].name != "db"@ && dv[x].name != "json"@ && dv[x].name
                            != "help"@ && dv[x].name != "version"@,
                decreases ds.len() - a,
            {
                assert(ds@[a as int]@ == dv[a as int]);
                let name = ds[a].name;
                if text_eq(name, "db") || text_eq(name, "json") || text_eq(name, "help") || text_eq(
                    name,
                    "version",
                ) {
                    proof {
                        if consistent() {
                            let ds2 = defs(n as int);
                            assert(ds2[a as int].name != "db"@ && ds2[a as int].name != "json"@
                                && ds2[a as int].name != "help"@ && ds2[a as int].name != "version"@);
                        }
                    }
                    return false;
                }
                let mut b: usize = a + 1;
                while b < ds.len()
                    invariant
                        a < b <= ds@.len(),
                        n < 20,
                        dv == defs(n as int),
                        defs_view(ds@) == dv,
                        forall|y: int| a < y < b ==> dv[a as int].name != #[trigger] dv[y].name,
                    decreases ds.len() - b,
                {
                    assert(ds@[b as int]@ == dv[b as int]);
                    if text_eq(ds[a].name, ds[b].name) {
                        proof {
                            if consistent() {
                                let ds2 = defs(n as int);
                                assert(ds2[a as int].name != ds2[b as int].name);
                            }
                        }
                        return false;
                    }
                    b = b + 1;
                }
                a = a + 1;
            }
            n = n + 1;
        }
        true
    }
}

/// What one invocation does before any storage is touched.
#[derive(Debug)]
pub enum Plan {
    /// Show this response (help or version) without opening the store.
    Show { response: Response, json: bool },
    /// Report an argument error of this kind; the invocation fails with status 2.
    Refuse { kind: ArgErrorKind, json: bool },
    /// Open the store and run the command.
    Run { db: Option<String>, json: bool, command: Command },
}

/// The plan for an argument list: help and version are answered directly,
/// honouring a `--json` anywhere in the list; other refusals are argument
/// errors; no command shows the program's help; otherwise the command runs.
pub open spec fn planned(args: Seq<Seq<char>>, p: Plan) -> bool {
    let asked = asks_json(args, 1, 0);
    match scanned(args) {
        Err((k, n)) => if k == ArgErrorKind::DisplayHelp {
            p matches Plan::Show { response: Response::Help(t), json } && t@ == help_spec(n)
                && json == asked
        } else if k == ArgErrorKind::DisplayVersion {
            p matches Plan::Show { response: Response::Version(t), json } && t@ == VERSION_TEXT@
                && json == asked
        } else {
            p matches Plan::Refuse { kind, json } && kind == k && json == asked
        },
        Ok(st) => if st.node == 0 {
            p matches Plan::Show { response: Response::Help(t), json } && t@ == help_spec(0)
                && json == st.json
        } else {
            match check(st) {
                Some(k) => p matches Plan::Refuse { kind, json } && kind == k && json == asked,
                None => p matches Plan::Run { db, json, command } && opt_view(db) == st.db && json
                    == st.json && built(st, command),
            }
        },
    }
}

/// Decides what an invocation with these arguments does.
pub fn plan(args: &Vec<String>) -> (p: Plan)
    ensures
        planned(seq_view(args@), p),
{
    let json_requested = requests_json(args);
    match Cli::try_parse_from(args) {
        Err(error) => {
            let kind = error.kind;
            match error.text {
                Some(t) => if kind == ArgErrorKind::DisplayHelp {
                    Plan::Show { response: Response::Help(t), json: json_requested }
                } else {
                    Plan::Show { response: Response::Version(t), json: json_requested }
                },
                None => Plan::Refuse { kind, json: json_requested },
            }
        },
        Ok(cli) => match cli.command {
            None => Plan::Show { response: Response::Help(help_text(0).to_owned()), json: cli.json },
            Some(command) => Plan::Run { db: cli.db, json: cli.json, command },
        },
    }
}

} // verus!
