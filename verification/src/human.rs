//! Human-readable output: one line per field, with untrusted text escaped so
//! that it cannot break lines or emit terminal controls.
use vstd::prelude::*;

use crate::model::{HistoryEntry, HistoryV, ListResult, ListSummary, Progress, Task, TaskV, TaskView};
use crate::output::Response;
use crate::reminders::{Reminder, ReminderV};
use crate::text::{
    decimal, hex, push_char, push_decimal, push_hex, push_i64, push_str, seq_view, signed_decimal,
    to_chars,
};

verus! {

/// A character shown escaped: a control character (`Cc`) or a bidirectional or
/// zero-width formatting character.
pub open spec fn must_escape(c: char) -> bool {
    let u = c as u32;
    u <= 0x1f || (0x7f <= u <= 0x9f) || u == 0x061c || (0x200b <= u <= 0x200f) || (0x2028 <= u
        <= 0x202e) || (0x2066 <= u <= 0x2069)
}

/// `char::escape_default` for the characters that `must_escape` selects.
pub open spec fn escaped(c: char) -> Seq<char> {
    if c == '\t' {
        seq!['\\', 't']
    } else if c == '\r' {
        seq!['\\', 'r']
    } else if c == '\n' {
        seq!['\\', 'n']
    } else {
        seq!['\\', 'u', '{'] + hex(c as u32 as nat) + seq!['}']
    }
}

pub open spec fn shown_char(c: char) -> Seq<char> {
    if must_escape(c) {
        escaped(c)
    } else {
        seq![c]
    }
}

/// The text with every character that `must_escape` selects escaped.
pub open spec fn human(s: Seq<char>) -> Seq<char>
    decreases s.len(),
{
    if s.len() == 0 {
        Seq::empty()
    } else {
        human(s.drop_last()) + shown_char(s.last())
    }
}

fn needs_escape(c: char) -> (r: bool)
    ensures
        r == must_escape(c),
{
    let u = c as u32;
    u <= 0x1f || (0x7f <= u && u <= 0x9f) || u == 0x061c || (0x200b <= u && u <= 0x200f) || (0x2028
        <= u && u <= 0x202e) || (0x2066 <= u && u <= 0x2069)
}

/// Appends `cs[lo..hi]` with controls escaped.
fn push_human_range(out: &mut String, cs: &Vec<char>, lo: usize, hi: usize)
    requires
        lo <= hi <= cs@.len(),
    ensures
        final(out)@ == old(out)@ + human(cs@.subrange(lo as int, hi as int)),
{
    let mut i: usize = lo;
    assert(cs@.subrange(lo as int, lo as int) =~= Seq::<char>::empty());
    assert(old(out)@ + human(Seq::<char>::empty()) =~= old(out)@);
    while i < hi
        invariant
            lo <= i <= hi,
            hi <= cs@.len(),
            out@ == old(out)@ + human(cs@.subrange(lo as int, i as int)),
        decreases hi - i,
    {
        let c = cs[i];
        let ghost before = out@;
        if needs_escape(c) {
            if c == '\t' {
                push_str(out, "\\t");
            } else if c == '\r' {
                push_str(out, "\\r");
            } else if c == '\n' {
                push_str(out, "\\n");
            } else {
                push_str(out, "\\u{");
                push_hex(out, c as u32);
                push_char(out, '}');
            }
        } else {
            push_char(out, c);
        }
        proof {
            reveal_strlit("\\t");
            reveal_strlit("\\r");
            reveal_strlit("\\n");
            reveal_strlit("\\u{");
            assert(cs@.subrange(lo as int, i + 1).drop_last() =~= cs@.subrange(lo as int, i as int));
            assert(cs@.subrange(lo as int, i + 1).last() == c);
            assert(out@ =~= before + shown_char(c));
        }
        i = i + 1;
    }
}

/// Appends `value` with controls escaped.
pub fn push_human(out: &mut String, value: &str)
    ensures
        final(out)@ == old(out)@ + human(value@),
{
    let cs = to_chars(value);
    push_human_range(out, &cs, 0, cs.len());
    assert(cs@.subrange(0, cs@.len() as int) =~= value@);
}

/// Keeps untrusted stored text on one display line: controls become escapes.
pub fn human_text(value: &str) -> (r: String)
    ensures
        r@ == human(value@),
{
    let mut out = String::new();
    push_human(&mut out, value);
    out
}

/// `(none)`, or the escaped value.
pub open spec fn optional_text(o: Option<Seq<char>>) -> Seq<char> {
    match o {
        Some(v) => human(v),
        None => "(none)"@,
    }
}

/// The escaped value, or `(none)`.
pub fn optional(value: Option<&str>) -> (r: String)
    ensures
        r@ == optional_text(match value {
            Some(v) => Some(v@),
            None => None,
        }),
{
    match value {
        Some(v) => human_text(v),
        None => "(none)".to_owned(),
    }
}

pub open spec fn nl() -> Seq<char> {
    seq!['\n']
}

pub open spec fn progress_line(p: Progress) -> Seq<char> {
    "Direct children: done="@ + decimal(p.done as nat) + ", cancelled="@ + decimal(p.cancelled as nat)
        + ", total="@ + decimal(p.total as nat) + nl()
}

/// Appends the direct-child progress line.
pub fn render_progress(text: &mut String, progress: &Progress)
    ensures
        final(text)@ == old(text)@ + progress_line(*progress),
{
    push_str(text, "Direct children: done=");
    push_decimal(text, progress.done);
    push_str(text, ", cancelled=");
    push_decimal(text, progress.cancelled);
    push_str(text, ", total=");
    push_decimal(text, progress.total);
    push_char(text, '\n');
    assert(text@ =~= old(text)@ + progress_line(*progress));
}

/// `{indent}{name}: {value}` with the value escaped, and a line break.
pub open spec fn field_line(indent: Seq<char>, name: Seq<char>, value: Seq<char>) -> Seq<char> {
    indent + name + ": "@ + human(value) + nl()
}

fn push_field(text: &mut String, indent: &str, name: &str, value: &str)
    ensures
        final(text)@ == old(text)@ + field_line(indent@, name@, value@),
{
    push_str(text, indent);
    push_str(text, name);
    push_str(text, ": ");
    push_human(text, value);
    push_char(text, '\n');
    assert(text@ =~= old(text)@ + field_line(indent@, name@, value@));
}

/// The nine lines of a reminder association.
pub open spec fn reminder_lines(r: ReminderV, indent: Seq<char>) -> Seq<char> {
    field_line(indent, "ID"@, r.id) + field_line(indent, "Task"@, r.task_id) + field_line(
        indent,
        "External ID"@,
        r.external_id,
    ) + field_line(indent, "Scheduled at"@, r.scheduled_at) + field_line(
        indent,
        "Timezone"@,
        r.timezone,
    ) + field_line(indent, "Channel"@, r.channel) + field_line(indent, "Status"@, r.status)
        + field_line(indent, "Created at"@, r.created_at) + field_line(
        indent,
        "Updated at"@,
        r.updated_at,
    )
}

/// Appends every field of a reminder association, one per line.
pub fn render_reminder(text: &mut String, reminder: &Reminder, indent: &str)
    ensures
        final(text)@ == old(text)@ + reminder_lines(reminder@, indent@),
{
    push_field(text, indent, "ID", reminder.id.as_str());
    push_field(text, indent, "Task", reminder.task_id.as_str());
    push_field(text, indent, "External ID", reminder.external_id.as_str());
    push_field(text, indent, "Scheduled at", reminder.scheduled_at.as_str());
    push_field(text, indent, "Timezone", reminder.timezone.as_str());
    push_field(text, indent, "Channel", reminder.channel.as_str());
    push_field(text, indent, "Status", reminder.status.as_str());
    push_field(text, indent, "Created at", reminder.created_at.as_str());
    push_field(text, indent, "Updated at", reminder.updated_at.as_str());
    assert(text@ =~= old(text)@ + reminder_lines(reminder@, indent@));
}

/// `{name}: {value or (none)}` and a line break.
pub open spec fn opt_line(name: Seq<char>, value: Option<Seq<char>>) -> Seq<char> {
    name + ": "@ + optional_text(value) + nl()
}

fn push_opt(text: &mut String, name: &str, value: &Option<String>)
    ensures
        final(text)@ == old(text)@ + opt_line(name@, crate::text::opt_view(*value)),
{
    push_str(text, name);
    push_str(text, ": ");
    let v = optional(match value {
        Some(x) => Some(x.as_str()),
        None => None,
    });
    push_str(text, v.as_str());
    push_char(text, '\n');
    assert(text@ =~= old(text)@ + opt_line(name@, crate::text::opt_view(*value)));
}

/// The source lines of a task: each reference indented by two spaces.
pub open spec fn source_lines(s: Seq<Seq<char>>) -> Seq<char>
    decreases s.len(),
{
    if s.len() == 0 {
        Seq::empty()
    } else {
        source_lines(s.drop_last()) + "  "@ + human(s.last()) + nl()
    }
}

pub open spec fn task_lines_a(t: TaskV) -> Seq<char> {
    field_line(""@, "ID"@, t.id) + field_line(""@, "Title"@, t.title) + opt_line(
        "Description"@,
        t.description,
    ) + field_line(""@, "Status"@, t.status) + field_line(""@, "Category"@, t.category) + opt_line(
        "Project"@,
        t.project,
    ) + opt_line("Parent"@, t.parent_id)
}

pub open spec fn task_lines_b(t: TaskV) -> Seq<char> {
    opt_line("Blocked reason"@, t.blocked_reason) + opt_line("Cancel reason"@, t.cancel_reason)
        + field_line(""@, "Created at"@, t.created_at) + field_line(""@, "Updated at"@, t.updated_at)
        + opt_line("Closed at"@, t.closed_at) + opt_line("Creation token"@, t.creation_token)
}

pub open spec fn task_lines_c(t: TaskV) -> Seq<char> {
    "Sources: "@ + decimal(t.sources.len()) + nl() + source_lines(t.sources)
}

/// Every field of a task, one per line.
pub open spec fn task_lines(t: TaskV) -> Seq<char> {
    task_lines_a(t) + task_lines_b(t) + task_lines_c(t)
}

fn render_task_a(text: &mut String, task: &Task)
    ensures
        final(text)@ == old(text)@ + task_lines_a(task@),
{
    let ghost t0 = text@;
    push_field(text, "", "ID", task.id.as_str());
    push_field(text, "", "Title", task.title.as_str());
    push_opt(text, "Description", &task.description);
    push_field(text, "", "Status", task.status.as_str());
    push_field(text, "", "Category", task.category.as_str());
    push_opt(text, "Project", &task.project);
    push_opt(text, "Parent", &task.parent_id);
    assert(text@ =~= t0 + task_lines_a(task@));
}

fn render_task_b(text: &mut String, task: &Task)
    ensures
        final(text)@ == old(text)@ + task_lines_b(task@),
{
    let ghost t0 = text@;
    push_opt(text, "Blocked reason", &task.blocked_reason);
    push_opt(text, "Cancel reason", &task.cancel_reason);
    push_field(text, "", "Created at", task.created_at.as_str());
    push_field(text, "", "Updated at", task.updated_at.as_str());
    push_opt(text, "Closed at", &task.closed_at);
    push_opt(text, "Creation token", &task.creation_token);
    assert(text@ =~= t0 + task_lines_b(task@));
}

/// Appends every field of a task, one per line.
pub fn render_task(text: &mut String, task: &Task)
    ensures
        final(text)@ == old(text)@ + task_lines(task@),
{
    render_task_a(text, task);
    render_task_b(text, task);
    let ghost t1 = text@;
    push_str(text, "Sources: ");
    push_decimal(text, task.sources.len());
    push_char(text, '\n');
    let ghost head = text@;
    let ghost sv = crate::text::seq_view(task.sources@);
    let mut i: usize = 0;
    assert(sv.take(0) =~= Seq::<Seq<char>>::empty());
    assert(head + source_lines(Seq::<Seq<char>>::empty()) =~= head);
    while i < task.sources.len()
        invariant
            i <= task.sources@.len(),
            sv == crate::text::seq_view(task.sources@),
            text@ == head + source_lines(sv.take(i as int)),
        decreases task.sources.len() - i,
    {
        push_str(text, "  ");
        push_human(text, task.sources[i].as_str());
        push_char(text, '\n');
        proof {
            assert(sv.take(i + 1).drop_last() =~= sv.take(i as int));
            assert(sv.take(i + 1).last() == task.sources@[i as int]@);
            assert(text@ =~= head + source_lines(sv.take(i + 1)));
        }
        i = i + 1;
    }
    assert(sv.take(task.sources@.len() as int) =~= sv);
    assert(text@ =~= t1 + task_lines_c(task@));
    assert(text@ =~= old(text)@ + task_lines(task@));
}

/// `{action}: {id} [{status}] {title}` and a line break.
pub open spec fn change_line(action: Seq<char>, t: TaskV) -> Seq<char> {
    action + ": "@ + human(t.id) + " ["@ + human(t.status) + "] "@ + human(t.title) + nl()
}

/// Appends the one-line summary of a changed task.
pub fn render_change(text: &mut String, action: &str, task: &Task)
    ensures
        final(text)@ == old(text)@ + change_line(action@, task@),
{
    push_str(text, action);
    push_str(text, ": ");
    push_human(text, task.id.as_str());
    push_str(text, " [");
    push_human(text, task.status.as_str());
    push_str(text, "] ");
    push_human(text, task.title.as_str());
    push_char(text, '\n');
    assert(text@ =~= old(text)@ + change_line(action@, task@));
}

/// The last position in `vs` whose task has id `id` among the first `n`, or -1.
pub open spec fn slot_upto(vs: Seq<TaskView>, id: Seq<char>, n: int) -> int
    decreases n,
{
    if n <= 0 {
        -1
    } else if vs[n - 1].task@.id == id {
        n - 1
    } else {
        slot_upto(vs, id, n - 1)
    }
}

/// The position of the listed parent of entry `j`, or -1 (a root).
pub open spec fn parent_slot(vs: Seq<TaskView>, j: int) -> int {
    match vs[j].task@.parent_id {
        Some(p) => slot_upto(vs, p, vs.len() as int),
        None => -1,
    }
}

/// Entries whose listed parent is at `k`, in list order.
pub open spec fn kids(pp: Seq<int>, k: int) -> Seq<int> {
    Seq::new(pp.len(), |j: int| j).filter(is_kid(pp, k))
}

pub open spec fn is_kid(pp: Seq<int>, k: int) -> spec_fn(int) -> bool {
    |j: int| pp[j] == k
}

pub open spec fn is_root(pp: Seq<int>) -> spec_fn(int) -> bool {
    |j: int| pp[j] < 0
}

/// Entries without a listed parent, in list order.
pub open spec fn roots(pp: Seq<int>) -> Seq<int> {
    Seq::new(pp.len(), |j: int| j).filter(is_root(pp))
}

/// The tree drawing before an entry: `flags[p]` tells whether the ancestor at
/// depth `p + 1` (the entry itself for the last one) is the last sibling.
pub open spec fn prefix(flags: Seq<bool>) -> Seq<char>
    decreases flags.len(),
{
    if flags.len() == 0 {
        Seq::empty()
    } else {
        prefix_inner(flags.drop_last()) + if flags.last() {
            "└── "@
        } else {
            "├── "@
        }
    }
}

pub open spec fn prefix_inner(flags: Seq<bool>) -> Seq<char>
    decreases flags.len(),
{
    if flags.len() == 0 {
        Seq::empty()
    } else {
        prefix_inner(flags.drop_last()) + if flags.last() {
            "    "@
        } else {
            "│   "@
        }
    }
}

pub open spec fn entry_main(v: TaskView) -> Seq<char> {
    "["@ + human(v.task@.status) + "] "@ + human(v.task@.title) + " ("@ + human(v.task@.id)
        + ") category="@ + human(v.task@.category)
}

pub open spec fn entry_project(v: TaskView) -> Seq<char> {
    match v.task@.project {
        Some(p) => " project="@ + human(p),
        None => Seq::empty(),
    }
}

pub open spec fn entry_context(v: TaskView) -> Seq<char> {
    if v.context_only {
        " [context only]"@
    } else {
        Seq::empty()
    }
}

pub open spec fn entry_progress(v: TaskView) -> Seq<char> {
    if v.progress.total > 0 {
        " [direct children: done="@ + decimal(v.progress.done as nat) + ", cancelled="@ + decimal(
            v.progress.cancelled as nat,
        ) + ", total="@ + decimal(v.progress.total as nat) + "]"@
    } else {
        Seq::empty()
    }
}

pub open spec fn entry_tail(v: TaskView) -> Seq<char> {
    entry_project(v) + entry_context(v) + entry_progress(v) + nl()
}

/// One entry's line after its tree drawing.
pub open spec fn entry_text(v: TaskView) -> Seq<char> {
    entry_main(v) + entry_tail(v)
}

/// The lines of entry `k` and, depth first, of everything below it.
pub open spec fn rows(vs: Seq<TaskView>, pp: Seq<int>, k: int, flags: Seq<bool>, fuel: nat) -> Seq<char>
    decreases fuel, 0int,
{
    if fuel == 0 {
        Seq::empty()
    } else {
        prefix(flags) + entry_text(vs[k]) + kid_rows(vs, pp, kids(pp, k), kids(pp, k).len() as int, flags, (fuel - 1) as nat)
    }
}

/// The lines of the first `m` of the children `ks`.
pub open spec fn kid_rows(vs: Seq<TaskView>, pp: Seq<int>, ks: Seq<int>, m: int, flags: Seq<bool>, fuel: nat) -> Seq<char>
    decreases fuel, m + 1,
{
    if m <= 0 || m > ks.len() {
        Seq::empty()
    } else {
        kid_rows(vs, pp, ks, m - 1, flags, fuel) + rows(vs, pp, ks[m - 1], flags.push(m == ks.len()), fuel)
    }
}

/// The lines of the first `m` roots.
pub open spec fn root_rows(vs: Seq<TaskView>, pp: Seq<int>, rs: Seq<int>, m: int, fuel: nat) -> Seq<char>
    decreases m,
{
    if m <= 0 || m > rs.len() {
        Seq::empty()
    } else {
        root_rows(vs, pp, rs, m - 1, fuel) + rows(vs, pp, rs[m - 1], seq![], fuel)
    }
}

pub open spec fn summary_lines(s: ListSummary) -> Seq<char> {
    "Matched: "@ + decimal(s.matched as nat) + " (open: "@ + decimal(s.matched_open as nat) + ")"@ + nl()
        + "Open across database: top-level="@ + decimal(s.top_level_open as nat) + ", total="@ + decimal(
        s.total_open as nat,
    ) + nl()
}

pub open spec fn parent_slots(vs: Seq<TaskView>) -> Seq<int> {
    Seq::new(vs.len(), |j: int| parent_slot(vs, j))
}

/// The list as a tree: counts, then each root and, depth first, its
/// descendants in list order, each entry once.
pub open spec fn tree_text(r: ListResult) -> Seq<char> {
    let vs = r.tasks@;
    let pp = parent_slots(vs);
    summary_lines(r.summary) + if vs.len() == 0 {
        "No matching tasks.\n"@
    } else {
        root_rows(vs, pp, roots(pp), roots(pp).len() as int, (vs.len() + 1) as nat)
    }
}

fn entry_slot(vs: &Vec<TaskView>, id: &str) -> (r: i64)
    requires
        vs@.len() < i64::MAX,
    ensures
        r == slot_upto(vs@, id@, vs@.len() as int),
{
    let mut n: usize = vs.len();
    while n > 0
        invariant
            n <= vs@.len(),
            vs@.len() < i64::MAX,
            slot_upto(vs@, id@, vs@.len() as int) == slot_upto(vs@, id@, n as int),
        decreases n,
    {
        if crate::text::text_eq(vs[n - 1].task.id.as_str(), id) {
            return (n - 1) as i64;
        }
        n = n - 1;
    }
    -1
}

fn child_lists(pp: &Vec<i64>) -> (r: (Vec<Vec<usize>>, Vec<usize>))
    requires
        pp@.len() < i64::MAX,
        forall|j: int| 0 <= j < pp@.len() ==> -1 <= #[trigger] pp@[j] < pp@.len(),
    ensures
        r.0@.len() == pp@.len(),
        forall|k: int| 0 <= k < pp@.len() ==> usize_ints((#[trigger] r.0@[k])@) == kids(i64_ints(pp@), k),
        usize_ints(r.1@) == roots(i64_ints(pp@)),
        forall|k: int, q: int| 0 <= k < pp@.len() && 0 <= q < r.0@[k]@.len() ==> (#[trigger] r.0@[k]@[q]) < pp@.len(),
        forall|q: int| 0 <= q < r.1@.len() ==> #[trigger] r.1@[q] < pp@.len(),
{
    let n = pp.len();
    let ghost ip = i64_ints(pp@);
    let ghost all = Seq::new(n as nat, |j: int| j);
    let mut lists: Vec<Vec<usize>> = Vec::new();
    let mut k: usize = 0;
    while k < n
        invariant
            k <= n,
            n == pp@.len(),
            n < i64::MAX,
            ip == i64_ints(pp@),
            all == Seq::new(n as nat, |j: int| j),
            lists@.len() == k,
            forall|a: int| 0 <= a < k ==> usize_ints((#[trigger] lists@[a])@) == kids(ip, a),
            forall|a: int, q: int| 0 <= a < k && 0 <= q < lists@[a]@.len() ==> (#[trigger] lists@[a]@[q]) < n,
        decreases n - k,
    {
        let ghost p = is_kid(ip, k as int);
        let mut l: Vec<usize> = Vec::new();
        let mut j: usize = 0;
        while j < n
            invariant
                j <= n,
                k < n,
                n == pp@.len(),
                n < i64::MAX,
                ip == i64_ints(pp@),
                all == Seq::new(n as nat, |j: int| j),
                p == is_kid(ip, k as int),
                usize_ints(l@) == all.take(j as int).filter(p),
                forall|q: int| 0 <= q < l@.len() ==> #[trigger] l@[q] < n,
            decreases n - j,
        {
            proof {
                assert(all.take(j + 1) =~= all.take(j as int).push(j as int));
                all.take(j as int).lemma_filter_push(j as int, p);
            }
            assert(ip[j as int] == pp@[j as int] as int);
            assert(p(j as int) == (pp@[j as int] == k as i64));
            if pp[j] == k as i64 {
                l.push(j);
                assert(usize_ints(l@) =~= all.take(j as int).filter(p).push(j as int));
            } else {
                assert(all.take(j + 1).filter(p) == all.take(j as int).filter(p));
            }
            j = j + 1;
        }
        assert(all.take(n as int) =~= all);
        assert(usize_ints(l@) == kids(ip, k as int));
        let ghost old_lists = lists@;
        lists.push(l);
        proof {
            assert forall|a: int| 0 <= a < k + 1 implies usize_ints((#[trigger] lists@[a])@) == kids(ip, a) by {
                if a < k {
                    assert(lists@[a] == old_lists[a]);
                }
            }
        }
        k = k + 1;
    }
    let ghost p = is_root(ip);
    let mut rs: Vec<usize> = Vec::new();
    let mut j: usize = 0;
    while j < n
        invariant
            j <= n,
            n == pp@.len(),
            ip == i64_ints(pp@),
            all == Seq::new(n as nat, |j: int| j),
            p == is_root(ip),
            usize_ints(rs@) == all.take(j as int).filter(p),
            forall|q: int| 0 <= q < rs@.len() ==> #[trigger] rs@[q] < n,
        decreases n - j,
    {
        proof {
            assert(all.take(j + 1) =~= all.take(j as int).push(j as int));
            all.take(j as int).lemma_filter_push(j as int, p);
        }
        assert(ip[j as int] == pp@[j as int] as int);
        assert(p(j as int) == (pp@[j as int] < 0));
        if pp[j] < 0 {
            rs.push(j);
            assert(usize_ints(rs@) =~= all.take(j as int).filter(p).push(j as int));
        } else {
            assert(all.take(j + 1).filter(p) == all.take(j as int).filter(p));
        }
        j = j + 1;
    }
    assert(all.take(n as int) =~= all);
    (lists, rs)
}

pub open spec fn usize_ints(v: Seq<usize>) -> Seq<int> {
    v.map_values(|x: usize| x as int)
}

pub open spec fn i64_ints(v: Seq<i64>) -> Seq<int> {
    v.map_values(|x: i64| x as int)
}

fn push_prefix(text: &mut String, flags: &Vec<bool>)
    ensures
        final(text)@ == old(text)@ + prefix(flags@),
{
    let n = flags.len();
    if n == 0 {
        return;
    }
    let mut p: usize = 0;
    while p + 1 < n
        invariant
            n == flags@.len(),
            n > 0,
            p <= n - 1,
            text@ == old(text)@ + prefix_inner(flags@.take(p as int)),
        decreases n - p,
    {
        if flags[p] {
            push_str(text, "    ");
        } else {
            push_str(text, "│   ");
        }
        proof {
            assert(flags@.take(p + 1).drop_last() =~= flags@.take(p as int));
            assert(flags@.take(p + 1).last() == flags@[p as int]);
        }
        p = p + 1;
    }
    if flags[n - 1] {
        push_str(text, "└── ");
    } else {
        push_str(text, "├── ");
    }
    proof {
        assert(flags@.drop_last() =~= flags@.take((n - 1) as int));
        assert(old(text)@ + prefix_inner(flags@.take(p as int)) == old(text)@ + prefix_inner(flags@.drop_last()));
    }
    assert(text@ =~= old(text)@ + prefix(flags@));
}

fn push_entry_main(text: &mut String, v: &TaskView)
    ensures
        final(text)@ == old(text)@ + entry_main(*v),
{
    push_char(text, '[');
    push_human(text, v.task.status.as_str());
    push_str(text, "] ");
    push_human(text, v.task.title.as_str());
    push_str(text, " (");
    push_human(text, v.task.id.as_str());
    push_str(text, ") category=");
    push_human(text, v.task.category.as_str());
    proof {
        reveal_strlit("[");
    }
    assert(text@ =~= old(text)@ + entry_main(*v));
}

#[verifier::spinoff_prover]
#[verifier::rlimit(40)]
fn push_entry_tail(text: &mut String, v: &TaskView)
    ensures
        final(text)@ == old(text)@ + entry_tail(*v),
{
    let ghost t0 = text@;
    if let Some(p) = &v.task.project {
        push_str(text, " project=");
        push_human(text, p.as_str());
    }
    let ghost t1 = text@;
    assert(t1 =~= t0 + entry_project(*v));
    if v.context_only {
        push_str(text, " [context only]");
    }
    let ghost t2 = text@;
    assert(t2 =~= t1 + entry_context(*v));
    if v.progress.total > 0 {
        push_str(text, " [direct children: done=");
        push_decimal(text, v.progress.done);
        push_str(text, ", cancelled=");
        push_decimal(text, v.progress.cancelled);
        push_str(text, ", total=");
        push_decimal(text, v.progress.total);
        push_char(text, ']');
        proof {
            reveal_strlit("]");
        }
    }
    let ghost t3 = text@;
    assert(t3 =~= t2 + entry_progress(*v));
    push_char(text, '\n');
    assert(text@ =~= old(text)@ + entry_tail(*v));
}

fn push_entry(text: &mut String, v: &TaskView)
    ensures
        final(text)@ == old(text)@ + entry_text(*v),
{
    push_entry_main(text, v);
    push_entry_tail(text, v);
    assert(text@ =~= old(text)@ + entry_text(*v));
}

/// The tree drawing of a child: roots (no `base`) have none; other entries
/// extend their parent's drawing by whether they are the last child.
pub open spec fn child_flags(base: Option<Seq<bool>>, last: bool) -> Seq<bool> {
    match base {
        Some(b) => b.push(last),
        None => seq![],
    }
}

/// The lines of the entries `ks[i..]` and, depth first, of everything below
/// each of them.
pub open spec fn tail_rows(
    vs: Seq<TaskView>,
    pp: Seq<int>,
    ks: Seq<int>,
    i: int,
    base: Option<Seq<bool>>,
    fuel: nat,
) -> Seq<char>
    decreases ks.len() - i,
{
    if i < 0 || i >= ks.len() {
        Seq::empty()
    } else {
        rows(vs, pp, ks[i], child_flags(base, i == ks.len() - 1), fuel) + tail_rows(
            vs,
            pp,
            ks,
            i + 1,
            base,
            fuel,
        )
    }
}

proof fn lemma_kid_tail(vs: Seq<TaskView>, pp: Seq<int>, ks: Seq<int>, flags: Seq<bool>, fuel: nat, i: int)
    requires
        0 <= i <= ks.len(),
    ensures
        kid_rows(vs, pp, ks, ks.len() as int, flags, fuel) == kid_rows(vs, pp, ks, i, flags, fuel)
            + tail_rows(vs, pp, ks, i, Some(flags), fuel),
    decreases ks.len() - i,
{
    if i < ks.len() {
        lemma_kid_tail(vs, pp, ks, flags, fuel, i + 1);
        let r = rows(vs, pp, ks[i], flags.push(i + 1 == ks.len()), fuel);
        assert(kid_rows(vs, pp, ks, i + 1, flags, fuel) == kid_rows(vs, pp, ks, i, flags, fuel) + r);
        assert(tail_rows(vs, pp, ks, i, Some(flags), fuel) == r + tail_rows(vs, pp, ks, i + 1, Some(flags), fuel));
        assert(kid_rows(vs, pp, ks, i, flags, fuel) + r + tail_rows(vs, pp, ks, i + 1, Some(flags), fuel)
            =~= kid_rows(vs, pp, ks, i, flags, fuel) + (r + tail_rows(vs, pp, ks, i + 1, Some(flags), fuel)));
    } else {
        assert(kid_rows(vs, pp, ks, i, flags, fuel) + Seq::<char>::empty() =~= kid_rows(vs, pp, ks, i, flags, fuel));
    }
}

proof fn lemma_root_tail(vs: Seq<TaskView>, pp: Seq<int>, rs: Seq<int>, fuel: nat, i: int)
    requires
        0 <= i <= rs.len(),
    ensures
        root_rows(vs, pp, rs, rs.len() as int, fuel) == root_rows(vs, pp, rs, i, fuel) + tail_rows(
            vs,
            pp,
            rs,
            i,
            None,
            fuel,
        ),
    decreases rs.len() - i,
{
    if i < rs.len() {
        lemma_root_tail(vs, pp, rs, fuel, i + 1);
        let r = rows(vs, pp, rs[i], seq![], fuel);
        assert(root_rows(vs, pp, rs, i + 1, fuel) == root_rows(vs, pp, rs, i, fuel) + r);
        assert(tail_rows(vs, pp, rs, i, None, fuel) == r + tail_rows(vs, pp, rs, i + 1, None, fuel));
        assert(root_rows(vs, pp, rs, i, fuel) + r + tail_rows(vs, pp, rs, i + 1, None, fuel)
            =~= root_rows(vs, pp, rs, i, fuel) + (r + tail_rows(vs, pp, rs, i + 1, None, fuel)));
    } else {
        assert(root_rows(vs, pp, rs, i, fuel) + Seq::<char>::empty() =~= root_rows(vs, pp, rs, i, fuel));
    }
}

/// The entries a pending frame walks: the roots (`p == n`) or the children of `p`.
pub open spec fn frame_list(pp: Seq<int>, rs: Seq<int>, n: int, p: int) -> Seq<int> {
    if p == n {
        rs
    } else {
        kids(pp, p)
    }
}

/// The drawing below which frame `t` of the walk draws its entries.
pub open spec fn frame_base(t: int, path: Seq<bool>) -> Option<Seq<bool>> {
    if t == 0 {
        None
    } else {
        Some(path.take(t - 1))
    }
}

pub open spec fn frames_view(v: Seq<(usize, usize, usize)>) -> Seq<(int, int, nat)> {
    v.map_values(|f: (usize, usize, usize)| (f.0 as int, f.1 as int, f.2 as nat))
}

/// The lines still owed by a walk over the frames `fr` (top last), where
/// `path` records, for the entries above the top frame, whether each was the
/// last child.
pub open spec fn pending(
    vs: Seq<TaskView>,
    pp: Seq<int>,
    rs: Seq<int>,
    n: int,
    fr: Seq<(int, int, nat)>,
    path: Seq<bool>,
) -> Seq<char>
    decreases fr.len(),
{
    if fr.len() == 0 {
        Seq::empty()
    } else {
        let t = fr.len() - 1;
        tail_rows(vs, pp, frame_list(pp, rs, n, fr[t].0), fr[t].1, frame_base(t, path), fr[t].2)
            + pending(vs, pp, rs, n, fr.drop_last(), path)
    }
}

/// How many entries the frames still have to start.
pub open spec fn remaining(pp: Seq<int>, rs: Seq<int>, n: int, fr: Seq<(int, int, nat)>) -> nat
    decreases fr.len(),
{
    if fr.len() == 0 {
        0
    } else {
        let t = fr.len() - 1;
        let left = frame_list(pp, rs, n, fr[t].0).len() - fr[t].1;
        (if left > 0 {
            left as nat
        } else {
            0
        }) + remaining(pp, rs, n, fr.drop_last())
    }
}

proof fn lemma_pending_path(
    vs: Seq<TaskView>,
    pp: Seq<int>,
    rs: Seq<int>,
    n: int,
    fr: Seq<(int, int, nat)>,
    path: Seq<bool>,
    path2: Seq<bool>,
)
    requires
        forall|t: int| 1 <= t < fr.len() ==> #[trigger] path.take(t - 1) == path2.take(t - 1),
    ensures
        pending(vs, pp, rs, n, fr, path) == pending(vs, pp, rs, n, fr, path2),
    decreases fr.len(),
{
    if fr.len() > 0 {
        let t = fr.len() - 1;
        assert(frame_base(t, path) == frame_base(t, path2)) by {
            if t >= 1 {
                assert(path.take(t - 1) == path2.take(t - 1));
            }
        }
        lemma_pending_path(vs, pp, rs, n, fr.drop_last(), path, path2);
    }
}

/// Appends the list as a tree, walking it depth first with an explicit
/// stack of frames rather than by recursion, so that the depth of the tree is
/// bounded only by memory.
pub fn render_tree(text: &mut String, result: &ListResult)
    requires
        result.tasks@.len() + 1 < usize::MAX,
        result.tasks@.len() + 1 < i64::MAX,
    ensures
        final(text)@ == old(text)@ + tree_text(*result),
{
    let s = &result.summary;
    push_str(text, "Matched: ");
    push_decimal(text, s.matched);
    push_str(text, " (open: ");
    push_decimal(text, s.matched_open);
    push_str(text, ")\n");
    push_str(text, "Open across database: top-level=");
    push_decimal(text, s.top_level_open);
    push_str(text, ", total=");
    push_decimal(text, s.total_open);
    push_char(text, '\n');
    let ghost head = text@;
    proof {
        reveal_strlit(")\n");
        reveal_strlit(")");
        assert(head =~= old(text)@ + summary_lines(*s));
    }
    let vs = &result.tasks;
    let n = vs.len();
    if n == 0 {
        push_str(text, "No matching tasks.\n");
        return;
    }
    let mut pp: Vec<i64> = Vec::new();
    let mut j: usize = 0;
    while j < n
        invariant
            j <= n,
            n == vs@.len(),
            n + 1 < i64::MAX,
            pp@.len() == j,
            forall|q: int| 0 <= q < j ==> (#[trigger] pp@[q]) as int == parent_slot(vs@, q),
        decreases n - j,
    {
        let p = match &vs[j].task.parent_id {
            Some(pid) => entry_slot(vs, pid.as_str()),
            None => -1,
        };
        pp.push(p);
        j = j + 1;
    }
    let ghost ip = i64_ints(pp@);
    assert(ip =~= parent_slots(vs@));
    proof {
        assert forall|q: int| 0 <= q < pp@.len() implies -1 <= #[trigger] pp@[q] < pp@.len() by {
            lemma_slot_range(vs@, parent_slot_id(vs@, q), vs@.len() as int);
        }
    }
    let (lists, rs) = child_lists(&pp);
    let ghost rr = roots(ip);
    let ghost target = head + root_rows(vs@, ip, rr, rr.len() as int, (n + 1) as nat);
    let mut frames: Vec<(usize, usize, usize)> = Vec::new();
    frames.push((n, 0, n + 1));
    let mut path: Vec<bool> = Vec::new();
    proof {
        lemma_root_tail(vs@, ip, rr, (n + 1) as nat, 0);
        assert(frames_view(frames@) =~= seq![(n as int, 0int, (n + 1) as nat)]);
        assert(frames_view(frames@).drop_last() =~= Seq::<(int, int, nat)>::empty());
        assert(root_rows(vs@, ip, rr, 0, (n + 1) as nat) == Seq::<char>::empty());
        assert(pending(vs@, ip, rr, n as int, Seq::<(int, int, nat)>::empty(), path@) == Seq::<char>::empty());
        assert(text@ == head);
        assert(text@ + pending(vs@, ip, rr, n as int, frames_view(frames@), path@) =~= target);
    }
    while frames.len() > 0
        invariant
            walk_ok(vs@, ip, rr, lists@, rs@, frames@, path@),
            text@ + pending(vs@, ip, rr, n as int, frames_view(frames@), path@) == target,
            n == vs@.len(),
        decreases
            pending(vs@, ip, rr, n as int, frames_view(frames@), path@).len(),
            remaining(ip, rr, n as int, frames_view(frames@)),
            frames@.len(),
    {
        walk_step(text, vs, &lists, &rs, &mut frames, &mut path, Ghost(ip), Ghost(rr));
    }
}

/// The facts a walk over the tree keeps: the parent slots, the children
/// lists and roots that encode them, frames over those lists with the roots
/// frame at the bottom, and a path as long as the frames above it.
pub open spec fn walk_ok(
    vs: Seq<TaskView>,
    ip: Seq<int>,
    rr: Seq<int>,
    lists: Seq<Vec<usize>>,
    rs: Seq<usize>,
    frames: Seq<(usize, usize, usize)>,
    path: Seq<bool>,
) -> bool {
    let n = vs.len();
    &&& usize_ints(rs) == rr
    &&& rr == roots(ip)
    &&& ip == parent_slots(vs)
    &&& n + 1 < usize::MAX
    &&& lists.len() == n
    &&& forall|a: int| 0 <= a < n ==> usize_ints((#[trigger] lists[a])@) == kids(ip, a)
    &&& forall|a: int, q: int| 0 <= a < n && 0 <= q < lists[a]@.len() ==> (#[trigger] lists[a]@[q]) < n
    &&& forall|q: int| 0 <= q < rs.len() ==> #[trigger] rs[q] < n
    &&& forall|t: int|
        0 <= t < frames.len() ==> (#[trigger] frames[t]).0 <= n && (t == 0) == (frames[t].0 == n)
            && frames[t].2 <= n + 1
    &&& path.len() == (if frames.len() >= 2 {
        frames.len() - 2
    } else {
        0
    })
}

/// The measure that each step of the walk lowers.
pub open spec fn walk_lowers(
    p0: nat,
    r0: nat,
    f0: nat,
    p1: nat,
    r1: nat,
    f1: nat,
) -> bool {
    p1 < p0 || (p1 == p0 && (r1 < r0 || (r1 == r0 && f1 < f0)))
}

/// One step of the walk: finish the top frame, or draw its next entry and
/// open a frame for that entry's children.
fn walk_step(
    text: &mut String,
    vs: &Vec<TaskView>,
    lists: &Vec<Vec<usize>>,
    rs: &Vec<usize>,
    frames: &mut Vec<(usize, usize, usize)>,
    path: &mut Vec<bool>,
    Ghost(ip): Ghost<Seq<int>>,
    Ghost(rr): Ghost<Seq<int>>,
)
    requires
        walk_ok(vs@, ip, rr, lists@, rs@, old(frames)@, old(path)@),
        old(frames)@.len() > 0,
    ensures
        walk_ok(vs@, ip, rr, lists@, rs@, final(frames)@, final(path)@),
        final(text)@ + pending(vs@, ip, rr, vs@.len() as int, frames_view(final(frames)@), final(path)@)
            == old(text)@ + pending(vs@, ip, rr, vs@.len() as int, frames_view(old(frames)@), old(path)@),
        walk_lowers(
            pending(vs@, ip, rr, vs@.len() as int, frames_view(old(frames)@), old(path)@).len(),
            remaining(ip, rr, vs@.len() as int, frames_view(old(frames)@)),
            old(frames)@.len(),
            pending(vs@, ip, rr, vs@.len() as int, frames_view(final(frames)@), final(path)@).len(),
            remaining(ip, rr, vs@.len() as int, frames_view(final(frames)@)),
            final(frames)@.len(),
        ),
{
    let n = vs.len();
    let t = frames.len() - 1;
    let (p, i, fuel) = frames[t];
    let m = if p == n {
        rs.len()
    } else {
        lists[p].len()
    };
    proof {
        let kl = frame_list(ip, rr, n as int, p as int);
        if p == n {
            assert(usize_ints(rs@) == kl);
        } else {
            assert(usize_ints(lists@[p as int]@) == kl);
        }
        assert(frames_view(frames@)[t as int] == (p as int, i as int, fuel as nat));
    }
    if i >= m {
        step_pop(frames, path, Ghost(vs@), Ghost(ip), Ghost(rr), Ghost(lists@), Ghost(rs@));
    } else if fuel == 0 {
        step_skip(frames, Ghost(vs@), Ghost(ip), Ghost(rr), Ghost(lists@), Ghost(rs@), Ghost(path@));
    } else {
        step_enter(text, vs, lists, rs, frames, path, Ghost(ip), Ghost(rr));
    }
}

fn step_pop(
    frames: &mut Vec<(usize, usize, usize)>,
    path: &mut Vec<bool>,
    Ghost(vs): Ghost<Seq<TaskView>>,
    Ghost(ip): Ghost<Seq<int>>,
    Ghost(rr): Ghost<Seq<int>>,
    Ghost(lists): Ghost<Seq<Vec<usize>>>,
    Ghost(rs): Ghost<Seq<usize>>,
)
    requires
        walk_ok(vs, ip, rr, lists, rs, old(frames)@, old(path)@),
        old(frames)@.len() > 0,
        ({
            let fr = frames_view(old(frames)@);
            let t = fr.len() - 1;
            fr[t].1 >= frame_list(ip, rr, vs.len() as int, fr[t].0).len()
        }),
    ensures
        walk_ok(vs, ip, rr, lists, rs, final(frames)@, final(path)@),
        pending(vs, ip, rr, vs.len() as int, frames_view(final(frames)@), final(path)@)
            == pending(vs, ip, rr, vs.len() as int, frames_view(old(frames)@), old(path)@),
        remaining(ip, rr, vs.len() as int, frames_view(final(frames)@)) == remaining(ip, rr, vs.len() as int, frames_view(old(frames)@)),
        final(frames)@.len() < old(frames)@.len(),
{
    let ghost n = vs.len() as int;
    let ghost fr = frames_view(frames@);
    let ghost old_path = path@;
    let t = frames.len() - 1;
    frames.pop();
    if t >= 2 {
        path.pop();
    }
    proof {
        assert(frames_view(frames@) =~= fr.drop_last());
        assert forall|u: int| 1 <= u < fr.drop_last().len() implies #[trigger] path@.take(u - 1)
            == old_path.take(u - 1) by {
            assert(path@.take(u - 1) =~= old_path.take(u - 1));
        }
        lemma_pending_path(vs, ip, rr, n, fr.drop_last(), path@, old_path);
        let kl = frame_list(ip, rr, n, fr[t as int].0);
        assert(tail_rows(vs, ip, kl, fr[t as int].1, frame_base(t as int, old_path), fr[t as int].2) == Seq::<char>::empty());
        assert(pending(vs, ip, rr, n, fr, old_path) =~= pending(vs, ip, rr, n, fr.drop_last(), old_path));
        assert forall|u: int| 0 <= u < frames@.len() implies (#[trigger] frames@[u]).0 <= n && (u == 0) == (frames@[u].0 == n)
            && frames@[u].2 <= n + 1 by {
            assert(frames@[u] == old(frames)@[u]);
        }
    }
}

fn step_skip(
    frames: &mut Vec<(usize, usize, usize)>,
    Ghost(vs): Ghost<Seq<TaskView>>,
    Ghost(ip): Ghost<Seq<int>>,
    Ghost(rr): Ghost<Seq<int>>,
    Ghost(lists): Ghost<Seq<Vec<usize>>>,
    Ghost(rs): Ghost<Seq<usize>>,
    Ghost(path): Ghost<Seq<bool>>,
)
    requires
        walk_ok(vs, ip, rr, lists, rs, old(frames)@, path),
        old(frames)@.len() > 0,
        ({
            let fr = frames_view(old(frames)@);
            let t = fr.len() - 1;
            fr[t].1 < frame_list(ip, rr, vs.len() as int, fr[t].0).len() && fr[t].2 == 0
        }),
    ensures
        walk_ok(vs, ip, rr, lists, rs, final(frames)@, path),
        pending(vs, ip, rr, vs.len() as int, frames_view(final(frames)@), path)
            == pending(vs, ip, rr, vs.len() as int, frames_view(old(frames)@), path),
        remaining(ip, rr, vs.len() as int, frames_view(final(frames)@)) < remaining(ip, rr, vs.len() as int, frames_view(old(frames)@)),
        final(frames)@.len() == old(frames)@.len(),
{
    let ghost n = vs.len() as int;
    let ghost fr = frames_view(frames@);
    let t = frames.len() - 1;
    let (p, i, fuel) = frames[t];
    assert(fr[t as int] == (p as int, i as int, fuel as nat));
    frames.set(t, (p, i + 1, fuel));
    proof {
        let fr1 = frames_view(frames@);
        assert(fr1 =~= fr.update(t as int, (p as int, i + 1, fuel as nat)));
        assert(fr1.drop_last() =~= fr.drop_last());
        let kl = frame_list(ip, rr, n, p as int);
        let base = frame_base(t as int, path);
        let cf = child_flags(base, i == kl.len() - 1);
        assert(tail_rows(vs, ip, kl, i as int, base, 0) == rows(vs, ip, kl[i as int], cf, 0) + tail_rows(
            vs,
            ip,
            kl,
            i + 1,
            base,
            0,
        ));
        assert(rows(vs, ip, kl[i as int], cf, 0) == Seq::<char>::empty());
        assert(pending(vs, ip, rr, n, fr, path) =~= pending(vs, ip, rr, n, fr1, path));
        assert(remaining(ip, rr, n, fr1) + 1 == remaining(ip, rr, n, fr));
        assert forall|u: int| 0 <= u < frames@.len() implies (#[trigger] frames@[u]).0 <= n && (u == 0) == (frames@[u].0 == n)
            && frames@[u].2 <= n + 1 by {
            if u != t {
                assert(frames@[u] == old(frames)@[u]);
            }
        }
    }
}

#[verifier::spinoff_prover]
#[verifier::rlimit(60)]
fn step_enter(
    text: &mut String,
    vs: &Vec<TaskView>,
    lists: &Vec<Vec<usize>>,
    rs: &Vec<usize>,
    frames: &mut Vec<(usize, usize, usize)>,
    path: &mut Vec<bool>,
    Ghost(ip): Ghost<Seq<int>>,
    Ghost(rr): Ghost<Seq<int>>,
)
    requires
        walk_ok(vs@, ip, rr, lists@, rs@, old(frames)@, old(path)@),
        old(frames)@.len() > 0,
        ({
            let fr = frames_view(old(frames)@);
            let t = fr.len() - 1;
            fr[t].1 < frame_list(ip, rr, vs@.len() as int, fr[t].0).len() && fr[t].2 > 0
        }),
    ensures
        walk_ok(vs@, ip, rr, lists@, rs@, final(frames)@, final(path)@),
        final(text)@ + pending(vs@, ip, rr, vs@.len() as int, frames_view(final(frames)@), final(path)@)
            == old(text)@ + pending(vs@, ip, rr, vs@.len() as int, frames_view(old(frames)@), old(path)@),
        pending(vs@, ip, rr, vs@.len() as int, frames_view(final(frames)@), final(path)@).len()
            < pending(vs@, ip, rr, vs@.len() as int, frames_view(old(frames)@), old(path)@).len(),
{
    let n = vs.len();
    let t = frames.len() - 1;
    let (p, i, fuel) = frames[t];
    let ghost fr = frames_view(frames@);
    let ghost old_path = path@;
    let ghost rest = pending(vs@, ip, rr, n as int, fr.drop_last(), path@);
    let ghost kl = frame_list(ip, rr, n as int, p as int);
    assert(fr[t as int] == (p as int, i as int, fuel as nat));
    let c = if p == n {
        assert(usize_ints(rs@) == kl);
        rs[i]
    } else {
        assert(usize_ints(lists@[p as int]@) == kl);
        lists[p][i]
    };
    let m = if p == n {
        rs.len()
    } else {
        lists[p].len()
    };
    assert(kl[i as int] == c as int);
    assert(kl.len() == m);
    frames.set(t, (p, i + 1, fuel));
    let ghost fr1 = frames_view(frames@);
    assert(fr1 =~= fr.update(t as int, (p as int, i + 1, fuel as nat)));
    assert(fr1.drop_last() =~= fr.drop_last());
    let ghost base = frame_base(t as int, old_path);
    let ghost cf = child_flags(base, i == m - 1);
    let ghost kc = kids(ip, c as int);
    proof {
        assert(pending(vs@, ip, rr, n as int, fr, old_path) == tail_rows(vs@, ip, kl, i as int, base, fuel as nat)
            + rest);
        assert(tail_rows(vs@, ip, kl, i as int, base, fuel as nat) == rows(vs@, ip, c as int, cf, fuel as nat)
            + tail_rows(vs@, ip, kl, i + 1, base, fuel as nat));
        assert(pending(vs@, ip, rr, n as int, fr1, old_path) == tail_rows(vs@, ip, kl, i + 1, base, fuel as nat)
            + rest);
        lemma_kid_tail(vs@, ip, kc, cf, (fuel - 1) as nat, 0);
        assert(kid_rows(vs@, ip, kc, 0, cf, (fuel - 1) as nat) == Seq::<char>::empty());
        assert(rows(vs@, ip, c as int, cf, fuel as nat) == prefix(cf) + entry_text(vs@[c as int])
            + tail_rows(vs@, ip, kc, 0, Some(cf), (fuel - 1) as nat));
        assert(frame_list(ip, rr, n as int, c as int) == kc);
    }
    let ghost t0 = text@;
    if t == 0 {
        push_entry(text, &vs[c]);
        assert(prefix(cf) == Seq::<char>::empty());
    } else {
        let last = i + 1 == m;
        path.push(last);
        proof {
            assert(old_path.take(t - 1) =~= old_path);
            assert(path@ == cf);
        }
        push_prefix(text, path);
        push_entry(text, &vs[c]);
    }
    frames.push((c, 0, fuel - 1));
    proof {
        let fr2 = frames_view(frames@);
        assert(fr2 =~= fr1.push((c as int, 0int, (fuel - 1) as nat)));
        assert(fr2.drop_last() =~= fr1);
        assert(text@ == t0 + prefix(cf) + entry_text(vs@[c as int]));
        assert(frame_base(t + 1, path@) == Some(cf)) by {
            if t == 0 {
                assert(path@.take(0) =~= Seq::<bool>::empty());
            } else {
                assert(path@.take(t as int) =~= path@);
            }
        }
        assert forall|u: int| 1 <= u < fr1.len() implies #[trigger] path@.take(u - 1) == old_path.take(u - 1) by {
            assert(path@.take(u - 1) =~= old_path.take(u - 1));
        }
        lemma_pending_path(vs@, ip, rr, n as int, fr1, path@, old_path);
        assert(pending(vs@, ip, rr, n as int, fr2, path@) == tail_rows(vs@, ip, kc, 0, Some(cf), (fuel - 1) as nat)
            + pending(vs@, ip, rr, n as int, fr1, path@));
        assert(entry_text(vs@[c as int]).len() > 0);
        assert(text@ + pending(vs@, ip, rr, n as int, fr2, path@) =~= t0 + pending(vs@, ip, rr, n as int, fr, old_path));
        assert forall|u: int| 0 <= u < frames@.len() implies (#[trigger] frames@[u]).0 <= n && (u == 0) == (frames@[u].0 == n)
            && frames@[u].2 <= n + 1 by {
            if u < t {
                assert(frames@[u] == old(frames)@[u]);
            }
        }
    }
}

pub open spec fn parent_slot_id(vs: Seq<TaskView>, j: int) -> Seq<char> {
    match vs[j].task@.parent_id {
        Some(p) => p,
        None => Seq::empty(),
    }
}

pub proof fn lemma_slot_range(vs: Seq<TaskView>, id: Seq<char>, n: int)
    requires
        n <= vs.len(),
    ensures
        -1 <= slot_upto(vs, id, n) < vs.len(),
        slot_upto(vs, id, n) < n || n <= 0,
    decreases n,
{
    if n > 0 {
        lemma_slot_range(vs, id, n - 1);
    }
}

/// The position of the first line break at or after `from`, or the length.
pub open spec fn next_nl(s: Seq<char>, from: int) -> int
    decreases s.len() - from,
{
    if from < 0 || from >= s.len() {
        s.len() as int
    } else if s[from] == '\n' {
        from
    } else {
        next_nl(s, from + 1)
    }
}

pub proof fn lemma_next_nl(s: Seq<char>, from: int)
    requires
        0 <= from,
    ensures
        from <= next_nl(s, from) || from > s.len(),
        next_nl(s, from) <= s.len(),
    decreases s.len() - from,
{
    if from < s.len() && s[from] != '\n' {
        lemma_next_nl(s, from + 1);
    }
}

/// A line without the carriage return of a `\r\n` ending.
pub open spec fn strip_cr(l: Seq<char>) -> Seq<char> {
    if l.len() > 0 && l.last() == '\r' {
        l.drop_last()
    } else {
        l
    }
}

/// The lines of `s` from `from` on, as `str::lines` splits them, each escaped,
/// indented by two spaces and ended by a line break.
pub open spec fn indented_lines(s: Seq<char>, from: int) -> Seq<char>
    decreases s.len() + 1 - from,
{
    if from < 0 || from >= s.len() {
        Seq::empty()
    } else {
        let e = next_nl(s, from);
        proof {
            lemma_next_nl(s, from);
        }
        "  "@ + human(strip_cr(s.subrange(from, e))) + nl() + indented_lines(s, e + 1)
    }
}

fn push_indented_lines(out: &mut String, s: &str)
    ensures
        final(out)@ == old(out)@ + indented_lines(s@, 0),
{
    let cs = to_chars(s);
    let n = cs.len();
    let mut start: usize = 0;
    while start < n
        invariant
            start <= n,
            n == cs@.len(),
            cs@ == s@,
            out@ + indented_lines(cs@, start as int) == old(out)@ + indented_lines(cs@, 0),
        decreases n - start,
    {
        let mut e: usize = start;
        while e < n && cs[e] != '\n'
            invariant
                start <= e <= n,
                n == cs@.len(),
                next_nl(cs@, start as int) == next_nl(cs@, e as int),
            decreases n - e,
        {
            e = e + 1;
        }
        assert(next_nl(cs@, start as int) == e);
        let mut hi = e;
        if hi > start && cs[hi - 1] == '\r' {
            hi = hi - 1;
        }
        let ghost line = cs@.subrange(start as int, e as int);
        assert(strip_cr(line) =~= cs@.subrange(start as int, hi as int));
        let ghost before = out@;
        push_str(out, "  ");
        push_human_range(out, &cs, start, hi);
        push_char(out, '\n');
        let next = if e < n {
            e + 1
        } else {
            n
        };
        proof {
            assert(indented_lines(cs@, start as int) == "  "@ + human(strip_cr(line)) + nl()
                + indented_lines(cs@, e + 1));
            assert(indented_lines(cs@, e + 1) == indented_lines(cs@, next as int));
            assert(out@ =~= before + ("  "@ + human(strip_cr(line)) + nl()));
            assert(out@ + indented_lines(cs@, next as int) =~= before + indented_lines(cs@, start as int));
        }
        start = next;
    }
    assert(indented_lines(cs@, start as int) == Seq::<char>::empty());
    assert(out@ + Seq::<char>::empty() =~= out@);
}

/// `{at}  {kind}  #{id}` and `  Task: {task_id}`.
pub open spec fn entry_head(e: HistoryV) -> Seq<char> {
    human(e.at) + "  "@ + human(e.kind) + "  #"@ + signed_decimal(e.id) + nl() + "  Task: "@
        + human(e.task_id) + nl()
}

/// The first `n` history entries, each with its changes, given as
/// pretty-printed JSON in `changes`, one line per JSON line.
pub open spec fn history_text(es: Seq<HistoryEntry>, changes: Seq<String>, n: int) -> Seq<char>
    decreases n,
{
    if n <= 0 {
        Seq::empty()
    } else {
        history_text(es, changes, n - 1) + entry_head(es[n - 1]@) + indented_lines(changes[n - 1]@, 0)
    }
}

/// Every reminder association, one block of fields each.
pub open spec fn reminder_blocks(rs: Seq<Reminder>, indent: Seq<char>) -> Seq<char>
    decreases rs.len(),
{
    if rs.len() == 0 {
        Seq::empty()
    } else {
        reminder_blocks(rs.drop_last(), indent) + reminder_lines(rs.last()@, indent)
    }
}

pub open spec fn updated_word(changed: bool) -> Seq<char> {
    if changed {
        "Updated"@
    } else {
        "Unchanged"@
    }
}

/// The text, ended by a line break unless it already ends with one.
pub open spec fn terminated(v: Seq<char>) -> Seq<char> {
    if v.len() > 0 && v.last() == '\n' {
        v
    } else {
        v + nl()
    }
}

/// The human-readable text of a response; `changes` holds the pretty JSON of
/// each history entry's changes.
pub open spec fn rendered(r: Response, changes: Seq<String>) -> Seq<char> {
    match r {
        Response::Created(c) => change_line(
            if c.deduplicated {
                "Existing task (creation deduplicated)"@
            } else {
                "Created"@
            },
            c.task@,
        ),
        Response::Changed(c) => change_line(updated_word(c.changed), c.task@),
        Response::Transitioned(t) => change_line(updated_word(t.changed), t.task@)
            + "Affected tasks ("@ + decimal(t.affected_task_ids@.len()) + "):"@ + nl()
            + source_lines(seq_view(t.affected_task_ids@)),
        Response::Listed(l) => tree_text(l),
        Response::Detail(d) => task_lines(d.task@) + progress_line(d.progress) + "Reminders: "@
            + decimal(d.reminders@.len()) + nl() + reminder_blocks(d.reminders@, "  "@),
        Response::History(es) => if es@.len() == 0 {
            "No history.\n"@
        } else {
            history_text(es@, changes, es@.len() as int)
        },
        Response::ReminderChanged(r) => updated_word(r.changed) + " reminder association:"@ + nl()
            + reminder_lines(r.reminder@, ""@),
        Response::Reminders(rs) => "Reminder associations: "@ + decimal(rs@.len()) + nl()
            + reminder_blocks(rs@, ""@),
        Response::ReminderRemoved(r) => "Removed local reminder association:\n"@ + reminder_lines(
            r@,
            ""@,
        ),
        Response::Help(v) => terminated(v@),
        Response::Version(v) => terminated(v@),
    }
}

fn push_lines(text: &mut String, ids: &Vec<String>)
    ensures
        final(text)@ == old(text)@ + source_lines(seq_view(ids@)),
{
    let ghost sv = seq_view(ids@);
    let mut i: usize = 0;
    assert(sv.take(0) =~= Seq::<Seq<char>>::empty());
    assert(old(text)@ + source_lines(Seq::<Seq<char>>::empty()) =~= old(text)@);
    while i < ids.len()
        invariant
            i <= ids@.len(),
            sv == seq_view(ids@),
            text@ == old(text)@ + source_lines(sv.take(i as int)),
        decreases ids.len() - i,
    {
        push_str(text, "  ");
        push_human(text, ids[i].as_str());
        push_char(text, '\n');
        proof {
            assert(sv.take(i + 1).drop_last() =~= sv.take(i as int));
            assert(sv.take(i + 1).last() == ids@[i as int]@);
            assert(text@ =~= old(text)@ + source_lines(sv.take(i + 1)));
        }
        i = i + 1;
    }
    assert(sv.take(ids@.len() as int) =~= sv);
}

fn push_reminders(text: &mut String, rs: &Vec<Reminder>, indent: &str)
    ensures
        final(text)@ == old(text)@ + reminder_blocks(rs@, indent@),
{
    let mut i: usize = 0;
    assert(rs@.take(0) =~= Seq::<Reminder>::empty());
    assert(old(text)@ + reminder_blocks(Seq::<Reminder>::empty(), indent@) =~= old(text)@);
    while i < rs.len()
        invariant
            i <= rs@.len(),
            text@ == old(text)@ + reminder_blocks(rs@.take(i as int), indent@),
        decreases rs.len() - i,
    {
        render_reminder(text, &rs[i], indent);
        proof {
            assert(rs@.take(i + 1).drop_last() =~= rs@.take(i as int));
            assert(rs@.take(i + 1).last() == rs@[i as int]);
            assert(text@ =~= old(text)@ + reminder_blocks(rs@.take(i + 1), indent@));
        }
        i = i + 1;
    }
    assert(rs@.take(rs@.len() as int) =~= rs@);
}

fn push_history(text: &mut String, es: &Vec<HistoryEntry>, changes: &Vec<String>)
    requires
        es@.len() == changes@.len(),
    ensures
        final(text)@ == old(text)@ + history_text(es@, changes@, es@.len() as int),
{
    let mut i: usize = 0;
    while i < es.len()
        invariant
            i <= es@.len(),
            es@.len() == changes@.len(),
            text@ == old(text)@ + history_text(es@, changes@, i as int),
        decreases es.len() - i,
    {
        let ghost before = text@;
        let e = &es[i];
        push_human(text, e.at.as_str());
        push_str(text, "  ");
        push_human(text, e.kind.as_str());
        push_str(text, "  #");
        push_i64(text, e.id);
        push_char(text, '\n');
        push_str(text, "  Task: ");
        push_human(text, e.task_id.as_str());
        push_char(text, '\n');
        assert(text@ =~= before + entry_head(e@));
        push_indented_lines(text, changes[i].as_str());
        assert(text@ =~= old(text)@ + history_text(es@, changes@, i + 1));
        i = i + 1;
    }
}

/// The human-readable text of a response; the JSON output is separate.
pub fn render(response: &Response, changes: &Vec<String>) -> (r: String)
    requires
        response matches Response::Listed(l) ==> l.tasks@.len() + 1 < usize::MAX && l.tasks@.len()
            + 1 < i64::MAX,
        response matches Response::History(es) ==> es@.len() == changes@.len(),
    ensures
        r@ == rendered(*response, changes@),
{
    let mut text = String::new();
    match response {
        Response::Created(result) => {
            if result.deduplicated {
                render_change(&mut text, "Existing task (creation deduplicated)", &result.task);
            } else {
                render_change(&mut text, "Created", &result.task);
            }
        },
        Response::Changed(result) => {
            if result.changed {
                render_change(&mut text, "Updated", &result.task);
            } else {
                render_change(&mut text, "Unchanged", &result.task);
            }
        },
        Response::Transitioned(result) => {
            if result.changed {
                render_change(&mut text, "Updated", &result.task);
            } else {
                render_change(&mut text, "Unchanged", &result.task);
            }
            push_str(&mut text, "Affected tasks (");
            push_decimal(&mut text, result.affected_task_ids.len());
            push_str(&mut text, "):");
            push_char(&mut text, '\n');
            push_lines(&mut text, &result.affected_task_ids);
        },
        Response::Listed(result) => {
            render_tree(&mut text, result);
        },
        Response::Detail(detail) => {
            render_task(&mut text, &detail.task);
            render_progress(&mut text, &detail.progress);
            push_str(&mut text, "Reminders: ");
            push_decimal(&mut text, detail.reminders.len());
            push_char(&mut text, '\n');
            push_reminders(&mut text, &detail.reminders, "  ");
        },
        Response::History(es) => {
            if es.len() == 0 {
                push_str(&mut text, "No history.\n");
            } else {
                push_history(&mut text, es, changes);
            }
        },
        Response::ReminderChanged(result) => {
            if result.changed {
                push_str(&mut text, "Updated");
            } else {
                push_str(&mut text, "Unchanged");
            }
            push_str(&mut text, " reminder association:");
            push_char(&mut text, '\n');
            render_reminder(&mut text, &result.reminder, "");
        },
        Response::Reminders(reminders) => {
            push_str(&mut text, "Reminder associations: ");
            push_decimal(&mut text, reminders.len());
            push_char(&mut text, '\n');
            push_reminders(&mut text, reminders, "");
        },
        Response::ReminderRemoved(reminder) => {
            push_str(&mut text, "Removed local reminder association:\n");
            render_reminder(&mut text, reminder, "");
        },
        Response::Help(value) | Response::Version(value) => {
            push_str(&mut text, value.as_str());
            let cs = to_chars(value.as_str());
            if cs.len() == 0 || cs[cs.len() - 1] != '\n' {
                push_char(&mut text, '\n');
            }
        },
    }
    assert(text@ =~= rendered(*response, changes@));
    text
}

/// A failure for people: `Error [{code}]: {message}`, then `Context: {context}`
/// unless the context (as JSON text) is empty, each escaped onto one line.
pub open spec fn failure_text(code: Seq<char>, message: Seq<char>, context: Seq<char>) -> Seq<char> {
    "Error ["@ + code + "]: "@ + human(message) + nl() + if context == "{}"@ {
        Seq::empty()
    } else {
        "Context: "@ + human(context) + nl()
    }
}

/// The human-readable text of a failure.
pub fn render_failure(code: &str, message: &str, context: &str) -> (r: String)
    ensures
        r@ == failure_text(code@, message@, context@),
{
    let mut text = String::new();
    push_str(&mut text, "Error [");
    push_str(&mut text, code);
    push_str(&mut text, "]: ");
    push_human(&mut text, message);
    push_char(&mut text, '\n');
    let ghost head = text@;
    if !crate::text::text_eq(context, "{}") {
        push_str(&mut text, "Context: ");
        push_human(&mut text, context);
        push_char(&mut text, '\n');
    }
    assert(text@ =~= failure_text(code@, message@, context@));
    text
}

proof fn lemma_hex_plain(n: nat)
    ensures
        forall|i: int| 0 <= i < hex(n).len() ==> !must_escape(#[trigger] hex(n)[i]),
    decreases n,
{
    if n >= 16 {
        lemma_hex_plain(n / 16);
        assert forall|i: int| 0 <= i < hex(n).len() implies !must_escape(#[trigger] hex(n)[i]) by {
            if i < hex(n / 16).len() {
                assert(hex(n)[i] == hex(n / 16)[i]);
            }
        }
    }
}

/// Escaped text never holds a control character or a bidirectional or
/// zero-width formatting character, so stored text can neither break a line
/// of the output nor send a terminal escape.
pub proof fn law_human_has_no_controls(s: Seq<char>)
    ensures
        forall|i: int| 0 <= i < human(s).len() ==> !must_escape(#[trigger] human(s)[i]),
    decreases s.len(),
{
    if s.len() > 0 {
        law_human_has_no_controls(s.drop_last());
        let c = s.last();
        let h = human(s.drop_last());
        assert(forall|i: int| 0 <= i < shown_char(c).len() ==> !must_escape(#[trigger] shown_char(c)[i])) by {
            if must_escape(c) && c != '\t' && c != '\r' && c != '\n' {
                let u = c as u32 as nat;
                lemma_hex_plain(u);
                let e = seq!['\\', 'u', '{'] + hex(u) + seq!['}'];
                assert forall|i: int| 0 <= i < e.len() implies !must_escape(#[trigger] e[i]) by {
                    if 3 <= i < 3 + hex(u).len() {
                        assert(e[i] == hex(u)[i - 3]);
                    }
                }
            }
        }
        assert forall|i: int| 0 <= i < human(s).len() implies !must_escape(#[trigger] human(s)[i]) by {
            if i < h.len() {
                assert(human(s)[i] == h[i]);
            } else {
                assert(human(s)[i] == shown_char(c)[i - h.len()]);
            }
        }
    }
}

} // verus!
