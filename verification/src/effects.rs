//! What each operation does to the record it touches, field by field: the
//! status and reasons a transition leaves, the fields an edit sets, the
//! parent a move gives, and what a parsed listing command asks for.
use vstd::prelude::*;

use crate::error::ErrorV;
use crate::laws::{acyclic, lemma_status_literals, lemma_transition_frame, lemma_transition_tasks};
use crate::edits::{edit_spec, note_spec};
use crate::tasks::{create_spec, has_token, token_index};
use crate::model::{closed_status, CreateTaskV, EditTask, ListFilter, ListResult, TaskV, Transition};
use crate::query::{created_keys, id_keys, lemma_task_keys_distinct, list_ok, listed, visible};
use crate::sorting::lemma_sorted_list_exists;
use crate::parenting::{lemma_seen_shorter, set_parent_spec, walk, Walk};
use crate::reminders::{add_reminder_spec, channel_norm, edit_reminder_spec, AddReminder, EditReminder};
use crate::store::{has_reminder, has_task, reminder_index, task_index, task_of, unique_task_ids, StoreV};
use crate::text::{blank, has_substring, lowercase, opt_view, seq_view, trim};
use crate::tree::{open_desc_list, open_desc_of, is_desc, lemma_reach_within_len, lemma_up_compose, pidx, up};
use crate::transitions::{applied, reached, target_status, transition_spec};

verus! {

/// The status a status operation asks for.
pub open spec fn asked_status(a: Transition) -> Seq<char> {
    match a {
        Transition::Start => "in_progress"@,
        Transition::Block { .. } => "blocked"@,
        Transition::Done { .. } => "done"@,
        Transition::Cancel { .. } => "cancelled"@,
        Transition::Reopen => "pending"@,
    }
}

/// Two task records agree on everything but status, reasons and times.
pub open spec fn same_business_fields(t: TaskV, u: TaskV) -> bool {
    &&& t.id == u.id
    &&& t.title == u.title
    &&& t.description == u.description
    &&& t.category == u.category
    &&& t.project == u.project
    &&& t.parent_id == u.parent_id
    &&& t.sources == u.sources
    &&& t.created_at == u.created_at
    &&& t.creation_token == u.creation_token
}

/// A successful status operation leaves the task, as returned and as
/// stored, with the status asked for; a block reason only after `block`
/// and a cancel reason only after `cancel` (each the one given); no other
/// business field changed; the closing time set when the task enters
/// `done` or `cancelled` and cleared when it leaves them; and `changed`
/// exactly when the record differs from before.
pub proof fn law_transition_sets_status_and_reasons(s: StoreV, id: Seq<char>, a: Transition, at: Seq<char>)
    requires
        s.wf(),
        transition_spec(s, id, a, at).1 is Ok,
    ensures
        has_task(s.tasks, id),
        ({
            let s1 = transition_spec(s, id, a, at).0;
            let r = transition_spec(s, id, a, at).1->Ok_0;
            let i = task_index(s.tasks, id);
            let before = s.tasks[i];
            let t = r.0;
            &&& 0 <= i < s.tasks.len()
            &&& s1.tasks[i] == t
            &&& t.id == id
            &&& t.status == asked_status(a)
            &&& t.blocked_reason == match a {
                Transition::Block { reason } => Some(reason@),
                _ => None,
            }
            &&& t.cancel_reason == match a {
                Transition::Cancel { reason, .. } => opt_view(reason),
                _ => None,
            }
            &&& same_business_fields(t, before)
            &&& (before.status != t.status && (t.status == "done"@ || t.status == "cancelled"@))
                ==> t.closed_at == Some(at)
            &&& (before.status != t.status && !(t.status == "done"@ || t.status == "cancelled"@))
                ==> t.closed_at is None
            &&& r.1 == (t != before)
            &&& r.1 ==> t.updated_at == at
        }),
{
    lemma_transition_frame(s, id, a, at);
    lemma_status_literals();
    let i = task_index(s.tasks, id);
    let before = s.tasks[i];
    let t = transition_spec(s, id, a, at).1->Ok_0.0;
    assert(s.tasks[i].id == id);
    if transition_spec(s, id, a, at).1->Ok_0.1 {
        assert(crate::transitions::applied(before, a) != before);
    }
}

/// A successful edit sets each field it names, to the value given (a
/// description or project given as `None` is cleared, a list of sources
/// replaces the old one), keeps every field it does not name and every
/// field of status, parent and time, and reports `changed` exactly when the
/// record differs from before; the stored task is the one returned.
pub proof fn law_edit_sets_given_fields(s: StoreV, id: Seq<char>, e: EditTask, at: Seq<char>)
    requires
        s.wf(),
        edit_spec(s, id, e, at).1 is Ok,
    ensures
        has_task(s.tasks, id),
        ({
            let s1 = edit_spec(s, id, e, at).0;
            let r = edit_spec(s, id, e, at).1->Ok_0;
            let i = task_index(s.tasks, id);
            let before = s.tasks[i];
            let t = r.0;
            &&& 0 <= i < s.tasks.len()
            &&& s1.tasks[i] == t
            &&& t.id == id
            &&& t.title == match e.title {
                Some(x) => x@,
                None => before.title,
            }
            &&& t.category == match e.category {
                Some(x) => x@,
                None => before.category,
            }
            &&& t.description == match e.description {
                Some(Some(x)) => Some(x@),
                Some(None) => None,
                None => before.description,
            }
            &&& t.project == match e.project {
                Some(Some(x)) => Some(x@),
                Some(None) => None,
                None => before.project,
            }
            &&& t.sources == match e.sources {
                Some(x) => seq_view(x@),
                None => before.sources,
            }
            &&& t.status == before.status
            &&& t.parent_id == before.parent_id
            &&& t.blocked_reason == before.blocked_reason
            &&& t.cancel_reason == before.cancel_reason
            &&& t.created_at == before.created_at
            &&& t.closed_at == before.closed_at
            &&& t.creation_token == before.creation_token
            &&& r.1 == (t != before)
            &&& r.1 ==> t.updated_at == at
        }),
{
    let i = task_index(s.tasks, id);
    assert(0 <= i < s.tasks.len() && s.tasks[i].id == id);
}

/// A successful edit of an association sets each field it names (texts
/// trimmed, the channel normalized), keeps the fields it does not name in
/// their stored form, keeps its id, task and creation time, and reports
/// `changed` exactly when the record differs from before; the stored
/// association is the one returned.
pub proof fn law_edit_reminder_sets_given_fields(s: StoreV, rid: Seq<char>, e: EditReminder, at: Seq<char>)
    requires
        s.wf(),
        edit_reminder_spec(s, rid, e, at).1 is Ok,
    ensures
        has_reminder(s.reminders, rid),
        ({
            let s1 = edit_reminder_spec(s, rid, e, at).0;
            let r = edit_reminder_spec(s, rid, e, at).1->Ok_0;
            let ri = reminder_index(s.reminders, rid);
            let before = s.reminders[ri];
            let m = r.0;
            &&& 0 <= ri < s.reminders.len()
            &&& s1.reminders.len() == s.reminders.len()
            &&& s1.reminders[ri] == m
            &&& m.id == rid
            &&& m.task_id == before.task_id
            &&& m.created_at == before.created_at
            &&& m.external_id == trim(
                match e.external_id {
                    Some(x) => x@,
                    None => before.external_id,
                },
            )
            &&& m.scheduled_at == trim(
                match e.scheduled_at {
                    Some(x) => x@,
                    None => before.scheduled_at,
                },
            )
            &&& m.timezone == trim(
                match e.timezone {
                    Some(x) => x@,
                    None => before.timezone,
                },
            )
            &&& m.channel == channel_norm(
                match e.channel {
                    Some(x) => x@,
                    None => before.channel,
                },
            )
            &&& m.status == match e.status {
                Some(x) => x@,
                None => before.status,
            }
            &&& r.1 == (m != before)
            &&& r.1 ==> m.updated_at == at
        }),
{
    let ri = reminder_index(s.reminders, rid);
    assert(0 <= ri < s.reminders.len() && s.reminders[ri].id == rid);
}

/// Every parent that a task names exists.
pub open spec fn parents_exist(ts: Seq<TaskV>) -> bool {
    forall|j: int| 0 <= j < ts.len() && (#[trigger] ts[j]).parent_id is Some ==> has_task(ts, ts[j].parent_id->0)
}

/// Being an ancestor is transitive.
pub proof fn lemma_desc_trans(ts: Seq<TaskV>, x: int, y: int, z: int)
    requires
        0 <= x < ts.len(),
        0 <= z < ts.len(),
        is_desc(ts, x, y),
        is_desc(ts, y, z),
    ensures
        is_desc(ts, x, z),
{
    let k1 = choose|k: nat| 1 <= k <= ts.len() && #[trigger] up(ts, x, k) == y;
    let k2 = choose|k: nat| 1 <= k <= ts.len() && #[trigger] up(ts, y, k) == z;
    lemma_up_compose(ts, x, k1, k2);
    lemma_reach_within_len(ts, x, z, k1 + k2);
}

/// A walk that does not collect closed tasks never collects any.
proof fn lemma_walk_collects_nothing(
    ts: Seq<TaskV>,
    cur: Seq<char>,
    target: Option<Seq<char>>,
    seen: Seq<Seq<char>>,
    closed: Seq<Seq<char>>,
)
    ensures
        walk(ts, cur, target, false, seen, closed) matches Walk::Top(c) ==> c == closed,
    decreases ts.len() - seen.len(),
{
    if target != Some(cur) && !seen.contains(cur) && has_task(ts, cur) && seen.len() < ts.len() {
        match task_of(ts, cur).parent_id {
            Some(p) => lemma_walk_collects_nothing(ts, p, target, seen.push(cur), closed),
            None => {},
        }
    }
}

/// In a store without cycles whose parents all exist, the walk up from `p0`
/// (here at `cur`) reaches a top-level task unless it meets the target,
/// which it does not when the target is not `p0` or one of its ancestors.
proof fn lemma_walk_reaches_top(
    ts: Seq<TaskV>,
    p0: Seq<char>,
    cur: Seq<char>,
    target: Option<Seq<char>>,
    seen: Seq<Seq<char>>,
    closed: Seq<Seq<char>>,
)
    requires
        unique_task_ids(ts),
        acyclic(ts),
        parents_exist(ts),
        has_task(ts, p0),
        has_task(ts, cur),
        task_index(ts, cur) == task_index(ts, p0) || is_desc(ts, task_index(ts, p0), task_index(ts, cur)),
        target matches Some(tid) ==> has_task(ts, tid) && task_index(ts, tid) != task_index(ts, p0) && !is_desc(
            ts,
            task_index(ts, p0),
            task_index(ts, tid),
        ),
        seen.no_duplicates(),
        forall|k: int|
            0 <= k < seen.len() ==> has_task(ts, #[trigger] seen[k]) && is_desc(
                ts,
                task_index(ts, seen[k]),
                task_index(ts, cur),
            ),
    ensures
        walk(ts, cur, target, false, seen, closed) == Walk::Top(closed),
    decreases ts.len() - seen.len(),
{
    let ci = task_index(ts, cur);
    let p0i = task_index(ts, p0);
    assert(0 <= ci < ts.len() && ts[ci].id == cur);
    assert(0 <= p0i < ts.len() && ts[p0i].id == p0);
    if target == Some(cur) {
        assert(task_index(ts, target->0) == ci);
    }
    if seen.contains(cur) {
        let k = choose|k: int| 0 <= k < seen.len() && seen[k] == cur;
        assert(is_desc(ts, task_index(ts, seen[k]), ci));
        assert(!is_desc(ts, ci, ci));
    }
    if seen.len() >= ts.len() {
        lemma_seen_shorter(ts, seen, cur);
    }
    let t = task_of(ts, cur);
    match t.parent_id {
        None => {},
        Some(q) => {
            assert(has_task(ts, q));
            let qi = task_index(ts, q);
            assert(0 <= qi < ts.len() && ts[qi].id == q);
            assert(up(ts, ci, 0) == ci);
            assert(up(ts, ci, 1) == pidx(ts, ci));
            assert(is_desc(ts, ci, qi));
            if ci != p0i {
                lemma_desc_trans(ts, p0i, ci, qi);
            }
            let seen2 = seen.push(cur);
            assert(seen2.no_duplicates()) by {
                assert forall|a: int, b: int| 0 <= a < seen2.len() && 0 <= b < seen2.len() && a != b implies seen2[a] != seen2[b] by {
                    if a < seen.len() && b < seen.len() {
                        assert(seen2[a] == seen[a] && seen2[b] == seen[b]);
                    } else if a == seen.len() {
                        assert(seen2[b] == seen[b]);
                    } else {
                        assert(seen2[a] == seen[a]);
                    }
                }
            }
            assert forall|k: int| 0 <= k < seen2.len() implies has_task(ts, #[trigger] seen2[k]) && is_desc(
                ts,
                task_index(ts, seen2[k]),
                task_index(ts, q),
            ) by {
                if k < seen.len() {
                    assert(seen2[k] == seen[k]);
                    let sk = task_index(ts, seen[k]);
                    assert(0 <= sk < ts.len() && ts[sk].id == seen[k]);
                    lemma_desc_trans(ts, sk, ci, qi);
                } else {
                    assert(seen2[k] == cur);
                }
            }
            lemma_walk_reaches_top(ts, p0, q, target, seen2, closed);
        },
    }
}

/// Moving a task that is done or cancelled is never refused for closed
/// ancestors: only an open task must stay under open tasks.
pub proof fn law_closed_task_ignores_closed_ancestors(s: StoreV, id: Seq<char>, p: Option<Seq<char>>, at: Seq<char>)
    requires
        s.wf(),
        has_task(s.tasks, id),
        closed_status(s.tasks[task_index(s.tasks, id)].status),
    ensures
        !(set_parent_spec(s, id, p, at).1 matches Err(ErrorV::ClosedAncestor { .. })),
{
    match p {
        Some(q) => lemma_walk_collects_nothing(s.tasks, q, Some(id), seq![], seq![]),
        None => {},
    }
}

/// In a store without cycles whose parents all exist, a task that is done
/// or cancelled can be moved below any existing task that is not itself or
/// below it, whatever the statuses of that task and its ancestors: the move
/// succeeds and the task, as returned and as stored, has the new parent.
pub proof fn law_closed_task_moves_below_any_task(s: StoreV, id: Seq<char>, p: Seq<char>, at: Seq<char>)
    requires
        s.wf(),
        acyclic(s.tasks),
        parents_exist(s.tasks),
        has_task(s.tasks, id),
        closed_status(s.tasks[task_index(s.tasks, id)].status),
        has_task(s.tasks, p),
        !blank(p),
        task_index(s.tasks, p) != task_index(s.tasks, id),
        !is_desc(s.tasks, task_index(s.tasks, p), task_index(s.tasks, id)),
        s.room(1),
    ensures
        set_parent_spec(s, id, Some(p), at).1 is Ok,
        set_parent_spec(s, id, Some(p), at).1->Ok_0.0.parent_id == Some(p),
        set_parent_spec(s, id, Some(p), at).0.tasks[task_index(s.tasks, id)] == set_parent_spec(
            s,
            id,
            Some(p),
            at,
        ).1->Ok_0.0,
{
    let ts = s.tasks;
    let i = task_index(ts, id);
    assert(0 <= i < ts.len() && ts[i].id == id);
    lemma_walk_reaches_top(ts, p, p, Some(id), seq![], seq![]);
}

/// A closing operation that closes the task leaves each of its open
/// descendants (there are some only when it cascades) with the status asked
/// for, the reasons of the operation, the closing time
/// of this call and its business fields as they were.
pub proof fn law_cascade_sets_status_and_reasons(s: StoreV, id: Seq<char>, a: Transition, at: Seq<char>, d: int)
    requires
        s.wf(),
        transition_spec(s, id, a, at).1 is Ok,
        transition_spec(s, id, a, at).1->Ok_0.1,
        open_desc_of(s.tasks, task_index(s.tasks, id), d),
        s.tasks[task_index(s.tasks, id)].status != asked_status(a),
        a is Done || a is Cancel,
    ensures
        ({
            let t = transition_spec(s, id, a, at).0.tasks[d];
            &&& t.status == asked_status(a)
            &&& t.blocked_reason is None
            &&& t.cancel_reason == match a {
                Transition::Cancel { reason, .. } => opt_view(reason),
                _ => None,
            }
            &&& t.closed_at == Some(at)
            &&& t.updated_at == at
            &&& same_business_fields(t, s.tasks[d])
        }),
{
    lemma_transition_tasks(s, id, a, at);
    lemma_status_literals();
    let i = task_index(s.tasks, id);
    let ds = reached(s, i, a);
    if !ds.contains(d) {
        assert(closed_status(target_status(a)));
        assert(open_desc_list(s.tasks, i, ds));
    }
    assert(0 <= d < s.tasks.len());
}

/// A successful move leaves the task, as returned and as stored, with the
/// parent asked for and every other field but its update time as it was,
/// and reports `changed` exactly when the parent differs from before.
pub proof fn law_set_parent_sets_the_parent(s: StoreV, id: Seq<char>, p: Option<Seq<char>>, at: Seq<char>)
    requires
        s.wf(),
        set_parent_spec(s, id, p, at).1 is Ok,
    ensures
        has_task(s.tasks, id),
        ({
            let s1 = set_parent_spec(s, id, p, at).0;
            let r = set_parent_spec(s, id, p, at).1->Ok_0;
            let i = task_index(s.tasks, id);
            let before = s.tasks[i];
            let t = r.0;
            &&& 0 <= i < s.tasks.len()
            &&& s1.tasks[i] == t
            &&& t.parent_id == p
            &&& t.id == id
            &&& t.title == before.title && t.description == before.description && t.category == before.category
            &&& t.project == before.project && t.sources == before.sources && t.status == before.status
            &&& t.blocked_reason == before.blocked_reason && t.cancel_reason == before.cancel_reason
            &&& t.created_at == before.created_at && t.closed_at == before.closed_at
            &&& t.creation_token == before.creation_token
            &&& r.1 == (before.parent_id != p)
            &&& r.1 ==> t.updated_at == at
        }),
{
    let i = task_index(s.tasks, id);
    assert(0 <= i < s.tasks.len() && s.tasks[i].id == id);
}

/// A creation that makes a new task appends it, pending, with the request's
/// fields, the id given, no reasons, no closing time and both times set to
/// now, and records its creation last in the history; a creation that finds
/// its token already bound to the same request returns that task and
/// changes nothing.
pub proof fn law_create_makes_the_requested_task(s: StoreV, req: CreateTaskV, id: Seq<char>, at: Seq<char>)
    requires
        s.wf(),
        create_spec(s, req, id, at).1 is Ok,
    ensures
        ({
            let s1 = create_spec(s, req, id, at).0;
            let r = create_spec(s, req, id, at).1->Ok_0;
            let t = r.0;
            if r.1 {
                &&& s1 == s
                &&& req.creation_token is Some
                &&& exists|i: int| 0 <= i < s.tasks.len() && s.tasks[i] == t && #[trigger] s.tasks[i].creation_token == req.creation_token
            } else {
                &&& s1.tasks == s.tasks.push(t)
                &&& t.id == id
                &&& t.title == req.title
                &&& t.category == req.category
                &&& t.description == req.description
                &&& t.project == req.project
                &&& t.parent_id == req.parent_id
                &&& t.sources == req.sources
                &&& t.creation_token == req.creation_token
                &&& t.status == "pending"@
                &&& t.blocked_reason is None && t.cancel_reason is None && t.closed_at is None
                &&& t.created_at == at && t.updated_at == at
                &&& s1.history.len() == s.history.len() + 1
                &&& s1.history.last().task_id == id
                &&& s1.history.last().kind == "created"@
            }
        }),
{
    if req.creation_token is Some && has_token(s.tasks, req.creation_token->0) {
        let i = token_index(s.tasks, req.creation_token->0);
        assert(0 <= i < s.tasks.len() && s.tasks[i].creation_token == req.creation_token);
    }
}

/// Recording an association stores it last, for the task given, with the
/// id given, its texts trimmed, its channel normalized, the status given
/// and both times set to now.
pub proof fn law_add_reminder_stores_the_association(
    s: StoreV,
    task_id: Seq<char>,
    input: AddReminder,
    rid: Seq<char>,
    at: Seq<char>,
)
    requires
        s.wf(),
        add_reminder_spec(s, task_id, input, rid, at).1 is Ok,
    ensures
        ({
            let s1 = add_reminder_spec(s, task_id, input, rid, at).0;
            let m = add_reminder_spec(s, task_id, input, rid, at).1->Ok_0.0;
            &&& add_reminder_spec(s, task_id, input, rid, at).1->Ok_0.1
            &&& s1.reminders == s.reminders.push(m)
            &&& m.id == rid
            &&& m.task_id == task_id
            &&& m.external_id == trim(input.external_id@)
            &&& m.scheduled_at == trim(input.scheduled_at@)
            &&& m.timezone == trim(input.timezone@)
            &&& m.channel == channel_norm(input.channel@)
            &&& m.status == input.status@
            &&& m.created_at == at && m.updated_at == at
        }),
{
}

/// A note records its text as the body of a new last history entry of the
/// task, changes no field of the task but its update time, and returns the
/// task as stored.
pub proof fn law_note_records_the_text(s: StoreV, id: Seq<char>, body: Seq<char>, at: Seq<char>)
    requires
        s.wf(),
        note_spec(s, id, body, at).1 is Ok,
    ensures
        has_task(s.tasks, id),
        ({
            let s1 = note_spec(s, id, body, at).0;
            let t = note_spec(s, id, body, at).1->Ok_0.0;
            let i = task_index(s.tasks, id);
            &&& s1.tasks[i] == t
            &&& t == TaskV { updated_at: at, ..s.tasks[i] }
            &&& s1.history.len() == s.history.len() + 1
            &&& s1.history.last().task_id == id
            &&& s1.history.last().kind == "note"@
            &&& s1.history.last().changes.body == Some(body)
        }),
{
    let i = task_index(s.tasks, id);
    assert(0 <= i < s.tasks.len() && s.tasks[i].id == id);
}

/// What a filter asks of a task, condition by condition.
pub open spec fn asked_by(t: TaskV, f: ListFilter) -> bool {
    &&& (f.statuses@.len() > 0 ==> seq_view(f.statuses@).contains(t.status))
    &&& (f.statuses@.len() == 0 && !f.all ==> (t.status == "pending"@ || t.status == "in_progress"@
        || t.status == "blocked"@))
    &&& (f.category matches Some(c) ==> t.category == c@)
    &&& (f.project matches Some(p) ==> t.project == Some(p@))
    &&& (f.search matches Some(q) ==> (has_substring(lowercase(t.title), lowercase(q@)) || (
    t.description matches Some(d) && has_substring(lowercase(d), lowercase(q@)))))
}

/// A listing shows as matches exactly the tasks that satisfy every
/// condition of the filter: each entry not marked as context satisfies
/// them, each entry marked as context does not, and every task that
/// satisfies them is listed.
pub proof fn law_list_shows_exactly_the_matches(ts: Seq<TaskV>, f: ListFilter, r: ListResult)
    requires
        unique_task_ids(ts),
        list_ok(ts, f, r),
    ensures
        forall|k: int|
            0 <= k < r.tasks@.len() ==> (#[trigger] r.tasks@[k]).context_only == !asked_by(r.tasks@[k].task@, f),
        forall|j: int|
            0 <= j < ts.len() && asked_by(#[trigger] ts[j], f) ==> exists|k: int|
                0 <= k < r.tasks@.len() && (#[trigger] r.tasks@[k]).task@ == ts[j] && !r.tasks@[k].context_only,
{
    let l = listed(ts, f);
    lemma_task_keys_distinct(ts, created_keys(ts), id_keys(ts));
    lemma_sorted_list_exists(created_keys(ts), id_keys(ts), |i: int| visible(ts, f, i));
    assert forall|t: TaskV| #[trigger] asked_by(t, f) == crate::query::matches(t, f) by {
        if f.statuses@.len() > 0 {
            assert(seq_view(f.statuses@).len() > 0);
        }
    }
    assert forall|j: int| 0 <= j < ts.len() && asked_by(#[trigger] ts[j], f) implies exists|k: int|
        0 <= k < r.tasks@.len() && (#[trigger] r.tasks@[k]).task@ == ts[j] && !r.tasks@[k].context_only by {
        assert(visible(ts, f, j));
        assert(l.contains(j));
        let k = choose|k: int| 0 <= k < l.len() && l[k] == j;
        assert(r.tasks@[k].task@ == ts[l[k]]);
    }
}

} // verus!
