//! Properties of the operations taken together: repeated operations change
//! nothing, refusals leave the store as it was, creation retries find the
//! original task, and the rules of the task tree and of reminder channels hold
//! in every state the operations reach.
use vstd::prelude::*;

use crate::reminders::channel_norm;
use crate::text::{is_ascii, is_upper_ascii, is_ws, lemma_trim_ends, lemma_trim_keeps, lowercase, lowercase_ascii_ok, trim};

use crate::edits::{edit_error, edit_spec, edited, note_spec};
use crate::error::ErrorV;
use crate::model::{closed_status, open_status, CreateTaskV, EditTask, TaskV, Transition};
use crate::parenting::set_parent_spec;
use crate::reminders::{add_reminder_spec, edit_reminder_spec, remove_reminder_spec, wechat_reminders, rem_ids, lemma_rem_keys_distinct, AddReminder, EditReminder};
use crate::reminders::ReminderV;
use crate::store::{has_reminder, reminder_index, unique_reminder_ids};
use crate::store::{has_task, lemma_index_of, task_index, task_of, unique_task_ids, unique_tokens, StoreV};
use crate::tasks::{create_spec, has_token, token_index};
use crate::transitions::{applied, cascade, reached, saved, transition_spec, target_status, is_reopen, cascades, state_refused};
use crate::tree::{is_desc, lemma_reach_within_len, lemma_up_compose, lemma_up_ended, open_desc_list, open_desc_of, open_descendants, pidx, up};
use crate::parenting::{parent_error, walk, Walk};
use crate::cli::{asks_json, dashed, find_char, scan, scanned, starts_dash, step, sub_of, ScanV};

verus! {

/// The creation data (ids, tokens and original requests of the tasks) of `s`
/// is unchanged in `s2`, which may hold more tasks after them.
pub open spec fn keeps_creation_data(s: StoreV, s2: StoreV) -> bool {
    &&& s.tasks.len() <= s2.tasks.len()
    &&& s2.requests.len() == s2.tasks.len()
    &&& forall|i: int| 0 <= i < s.tasks.len() ==> (#[trigger] s2.tasks[i]).id == s.tasks[i].id
        && s2.tasks[i].creation_token == s.tasks[i].creation_token && s2.requests[i] == s.requests[i]
}

/// Facts about `cascade`: it stores the operation's result at the positions
/// it reaches, in order, and leaves everything else.
pub proof fn lemma_cascade(s: StoreV, ts0: Seq<TaskV>, ds: Seq<int>, a: Transition, at: Seq<char>, root: Seq<char>)
    requires
        forall|k: int| 0 <= k < ds.len() ==> 0 <= #[trigger] ds[k] < s.tasks.len() && ds[k] < ts0.len(),
    ensures
        ({
            let c = cascade(s, ts0, ds, a, at, root);
            &&& c.tasks.len() == s.tasks.len()
            &&& c.requests == s.requests
            &&& c.reminders == s.reminders
            &&& c.next_history_id == s.next_history_id + ds.len()
            &&& c.history.len() == s.history.len() + ds.len()
            &&& c.history.take(s.history.len() as int) == s.history
            &&& forall|q: int| 0 <= q < s.tasks.len() && ds.contains(q) ==> #[trigger] c.tasks[q]
                == saved(ts0[q], applied(ts0[q], a), at)
            &&& forall|q: int| 0 <= q < s.tasks.len() && !ds.contains(q) ==> #[trigger] c.tasks[q] == s.tasks[q]
        }),
    decreases ds.len(),
{
    if ds.len() > 0 {
        let d = ds.drop_last();
        assert forall|k: int| 0 <= k < d.len() implies 0 <= #[trigger] d[k] < s.tasks.len() && d[k] < ts0.len() by {
            assert(d[k] == ds[k]);
        }
        lemma_cascade(s, ts0, d, a, at, root);
        let c = cascade(s, ts0, ds, a, at, root);
        let p = cascade(s, ts0, d, a, at, root);
        let j = ds.last();
        assert(ds[ds.len() - 1] == j);
        assert(c.history.take(s.history.len() as int) =~= p.history.take(s.history.len() as int));
        assert forall|q: int| 0 <= q < s.tasks.len() && ds.contains(q) implies #[trigger] c.tasks[q]
            == saved(ts0[q], applied(ts0[q], a), at) by {
            if q != j {
                let w = choose|w: int| 0 <= w < ds.len() && ds[w] == q;
                assert(w != ds.len() - 1);
                assert(d[w] == q);
                assert(d.contains(q));
            }
        }
        assert forall|q: int| 0 <= q < s.tasks.len() && !ds.contains(q) implies #[trigger] c.tasks[q] == s.tasks[q] by {
            assert(q != j);
            if d.contains(q) {
                let w = choose|w: int| 0 <= w < d.len() && d[w] == q;
                assert(ds[w] == q);
            }
        }
    }
}

/// Positions `i` and the ids of every task are kept by a transition.
pub proof fn lemma_transition_frame(s: StoreV, id: Seq<char>, a: Transition, at: Seq<char>)
    requires
        s.wf(),
        transition_spec(s, id, a, at).1 is Ok,
    ensures
        ({
            let s1 = transition_spec(s, id, a, at).0;
            let i = task_index(s.tasks, id);
            &&& has_task(s.tasks, id)
            &&& 0 <= i < s.tasks.len()
            &&& s1.tasks.len() == s.tasks.len()
            &&& s1.requests == s.requests
            &&& s1.reminders == s.reminders
            &&& forall|q: int| 0 <= q < s.tasks.len() ==> (#[trigger] s1.tasks[q]).id == s.tasks[q].id
                && s1.tasks[q].creation_token == s.tasks[q].creation_token
            &&& transition_spec(s, id, a, at).1->Ok_0.1 ==> s1.tasks[i] == saved(s.tasks[i], applied(s.tasks[i], a), at)
            &&& !transition_spec(s, id, a, at).1->Ok_0.1 ==> s1 == s
        }),
{
    let i = task_index(s.tasks, id);
    let before = s.tasks[i];
    if applied(before, a) != before {
        let ds = reached(s, i, a);
        let s1 = crate::transitions::save_at(s, i, before, a, at, None);
        if closed_status(target_status(a)) && before.status != target_status(a) {
            assert(crate::tree::open_desc_list(s.tasks, i, crate::tree::open_descendants(s.tasks, i))) by {
                lemma_open_descendants_exist(s.tasks, i);
            }
        }
        assert forall|k: int| 0 <= k < ds.len() implies 0 <= #[trigger] ds[k] < s1.tasks.len() && ds[k] < s.tasks.len() by {
            if ds.len() > 0 {
                assert(closed_status(target_status(a)) && before.status != target_status(a));
            }
        }
        lemma_cascade(s1, s.tasks, ds, a, at, id);
    }
}

/// The open descendants of a task always exist as an ordered list.
pub proof fn lemma_open_descendants_exist(ts: Seq<TaskV>, a: int)
    requires
        unique_task_ids(ts),
    ensures
        crate::tree::open_desc_list(ts, a, crate::tree::open_descendants(ts, a)),
{
    let k1 = crate::tree::id_keys(ts);
    let k2 = crate::tree::no_keys(ts.len());
    let p = |d: int| crate::tree::open_desc_of(ts, a, d);
    crate::tree::lemma_id_keys_distinct(ts, k1, k2);
    crate::sorting::lemma_sorted_list_exists(k1, k2, p);
    let s = crate::sorting::sorted_list(k1, k2, p);
    assert(crate::tree::open_desc_list(ts, a, s));
}

/// Repeating a status operation that succeeded changes nothing: the second
/// run reports no change, affects no task and records no history.
pub proof fn law_transition_repeat_is_noop(s: StoreV, id: Seq<char>, a: Transition, at1: Seq<char>, at2: Seq<char>)
    requires
        s.wf(),
        transition_spec(s, id, a, at1).1 is Ok,
    ensures
        ({
            let s1 = transition_spec(s, id, a, at1).0;
            let t1 = transition_spec(s, id, a, at1).1->Ok_0.0;
            transition_spec(s1, id, a, at2) == (s1, Ok::<(TaskV, bool, Seq<Seq<char>>), ErrorV>((t1, false, seq![])))
        }),
{
    lemma_transition_frame(s, id, a, at1);
    let s1 = transition_spec(s, id, a, at1).0;
    let i = task_index(s.tasks, id);
    lemma_index_of(s.tasks, i);
    assert(unique_task_ids(s1.tasks)) by {
        assert forall|x: int, y: int| 0 <= x < s1.tasks.len() && 0 <= y < s1.tasks.len() && x != y implies (#[trigger] s1.tasks[x]).id != (#[trigger] s1.tasks[y]).id by {
            assert(s.tasks[x].id != s.tasks[y].id);
        }
    }
    assert(s1.tasks[i].id == id);
    lemma_index_of(s1.tasks, i);
    let t1 = s1.tasks[i];
    reveal_strlit("pending");
    reveal_strlit("done");
    reveal_strlit("cancelled");
    assert(t1.status == target_status(a));
    assert(!crate::transitions::state_refused(t1.status, a));
    assert(!(is_reopen(a) && closed_status(t1.status)));
    assert(applied(t1, a) == t1);
    assert(t1 == transition_spec(s, id, a, at1).1->Ok_0.0);
}

/// Applying the same edit twice: the second run changes nothing.
pub proof fn law_edit_repeat_is_noop(s: StoreV, id: Seq<char>, e: EditTask, at1: Seq<char>, at2: Seq<char>)
    requires
        s.wf(),
        edit_spec(s, id, e, at1).1 is Ok,
    ensures
        ({
            let s1 = edit_spec(s, id, e, at1).0;
            let t1 = edit_spec(s, id, e, at1).1->Ok_0.0;
            edit_spec(s1, id, e, at2) == (s1, Ok::<(TaskV, bool), ErrorV>((t1, false)))
        }),
{
    let i = task_index(s.tasks, id);
    lemma_index_of(s.tasks, i);
    let s1 = edit_spec(s, id, e, at1).0;
    assert(s1.tasks.len() == s.tasks.len());
    assert(unique_task_ids(s1.tasks)) by {
        assert forall|x: int, y: int| 0 <= x < s1.tasks.len() && 0 <= y < s1.tasks.len() && x != y implies (#[trigger] s1.tasks[x]).id != (#[trigger] s1.tasks[y]).id by {
            assert(s.tasks[x].id != s.tasks[y].id);
            assert(s1.tasks[x].id == s.tasks[x].id);
            assert(s1.tasks[y].id == s.tasks[y].id);
        }
    }
    assert(s1.tasks[i].id == id);
    lemma_index_of(s1.tasks, i);
    let t1 = s1.tasks[i];
    assert(edited(t1, e) == t1);
}

/// Setting the parent that a task already has changes nothing; in
/// particular a successful move repeated is a no-op.
pub proof fn law_set_parent_repeat_is_noop(s: StoreV, id: Seq<char>, p: Option<Seq<char>>, at1: Seq<char>, at2: Seq<char>)
    requires
        s.wf(),
        set_parent_spec(s, id, p, at1).1 is Ok,
    ensures
        ({
            let s1 = set_parent_spec(s, id, p, at1).0;
            let t1 = set_parent_spec(s, id, p, at1).1->Ok_0.0;
            set_parent_spec(s1, id, p, at2) == (s1, Ok::<(TaskV, bool), ErrorV>((t1, false)))
        }),
{
    let i = task_index(s.tasks, id);
    lemma_index_of(s.tasks, i);
    let s1 = set_parent_spec(s, id, p, at1).0;
    assert(unique_task_ids(s1.tasks)) by {
        assert forall|x: int, y: int| 0 <= x < s1.tasks.len() && 0 <= y < s1.tasks.len() && x != y implies (#[trigger] s1.tasks[x]).id != (#[trigger] s1.tasks[y]).id by {
            assert(s.tasks[x].id != s.tasks[y].id);
            assert(s1.tasks[x].id == s.tasks[x].id);
            assert(s1.tasks[y].id == s.tasks[y].id);
        }
    }
    lemma_index_of(s1.tasks, i);
}

/// A retry with a token that is bound to the same original request returns
/// the task as it is now and changes nothing; a different request with that
/// token is refused as a conflict and changes nothing.
pub proof fn law_create_retry(s: StoreV, req: CreateTaskV, other: CreateTaskV, id: Seq<char>, at: Seq<char>)
    requires
        s.wf(),
        req.creation_token is Some,
        has_token(s.tasks, req.creation_token->0),
        s.requests[token_index(s.tasks, req.creation_token->0)] == req,
        other.creation_token == req.creation_token,
        other != req,
    ensures
        ({
            let k = token_index(s.tasks, req.creation_token->0);
            &&& create_spec(s, req, id, at) == (s, Ok::<(TaskV, bool), ErrorV>((s.tasks[k], true)))
            &&& create_spec(s, other, id, at) == (s, Err::<(TaskV, bool), ErrorV>(ErrorV::CreationTokenConflict {
                creation_token: req.creation_token->0,
                task_id: s.tasks[k].id,
            }))
        }),
{
}

/// A task created with a token is found again by that token and request.
pub proof fn law_create_then_retry(s: StoreV, req: CreateTaskV, id1: Seq<char>, at1: Seq<char>, id2: Seq<char>, at2: Seq<char>)
    requires
        s.wf(),
        req.creation_token is Some,
        create_spec(s, req, id1, at1).1 is Ok,
    ensures
        ({
            let s1 = create_spec(s, req, id1, at1).0;
            let t1 = create_spec(s, req, id1, at1).1->Ok_0.0;
            create_spec(s1, req, id2, at2) == (s1, Ok::<(TaskV, bool), ErrorV>((t1, true)))
        }),
{
    let tok = req.creation_token->0;
    let s1 = create_spec(s, req, id1, at1).0;
    if !has_token(s.tasks, tok) {
        let n = s.tasks.len();
        assert(s1.tasks[n as int].creation_token == Some(tok));
        assert(has_token(s1.tasks, tok));
        let k = token_index(s1.tasks, tok);
        if k != n {
            assert(s1.tasks[k] == s.tasks[k]);
            assert(has_token(s.tasks, tok));
        }
    }
}

/// Operations other than creation keep the ids, tokens and original requests
/// of all tasks, so a later creation retry still finds its task.
pub proof fn law_creation_data_is_kept(
    s: StoreV,
    id: Seq<char>,
    a: Transition,
    e: EditTask,
    p: Option<Seq<char>>,
    body: Seq<char>,
    rid: Seq<char>,
    add: AddReminder,
    er: EditReminder,
    at: Seq<char>,
)
    requires
        s.wf(),
    ensures
        keeps_creation_data(s, transition_spec(s, id, a, at).0),
        keeps_creation_data(s, edit_spec(s, id, e, at).0),
        keeps_creation_data(s, set_parent_spec(s, id, p, at).0),
        keeps_creation_data(s, note_spec(s, id, body, at).0),
        keeps_creation_data(s, add_reminder_spec(s, id, add, rid, at).0),
        keeps_creation_data(s, edit_reminder_spec(s, rid, er, at).0),
        keeps_creation_data(s, remove_reminder_spec(s, rid, at).0),
{
    if transition_spec(s, id, a, at).1 is Ok {
        lemma_transition_frame(s, id, a, at);
    }
    let i = task_index(s.tasks, id);
    if has_task(s.tasks, id) {
        lemma_index_of(s.tasks, i);
    }
}

/// Every task has one of the five statuses.
pub open spec fn statuses_valid(ts: Seq<TaskV>) -> bool {
    forall|j: int| 0 <= j < ts.len() ==> crate::model::valid_status(#[trigger] ts[j].status)
}

/// No status is both open and closed.
pub proof fn lemma_status_literals()
    ensures
        forall|x: Seq<char>| open_status(x) ==> !closed_status(x),
{
    reveal_strlit("pending");
    reveal_strlit("in_progress");
    reveal_strlit("blocked");
    reveal_strlit("done");
    reveal_strlit("cancelled");
    assert forall|x: Seq<char>| open_status(x) implies !closed_status(x) by {
        assert("pending"@.len() == 7);
        assert("blocked"@.len() == 7);
        assert("in_progress"@.len() == 11);
        assert("done"@.len() == 4);
        assert("cancelled"@.len() == 9);
    }
}

/// No open task has a closed parent.
pub open spec fn open_under_open(ts: Seq<TaskV>) -> bool {
    forall|j: int|
        0 <= j < ts.len() && open_status(ts[j].status) && #[trigger] pidx(ts, j) >= 0 ==> !closed_status(
            ts[pidx(ts, j)].status,
        )
}

/// Two task lists with the same ids and parent ids at every position.
pub open spec fn same_shape(ts: Seq<TaskV>, ts2: Seq<TaskV>) -> bool {
    &&& ts.len() == ts2.len()
    &&& forall|q: int| 0 <= q < ts.len() ==> (#[trigger] ts2[q]).id == ts[q].id && ts2[q].parent_id == ts[q].parent_id
}

pub proof fn lemma_same_shape(ts: Seq<TaskV>, ts2: Seq<TaskV>)
    requires
        unique_task_ids(ts),
        same_shape(ts, ts2),
    ensures
        unique_task_ids(ts2),
        forall|j: int| 0 <= j < ts.len() ==> #[trigger] pidx(ts2, j) == pidx(ts, j),
{
    assert forall|x: int, y: int| 0 <= x < ts2.len() && 0 <= y < ts2.len() && x != y implies (#[trigger] ts2[x]).id != (#[trigger] ts2[y]).id by {
        assert(ts[x].id != ts[y].id);
    }
    assert forall|j: int| 0 <= j < ts.len() implies #[trigger] pidx(ts2, j) == pidx(ts, j) by {
        match ts[j].parent_id {
            Some(p) => {
                if has_task(ts, p) {
                    let k = task_index(ts, p);
                    assert(ts2[k].id == p);
                    let k2 = task_index(ts2, p);
                    assert(ts2[k2].id == p);
                    assert(ts[k2].id == p);
                } else {
                    if has_task(ts2, p) {
                        let k2 = task_index(ts2, p);
                        assert(ts[k2].id == p);
                    }
                }
            },
            None => {},
        }
    }
}

/// The closed ids a walk collects only grow.
pub proof fn lemma_walk_grows(
    ts: Seq<TaskV>,
    cur: Seq<char>,
    target: Option<Seq<char>>,
    need_open: bool,
    seen: Seq<Seq<char>>,
    closed: Seq<Seq<char>>,
)
    ensures
        walk(ts, cur, target, need_open, seen, closed) matches Walk::Top(c) ==> closed.len() <= c.len(),
    decreases ts.len() - seen.len(),
{
    if target != Some(cur) && !seen.contains(cur) && has_task(ts, cur) && seen.len() < ts.len() {
        let t = crate::store::task_of(ts, cur);
        let closed2 = if need_open && closed_status(t.status) {
            closed.push(cur)
        } else {
            closed
        };
        match t.parent_id {
            None => {},
            Some(p) => {
                lemma_walk_grows(ts, p, target, need_open, seen.push(cur), closed2);
            },
        }
    }
}

/// A parent accepted for an open task exists and is not closed.
pub proof fn lemma_accepted_parent(ts: Seq<TaskV>, p: Seq<char>, target: Option<Seq<char>>)
    requires
        parent_error(ts, p, target, true) is None,
    ensures
        has_task(ts, p),
        !closed_status(ts[task_index(ts, p)].status),
{
    let t = crate::store::task_of(ts, p);
    let closed2 = if closed_status(t.status) {
        seq![p]
    } else {
        Seq::<Seq<char>>::empty()
    };
    assert(seq![].push(p) == seq![p]);
    match t.parent_id {
        None => {},
        Some(q) => {
            lemma_walk_grows(ts, q, target, true, seq![p], closed2);
        },
    }
    if has_task(ts, p) && ts.len() > 0 {
        assert(!Seq::<Seq<char>>::empty().contains(p));
    }
}

/// What a successful, changing transition does to each task.
pub proof fn lemma_transition_tasks(s: StoreV, id: Seq<char>, a: Transition, at: Seq<char>)
    requires
        s.wf(),
        transition_spec(s, id, a, at).1 is Ok,
        transition_spec(s, id, a, at).1->Ok_0.1,
    ensures
        ({
            let s1 = transition_spec(s, id, a, at).0;
            let i = task_index(s.tasks, id);
            let ds = reached(s, i, a);
            &&& forall|q: int| 0 <= q < s.tasks.len() ==> #[trigger] s1.tasks[q] == if q == i || ds.contains(q) {
                saved(s.tasks[q], applied(s.tasks[q], a), at)
            } else {
                s.tasks[q]
            }
            &&& s1.tasks.len() == s.tasks.len()
            &&& cascades(a) || ds.len() == 0
            &&& (closed_status(target_status(a)) && s.tasks[i].status != target_status(a)) ==> open_desc_list(s.tasks, i, ds)
            &&& !(closed_status(target_status(a)) && s.tasks[i].status != target_status(a)) ==> ds.len() == 0
        }),
{
    let i = task_index(s.tasks, id);
    let before = s.tasks[i];
    let ds = reached(s, i, a);
    if closed_status(target_status(a)) && before.status != target_status(a) {
        crate::laws::lemma_open_descendants_exist(s.tasks, i);
    }
    let s1 = crate::transitions::save_at(s, i, before, a, at, None);
    lemma_cascade(s1, s.tasks, ds, a, at, id);
}

/// Status operations keep every open task under a parent that is not closed.
pub proof fn law_transition_keeps_open_parents(s: StoreV, id: Seq<char>, a: Transition, at: Seq<char>)
    requires
        s.wf(),
        open_under_open(s.tasks),
        statuses_valid(s.tasks),
    ensures
        open_under_open(transition_spec(s, id, a, at).0.tasks),
        statuses_valid(transition_spec(s, id, a, at).0.tasks),
{
    lemma_status_literals();
    let ts = s.tasks;
    let s1 = transition_spec(s, id, a, at).0;
    if transition_spec(s, id, a, at).1 is Ok && transition_spec(s, id, a, at).1->Ok_0.1 {
        lemma_transition_frame(s, id, a, at);
        lemma_transition_tasks(s, id, a, at);
        let i = task_index(ts, id);
        let before = ts[i];
        let ds = reached(s, i, a);
        let tgt = target_status(a);
        let t1 = s1.tasks;
        assert(same_shape(ts, t1));
        lemma_same_shape(ts, t1);
        reveal_strlit("pending");
        reveal_strlit("in_progress");
        reveal_strlit("blocked");
        reveal_strlit("done");
        reveal_strlit("cancelled");
        let closing = closed_status(tgt);
        assert forall|j: int| 0 <= j < t1.len() && open_status(t1[j].status) && #[trigger] pidx(t1, j) >= 0 implies !closed_status(t1[pidx(t1, j)].status) by {
            let q = pidx(ts, j);
            assert(pidx(t1, j) == q);
            crate::tree::lemma_pidx_range(ts, j);
            let changed_j = j == i || ds.contains(j);
            let changed_q = q == i || ds.contains(q);
            if changed_j {
                assert(t1[j].status == tgt);
                assert(!closing);
                assert(ds.len() == 0);
                assert(j == i);
                if q != i {
                    assert(t1[q] == ts[q]);
                    if closed_status(before.status) {
                        assert(is_reopen(a));
                        let p = before.parent_id->0;
                        assert(before.parent_id is Some);
                        assert(parent_error(ts, p, None, true) is None);
                        lemma_accepted_parent(ts, p, None);
                    } else {
                        assert(open_status(ts[i].status));
                    }
                }
            } else {
                assert(t1[j] == ts[j]);
                if changed_q {
                    if closing {
                        if before.status == tgt {
                            assert(ds.len() == 0);
                            assert(q == i);
                            assert(closed_status(ts[q].status));
                        } else {
                            assert(open_desc_list(ts, i, ds));
                            if q == i {
                                assert(up(ts, j, 0) == j);
                                assert(up(ts, j, 1) == i);
                                assert(is_desc(ts, j, i));
                            } else {
                                assert(ds.contains(q));
                                assert(open_desc_of(ts, i, q));
                                let k = choose|k: nat| 1 <= k <= ts.len() && #[trigger] up(ts, q, k) == i;
                                lemma_up_compose(ts, j, 1, k);
                                assert(up(ts, j, 0) == j);
                                assert(up(ts, j, 1) == q);
                                lemma_reach_within_len(ts, j, i, 1 + k);
                            }
                            assert(open_desc_of(ts, i, j));
                            assert(ds.contains(j));
                        }
                    } else {
                        assert(ds.len() == 0);
                        assert(t1[q].status == tgt);
                    }
                } else {
                    assert(t1[q] == ts[q]);
                }
            }
        }
        assert forall|j: int| 0 <= j < t1.len() implies crate::model::valid_status(#[trigger] t1[j].status) by {
            if j == i || ds.contains(j) {
                assert(t1[j].status == tgt);
            } else {
                assert(t1[j] == ts[j]);
            }
        }
        assert forall|j: int| 0 <= j < t1.len() implies crate::model::valid_status(#[trigger] t1[j].status) by {
            if j == i || ds.contains(j) {
                assert(t1[j].status == tgt);
            } else {
                assert(t1[j] == ts[j]);
            }
        }
    }
}

/// Lists with the same ids find the same positions.
pub proof fn lemma_same_ids(ts: Seq<TaskV>, ts2: Seq<TaskV>)
    requires
        unique_task_ids(ts),
        ts.len() == ts2.len(),
        forall|q: int| 0 <= q < ts.len() ==> (#[trigger] ts2[q]).id == ts[q].id,
    ensures
        unique_task_ids(ts2),
        forall|p: Seq<char>| #[trigger] has_task(ts2, p) == has_task(ts, p),
        forall|p: Seq<char>| has_task(ts, p) ==> #[trigger] task_index(ts2, p) == task_index(ts, p),
{
    assert forall|x: int, y: int| 0 <= x < ts2.len() && 0 <= y < ts2.len() && x != y implies (#[trigger] ts2[x]).id != (#[trigger] ts2[y]).id by {
        assert(ts[x].id != ts[y].id);
    }
    assert forall|p: Seq<char>| #[trigger] has_task(ts2, p) == has_task(ts, p) by {
        if has_task(ts, p) {
            let k = choose|k: int| 0 <= k < ts.len() && (#[trigger] ts[k]).id == p;
            assert(ts2[k].id == p);
        }
        if has_task(ts2, p) {
            let k = choose|k: int| 0 <= k < ts2.len() && (#[trigger] ts2[k]).id == p;
            assert(ts[k].id == p);
        }
    }
    assert forall|p: Seq<char>| has_task(ts, p) implies #[trigger] task_index(ts2, p) == task_index(ts, p) by {
        let k = task_index(ts, p);
        let k2 = task_index(ts2, p);
        assert(has_task(ts2, p));
        assert(ts[k2].id == p);
    }
}

/// Positions after appending a task with a new id.
pub proof fn lemma_push_index(ts: Seq<TaskV>, t: TaskV)
    requires
        unique_task_ids(ts),
        !has_task(ts, t.id),
    ensures
        unique_task_ids(ts.push(t)),
        forall|p: Seq<char>| has_task(ts, p) ==> #[trigger] task_index(ts.push(t), p) == task_index(ts, p),
        has_task(ts.push(t), t.id),
        task_index(ts.push(t), t.id) == ts.len(),
        forall|p: Seq<char>| #[trigger] has_task(ts.push(t), p) == (has_task(ts, p) || p == t.id),
{
    let ts2 = ts.push(t);
    let n = ts.len() as int;
    assert forall|x: int, y: int| 0 <= x < ts2.len() && 0 <= y < ts2.len() && x != y implies (#[trigger] ts2[x]).id != (#[trigger] ts2[y]).id by {
        if x < n && y < n {
            assert(ts[x].id != ts[y].id);
        } else if x == n {
            assert(ts[y].id == ts2[y].id);
        } else {
            assert(ts[x].id == ts2[x].id);
        }
    }
    assert(ts2[n].id == t.id);
    lemma_index_of(ts2, n);
    assert forall|p: Seq<char>| has_task(ts, p) implies #[trigger] task_index(ts2, p) == task_index(ts, p) by {
        let k = task_index(ts, p);
        assert(ts2[k].id == p);
        lemma_index_of(ts2, k);
    }
    assert forall|p: Seq<char>| #[trigger] has_task(ts2, p) == (has_task(ts, p) || p == t.id) by {
        if has_task(ts2, p) {
            let k = choose|k: int| 0 <= k < ts2.len() && (#[trigger] ts2[k]).id == p;
            if k < n {
                assert(ts[k].id == p);
            }
        }
        if has_task(ts, p) {
            let k = choose|k: int| 0 <= k < ts.len() && (#[trigger] ts[k]).id == p;
            assert(ts2[k].id == p);
        }
    }
}

/// Creating a task keeps every open task under a parent that is not closed.
pub proof fn law_create_keeps_open_parents(s: StoreV, req: CreateTaskV, id: Seq<char>, at: Seq<char>)
    requires
        s.wf(),
        open_under_open(s.tasks),
        statuses_valid(s.tasks),
    ensures
        open_under_open(create_spec(s, req, id, at).0.tasks),
        statuses_valid(create_spec(s, req, id, at).0.tasks),
{
    lemma_status_literals();
    let ts = s.tasks;
    let s1 = create_spec(s, req, id, at).0;
    if s1 != s {
        let t = crate::tasks::new_task(req, id, at);
        let ts2 = ts.push(t);
        assert(s1.tasks == ts2);
        lemma_push_index(ts, t);
        let n = ts.len() as int;
        reveal_strlit("pending");
        reveal_strlit("done");
        reveal_strlit("cancelled");
        assert(!closed_status(t.status));
        assert forall|j: int| 0 <= j < ts2.len() && open_status(ts2[j].status) && #[trigger] pidx(ts2, j) >= 0 implies !closed_status(ts2[pidx(ts2, j)].status) by {
            if j < n {
                assert(ts2[j] == ts[j]);
                match ts[j].parent_id {
                    Some(p) => {
                        if has_task(ts, p) {
                            assert(pidx(ts2, j) == pidx(ts, j));
                            assert(ts2[pidx(ts, j)] == ts[pidx(ts, j)]);
                        } else {
                            assert(p == t.id);
                        }
                    },
                    None => {},
                }
            } else {
                let p = req.parent_id->0;
                assert(req.parent_id is Some);
                lemma_accepted_parent(ts, p, None);
                assert(pidx(ts2, j) == task_index(ts, p));
            }
        }
        assert forall|j: int| 0 <= j < ts2.len() implies crate::model::valid_status(#[trigger] ts2[j].status) by {
            if j < n {
                assert(ts2[j] == ts[j]);
            }
        }
    }
}

/// Moving a task keeps every open task under a parent that is not closed.
pub proof fn law_set_parent_keeps_open_parents(s: StoreV, id: Seq<char>, p: Option<Seq<char>>, at: Seq<char>)
    requires
        s.wf(),
        open_under_open(s.tasks),
        statuses_valid(s.tasks),
    ensures
        open_under_open(set_parent_spec(s, id, p, at).0.tasks),
        statuses_valid(set_parent_spec(s, id, p, at).0.tasks),
{
    lemma_status_literals();
    let ts = s.tasks;
    let s1 = set_parent_spec(s, id, p, at).0;
    if s1 != s {
        let i = task_index(ts, id);
        lemma_index_of(ts, i);
        let ts2 = s1.tasks;
        lemma_same_ids(ts, ts2);
        assert forall|j: int| 0 <= j < ts2.len() && open_status(ts2[j].status) && #[trigger] pidx(ts2, j) >= 0 implies !closed_status(ts2[pidx(ts2, j)].status) by {
            if j != i {
                assert(ts2[j] == ts[j]);
                match ts[j].parent_id {
                    Some(q) => {
                        assert(has_task(ts, q));
                        assert(pidx(ts2, j) == pidx(ts, j));
                    },
                    None => {},
                }
            } else {
                let q = p->0;
                assert(p is Some);
                assert(!closed_status(ts[i].status));
                lemma_accepted_parent(ts, q, Some(id));
                assert(pidx(ts2, j) == task_index(ts, q));
            }
        }
        assert forall|j: int| 0 <= j < ts2.len() implies crate::model::valid_status(#[trigger] ts2[j].status) by {
            assert(ts2[j].status == ts[j].status);
        }
    }
}

/// Edits, notes and reminder operations change no status and no parent.
pub proof fn law_other_operations_keep_tree(
    s: StoreV,
    id: Seq<char>,
    e: EditTask,
    body: Seq<char>,
    rid: Seq<char>,
    add: AddReminder,
    er: EditReminder,
    at: Seq<char>,
)
    requires
        s.wf(),
    ensures
        same_shape(s.tasks, edit_spec(s, id, e, at).0.tasks),
        same_shape(s.tasks, note_spec(s, id, body, at).0.tasks),
        same_shape(s.tasks, add_reminder_spec(s, id, add, rid, at).0.tasks),
        same_shape(s.tasks, edit_reminder_spec(s, rid, er, at).0.tasks),
        same_shape(s.tasks, remove_reminder_spec(s, rid, at).0.tasks),
        forall|j: int| 0 <= j < s.tasks.len() ==> (#[trigger] edit_spec(s, id, e, at).0.tasks[j]).status == s.tasks[j].status,
        forall|j: int| 0 <= j < s.tasks.len() ==> (#[trigger] note_spec(s, id, body, at).0.tasks[j]).status == s.tasks[j].status,
        forall|j: int| 0 <= j < s.tasks.len() ==> (#[trigger] add_reminder_spec(s, id, add, rid, at).0.tasks[j]).status == s.tasks[j].status,
        forall|j: int| 0 <= j < s.tasks.len() ==> (#[trigger] edit_reminder_spec(s, rid, er, at).0.tasks[j]).status == s.tasks[j].status,
        forall|j: int| 0 <= j < s.tasks.len() ==> (#[trigger] remove_reminder_spec(s, rid, at).0.tasks[j]).status == s.tasks[j].status,
{
    if has_task(s.tasks, id) {
        lemma_index_of(s.tasks, task_index(s.tasks, id));
    }
}

/// Every association belongs to an existing task, and no work task has a
/// `wechat` association.
pub open spec fn reminders_ok(ts: Seq<TaskV>, rs: Seq<ReminderV>) -> bool {
    forall|k: int|
        0 <= k < rs.len() ==> has_task(ts, (#[trigger] rs[k]).task_id) && (rs[k].channel == "wechat"@
            ==> ts[task_index(ts, rs[k].task_id)].category != "work"@)
}

/// With no `wechat` association listed for a task, it has none.
pub proof fn lemma_no_wechat(rs: Seq<ReminderV>, id: Seq<char>)
    requires
        unique_reminder_ids(rs),
        wechat_reminders(rs, id).len() == 0,
    ensures
        forall|k: int| 0 <= k < rs.len() ==> !((#[trigger] rs[k]).task_id == id && rs[k].channel == "wechat"@),
{
    let k1 = rem_ids(rs);
    let k2 = crate::tree::no_keys(rs.len());
    lemma_rem_keys_distinct(rs, k1, k2, false);
    let p = |j: int| rs[j].task_id == id && rs[j].channel == "wechat"@;
    crate::sorting::lemma_sorted_list_exists(k1, k2, p);
    assert forall|k: int| 0 <= k < rs.len() implies !((#[trigger] rs[k]).task_id == id && rs[k].channel == "wechat"@) by {
        if p(k) {
            assert(crate::sorting::sorted_list(k1, k2, p).contains(k));
        }
    }
}

/// Task operations and reminder operations keep every association attached
/// to its task and keep `wechat` associations off work tasks.
pub proof fn law_work_tasks_have_no_wechat(
    s: StoreV,
    id: Seq<char>,
    req: CreateTaskV,
    a: Transition,
    e: EditTask,
    p: Option<Seq<char>>,
    body: Seq<char>,
    rid: Seq<char>,
    add: AddReminder,
    er: EditReminder,
    at: Seq<char>,
)
    requires
        s.wf(),
        reminders_ok(s.tasks, s.reminders),
    ensures
        reminders_ok(create_spec(s, req, id, at).0.tasks, create_spec(s, req, id, at).0.reminders),
        reminders_ok(transition_spec(s, id, a, at).0.tasks, transition_spec(s, id, a, at).0.reminders),
        reminders_ok(edit_spec(s, id, e, at).0.tasks, edit_spec(s, id, e, at).0.reminders),
        reminders_ok(set_parent_spec(s, id, p, at).0.tasks, set_parent_spec(s, id, p, at).0.reminders),
        reminders_ok(note_spec(s, id, body, at).0.tasks, note_spec(s, id, body, at).0.reminders),
        reminders_ok(add_reminder_spec(s, id, add, rid, at).0.tasks, add_reminder_spec(s, id, add, rid, at).0.reminders),
        reminders_ok(edit_reminder_spec(s, rid, er, at).0.tasks, edit_reminder_spec(s, rid, er, at).0.reminders),
        reminders_ok(remove_reminder_spec(s, rid, at).0.tasks, remove_reminder_spec(s, rid, at).0.reminders),
{
    let ts = s.tasks;
    let rs = s.reminders;
    // creation
    let c = create_spec(s, req, id, at).0;
    if c != s {
        let t = crate::tasks::new_task(req, id, at);
        lemma_push_index(ts, t);
        assert forall|k: int| 0 <= k < c.reminders.len() implies has_task(c.tasks, (#[trigger] c.reminders[k]).task_id) && (c.reminders[k].channel == "wechat"@
            ==> c.tasks[task_index(c.tasks, c.reminders[k].task_id)].category != "work"@) by {
            assert(c.reminders[k] == rs[k]);
            assert(has_task(ts, rs[k].task_id));
            assert(c.tasks[task_index(ts, rs[k].task_id)] == ts[task_index(ts, rs[k].task_id)]);
        }
    }
    // status operations
    let tr = transition_spec(s, id, a, at).0;
    if transition_spec(s, id, a, at).1 is Ok {
        lemma_transition_frame(s, id, a, at);
        if transition_spec(s, id, a, at).1->Ok_0.1 {
            lemma_transition_tasks(s, id, a, at);
        }
        lemma_same_ids(ts, tr.tasks);
        assert forall|k: int| 0 <= k < tr.reminders.len() implies has_task(tr.tasks, (#[trigger] tr.reminders[k]).task_id) && (tr.reminders[k].channel == "wechat"@
            ==> tr.tasks[task_index(tr.tasks, tr.reminders[k].task_id)].category != "work"@) by {
            assert(tr.reminders[k] == rs[k]);
            let q = task_index(ts, rs[k].task_id);
            assert(tr.tasks[q].category == ts[q].category);
        }
    }
    // task edits, moves and notes
    if has_task(ts, id) {
        let i = task_index(ts, id);
        lemma_index_of(ts, i);
        let ed = edit_spec(s, id, e, at).0;
        if ed != s {
            lemma_same_ids(ts, ed.tasks);
            let before = ts[i];
            let after0 = crate::edits::edited(before, e);
            if after0.category == "work"@ && after0.category != before.category {
                lemma_no_wechat(rs, id);
            }
            assert forall|k: int| 0 <= k < ed.reminders.len() implies has_task(ed.tasks, (#[trigger] ed.reminders[k]).task_id) && (ed.reminders[k].channel == "wechat"@
                ==> ed.tasks[task_index(ed.tasks, ed.reminders[k].task_id)].category != "work"@) by {
                assert(ed.reminders[k] == rs[k]);
                let q = task_index(ts, rs[k].task_id);
                if q != i {
                    assert(ed.tasks[q] == ts[q]);
                }
            }
        }
        let sp = set_parent_spec(s, id, p, at).0;
        if sp != s {
            lemma_same_ids(ts, sp.tasks);
            assert forall|k: int| 0 <= k < sp.reminders.len() implies has_task(sp.tasks, (#[trigger] sp.reminders[k]).task_id) && (sp.reminders[k].channel == "wechat"@
                ==> sp.tasks[task_index(sp.tasks, sp.reminders[k].task_id)].category != "work"@) by {
                assert(sp.reminders[k] == rs[k]);
                let q = task_index(ts, rs[k].task_id);
                assert(sp.tasks[q].category == ts[q].category);
            }
        }
        let no = note_spec(s, id, body, at).0;
        if no != s {
            lemma_same_ids(ts, no.tasks);
            assert forall|k: int| 0 <= k < no.reminders.len() implies has_task(no.tasks, (#[trigger] no.reminders[k]).task_id) && (no.reminders[k].channel == "wechat"@
                ==> no.tasks[task_index(no.tasks, no.reminders[k].task_id)].category != "work"@) by {
                assert(no.reminders[k] == rs[k]);
                let q = task_index(ts, rs[k].task_id);
                assert(no.tasks[q].category == ts[q].category);
            }
        }
    }
    // reminder operations
    lemma_reminder_ops_keep(s, id, rid, add, er, at);
}

pub proof fn lemma_reminder_ops_keep(s: StoreV, id: Seq<char>, rid: Seq<char>, add: AddReminder, er: EditReminder, at: Seq<char>)
    requires
        s.wf(),
        reminders_ok(s.tasks, s.reminders),
    ensures
        reminders_ok(add_reminder_spec(s, id, add, rid, at).0.tasks, add_reminder_spec(s, id, add, rid, at).0.reminders),
        reminders_ok(edit_reminder_spec(s, rid, er, at).0.tasks, edit_reminder_spec(s, rid, er, at).0.reminders),
        reminders_ok(remove_reminder_spec(s, rid, at).0.tasks, remove_reminder_spec(s, rid, at).0.reminders),
{
    let ts = s.tasks;
    let rs = s.reminders;
    let ad = add_reminder_spec(s, id, add, rid, at).0;
    if ad != s {
        let i = task_index(ts, id);
        lemma_index_of(ts, i);
        lemma_same_ids(ts, ad.tasks);
        assert forall|k: int| 0 <= k < ad.reminders.len() implies has_task(ad.tasks, (#[trigger] ad.reminders[k]).task_id) && (ad.reminders[k].channel == "wechat"@
            ==> ad.tasks[task_index(ad.tasks, ad.reminders[k].task_id)].category != "work"@) by {
            let q = task_index(ts, ad.reminders[k].task_id);
            if k < rs.len() {
                assert(ad.reminders[k] == rs[k]);
            }
            assert(ad.tasks[q].category == ts[q].category);
        }
    }
    let edr = edit_reminder_spec(s, rid, er, at).0;
    if edr != s {
        let ri = reminder_index(rs, rid);
        let before = rs[ri];
        lemma_same_ids(ts, edr.tasks);
        assert forall|k: int| 0 <= k < edr.reminders.len() implies has_task(edr.tasks, (#[trigger] edr.reminders[k]).task_id) && (edr.reminders[k].channel == "wechat"@
            ==> edr.tasks[task_index(edr.tasks, edr.reminders[k].task_id)].category != "work"@) by {
            let q = task_index(ts, edr.reminders[k].task_id);
            if k != ri {
                assert(edr.reminders[k] == rs[k]);
            }
            assert(edr.tasks[q].category == ts[q].category);
        }
    }
    let rm = remove_reminder_spec(s, rid, at).0;
    if rm != s {
        let ri = reminder_index(rs, rid);
        lemma_same_ids(ts, rm.tasks);
        assert forall|k: int| 0 <= k < rm.reminders.len() implies has_task(rm.tasks, (#[trigger] rm.reminders[k]).task_id) && (rm.reminders[k].channel == "wechat"@
            ==> rm.tasks[task_index(rm.tasks, rm.reminders[k].task_id)].category != "work"@) by {
            let k0 = if k < ri { k } else { k + 1 };
            assert(rm.reminders[k] == rs[k0]);
            let q = task_index(ts, rs[k0].task_id);
            assert(rm.tasks[q].category == ts[q].category);
        }
    }
}

/// A refused operation leaves the store exactly as it was.
pub proof fn law_refusals_change_nothing(
    s: StoreV,
    id: Seq<char>,
    req: CreateTaskV,
    a: Transition,
    e: EditTask,
    p: Option<Seq<char>>,
    body: Seq<char>,
    rid: Seq<char>,
    add: AddReminder,
    er: EditReminder,
    at: Seq<char>,
)
    ensures
        create_spec(s, req, id, at).1 is Err ==> create_spec(s, req, id, at).0 == s,
        transition_spec(s, id, a, at).1 is Err ==> transition_spec(s, id, a, at).0 == s,
        edit_spec(s, id, e, at).1 is Err ==> edit_spec(s, id, e, at).0 == s,
        set_parent_spec(s, id, p, at).1 is Err ==> set_parent_spec(s, id, p, at).0 == s,
        note_spec(s, id, body, at).1 is Err ==> note_spec(s, id, body, at).0 == s,
        add_reminder_spec(s, id, add, rid, at).1 is Err ==> add_reminder_spec(s, id, add, rid, at).0 == s,
        edit_reminder_spec(s, rid, er, at).1 is Err ==> edit_reminder_spec(s, rid, er, at).0 == s,
        remove_reminder_spec(s, rid, at).1 is Err ==> remove_reminder_spec(s, rid, at).0 == s,
{
}

/// Operations only append to the history: what was recorded stays, in order.
pub proof fn law_history_is_append_only(
    s: StoreV,
    id: Seq<char>,
    req: CreateTaskV,
    a: Transition,
    e: EditTask,
    p: Option<Seq<char>>,
    body: Seq<char>,
    rid: Seq<char>,
    add: AddReminder,
    er: EditReminder,
    at: Seq<char>,
)
    requires
        s.wf(),
    ensures
        create_spec(s, req, id, at).0.history.take(s.history.len() as int) == s.history,
        transition_spec(s, id, a, at).0.history.take(s.history.len() as int) == s.history,
        edit_spec(s, id, e, at).0.history.take(s.history.len() as int) == s.history,
        set_parent_spec(s, id, p, at).0.history.take(s.history.len() as int) == s.history,
        note_spec(s, id, body, at).0.history.take(s.history.len() as int) == s.history,
        add_reminder_spec(s, id, add, rid, at).0.history.take(s.history.len() as int) == s.history,
        edit_reminder_spec(s, rid, er, at).0.history.take(s.history.len() as int) == s.history,
        remove_reminder_spec(s, rid, at).0.history.take(s.history.len() as int) == s.history,
{
    let n = s.history.len() as int;
    assert(s.history.take(n) =~= s.history);
    assert(create_spec(s, req, id, at).0.history.take(n) =~= s.history);
    assert(edit_spec(s, id, e, at).0.history.take(n) =~= s.history);
    assert(set_parent_spec(s, id, p, at).0.history.take(n) =~= s.history);
    assert(note_spec(s, id, body, at).0.history.take(n) =~= s.history);
    assert(add_reminder_spec(s, id, add, rid, at).0.history.take(n) =~= s.history);
    assert(edit_reminder_spec(s, rid, er, at).0.history.take(n) =~= s.history);
    assert(remove_reminder_spec(s, rid, at).0.history.take(n) =~= s.history);
    if transition_spec(s, id, a, at).1 is Ok && transition_spec(s, id, a, at).1->Ok_0.1 {
        let i = task_index(s.tasks, id);
        let before = s.tasks[i];
        let ds = reached(s, i, a);
        lemma_transition_tasks(s, id, a, at);
        lemma_transition_frame(s, id, a, at);
        if closed_status(target_status(a)) && before.status != target_status(a) {
            lemma_open_descendants_exist(s.tasks, i);
        }
        let s1 = crate::transitions::save_at(s, i, before, a, at, None);
        assert(s1.history.take(n) =~= s.history);
        lemma_cascade(s1, s.tasks, ds, a, at, id);
        let c = transition_spec(s, id, a, at).0;
        assert(c.history.take(s1.history.len() as int) == s1.history);
        assert(c.history.take(n) =~= s1.history.take(s1.history.len() as int).take(n));
    }
}

/// Closing with cascade closes every open descendant of the task, records
/// one history entry for the task and one for each of them, and changes no
/// other task.
pub proof fn law_cascade_closes_open_descendants(s: StoreV, id: Seq<char>, a: Transition, at: Seq<char>)
    requires
        s.wf(),
        cascades(a),
        transition_spec(s, id, a, at).1 is Ok,
        s.tasks[task_index(s.tasks, id)].status != target_status(a),
    ensures
        ({
            let s1 = transition_spec(s, id, a, at).0;
            let i = task_index(s.tasks, id);
            &&& s1.tasks[i].status == target_status(a)
            &&& forall|d: int| #[trigger] open_desc_of(s.tasks, i, d) ==> s1.tasks[d].status == target_status(a)
            &&& forall|d: int| 0 <= d < s.tasks.len() && d != i && !open_desc_of(s.tasks, i, d) ==> #[trigger] s1.tasks[d] == s.tasks[d]
            &&& s1.history.len() == s.history.len() + transition_spec(s, id, a, at).1->Ok_0.2.len()
        }),
{
    let i = task_index(s.tasks, id);
    let before = s.tasks[i];
    assert(applied(before, a) != before);
    lemma_transition_tasks(s, id, a, at);
    lemma_transition_frame(s, id, a, at);
    let ds = reached(s, i, a);
    let s1 = crate::transitions::save_at(s, i, before, a, at, None);
    lemma_cascade(s1, s.tasks, ds, a, at, id);
    assert(closed_status(target_status(a)));
    assert(open_desc_list(s.tasks, i, ds));
}

/// `find_char` on a suffix, in positions of the whole sequence.
pub proof fn lemma_find_char_skip(s: Seq<char>, c: char, k: int, j: int)
    requires
        0 <= k <= s.len(),
        0 <= j,
    ensures
        find_char(s.skip(k), c, j) == (if find_char(s, c, j + k) >= 0 {
            find_char(s, c, j + k) - k
        } else {
            -1
        }),
    decreases s.len() - (j + k),
{
    if j + k < s.len() && s[j + k] != c {
        lemma_find_char_skip(s, c, k, j + 1);
    }
}

/// `find_char` gives -1 or a position at or after `from` holding `c`.
pub proof fn lemma_find_char_found(s: Seq<char>, c: char, from: int)
    requires
        0 <= from,
    ensures
        find_char(s, c, from) == -1 || (from <= find_char(s, c, from) < s.len() && s[find_char(s, c, from)] == c),
    decreases s.len() - from,
{
    if from < s.len() && s[from] != c {
        lemma_find_char_found(s, c, from + 1);
    }
}

/// The parse never unsets `--json`, and after `--` it no longer changes it.
pub proof fn lemma_scan_json(args: Seq<Seq<char>>, i: int, st: ScanV)
    requires
        scan(args, i, st) is Ok,
    ensures
        st.json ==> scan(args, i, st)->Ok_0.json,
        st.dd ==> scan(args, i, st)->Ok_0.json == st.json,
    decreases args.len() + 2 - i,
{
    if 0 <= i < args.len() {
        match step(args, i, st) {
            Ok((s2, used)) => {
                if 1 <= used <= 2 {
                    assert(st.json ==> s2.json);
                    assert(st.dd ==> s2.dd && s2.json == st.json);
                    lemma_scan_json(args, i + used, s2);
                }
            },
            Err(_) => {},
        }
    }
}

/// Before `--`, `asks_json` from argument `i` finds `--json` exactly when the
/// rest of a successful parse sets the flag.
pub proof fn lemma_asks_json(args: Seq<Seq<char>>, i: int, st: ScanV)
    requires
        1 <= i,
        !st.dd,
        scan(args, i, st) is Ok,
    ensures
        asks_json(args, i, st.node) == (scan(args, i, st)->Ok_0.json && !st.json),
    decreases args.len() + 2 - i,
{
    if i < args.len() {
        let a = args[i];
        reveal_strlit("--");
        reveal_strlit("--json");
        reveal_strlit("json");
        reveal_strlit("help");
        reveal_strlit("version");
        reveal_strlit("db");
        match step(args, i, st) {
            Ok((s2, used)) => {
                assert(1 <= used <= 2);
                let fin = scan(args, i + used, s2)->Ok_0;
                assert(scan(args, i, st) == scan(args, i + used, s2));
                lemma_scan_json(args, i + used, s2);
                if a == "--"@ {
                    assert(s2.dd && s2.json == st.json);
                } else if a == "--json"@ {
                    assert(a.skip(2) =~= "json"@);
                    assert(find_char(a, '=', 2) == -1) by {
                        reveal_with_fuel(find_char, 6);
                    }
                    assert(s2.json);
                } else if a.len() >= 2 && a[0] == '-' && a[1] == '-' {
                    lemma_find_char_skip(a, '=', 2, 0);
                    lemma_find_char_found(a, '=', 2);
                    let eq = find_char(a, '=', 2);
                    if eq < 0 && a.skip(2) == "json"@ {
                        assert(a.len() == 6);
                        assert(a[2] == a.skip(2)[0] && a[3] == a.skip(2)[1] && a[4] == a.skip(2)[2]
                            && a[5] == a.skip(2)[3]);
                        assert(a =~= "--json"@);
                    }
                    assert(s2.node == st.node && !s2.dd && s2.json == st.json);
                    if used == 2 && !(asks_json(args, i, st.node) == asks_json(args, i + 2, st.node)) {
                        let next = args[i + 1];
                        reveal_strlit("-");
                        assert(!dashed(next));
                        assert(starts_dash(next));
                        assert(next.len() == 1);
                        assert(next =~= "-"@);
                        assert(sub_of(st.node, next) == -1);
                        assert(asks_json(args, i + 1, st.node) == asks_json(args, i + 2, st.node));
                    }
                    lemma_asks_json(args, i + used, s2);
                } else {
                    assert(!s2.dd && s2.json == st.json);
                    assert(s2.node == (if sub_of(st.node, a) >= 0 {
                        sub_of(st.node, a)
                    } else {
                        st.node
                    }));
                    lemma_asks_json(args, i + used, s2);
                }
            },
            Err(_) => {},
        }
    }
}

/// Whether JSON output was asked for is read the same way early (to answer
/// help and argument errors) and by the parser: for every argument list that
/// parses, `requests_json` agrees with the parsed `--json` flag.
pub proof fn law_json_detection_agrees(args: Seq<Seq<char>>)
    requires
        scanned(args) is Ok,
    ensures
        asks_json(args, 1, 0) == scanned(args)->Ok_0.json,
{
    if args.len() > 0 {
        lemma_asks_json(args, 1, crate::cli::start_scan());
    }
}

/// No task is its own ancestor.
pub open spec fn acyclic(ts: Seq<TaskV>) -> bool {
    forall|x: int| 0 <= x < ts.len() ==> !#[trigger] is_desc(ts, x, x)
}

/// A walk up from `cur` that ends at a top-level task follows the parent
/// chain of `cur`: every task on it exists, none is `target`, each one's
/// parent exists or is absent, and the chain ends after `k` tasks.
pub proof fn lemma_walk_top_ends(
    ts: Seq<TaskV>,
    cur: Seq<char>,
    target: Option<Seq<char>>,
    need_open: bool,
    seen: Seq<Seq<char>>,
    closed: Seq<Seq<char>>,
) -> (k: nat)
    requires
        walk(ts, cur, target, need_open, seen, closed) is Top,
    ensures
        has_task(ts, cur),
        k >= 1,
        up(ts, task_index(ts, cur), k) == -1,
        forall|j: nat|
            j < k ==> {
                let y = #[trigger] up(ts, task_index(ts, cur), j);
                &&& 0 <= y < ts.len()
                &&& target != Some(ts[y].id)
                &&& (ts[y].parent_id matches Some(q) ==> has_task(ts, q))
            },
    decreases ts.len() - seen.len(),
{
    let ci = task_index(ts, cur);
    let t = task_of(ts, cur);
    let closed2 = if need_open && closed_status(t.status) {
        closed.push(cur)
    } else {
        closed
    };
    match t.parent_id {
        None => {
            assert(up(ts, ci, 0) == ci);
            assert(up(ts, ci, 1) == pidx(ts, ci));
            assert forall|j: nat| j < 1 implies {
                let y = #[trigger] up(ts, ci, j);
                &&& 0 <= y < ts.len()
                &&& target != Some(ts[y].id)
                &&& (ts[y].parent_id matches Some(q) ==> has_task(ts, q))
            } by {
                assert(j == 0);
            }
            1
        },
        Some(p) => {
            let k2 = lemma_walk_top_ends(ts, p, target, need_open, seen.push(cur), closed2);
            let pi = task_index(ts, p);
            assert(up(ts, ci, 0) == ci);
            assert(up(ts, ci, 1) == pi);
            assert forall|j: nat| j < k2 + 1 implies {
                let y = #[trigger] up(ts, ci, j);
                &&& 0 <= y < ts.len()
                &&& target != Some(ts[y].id)
                &&& (ts[y].parent_id matches Some(q) ==> has_task(ts, q))
            } by {
                if j > 0 {
                    lemma_up_compose(ts, ci, 1, (j - 1) as nat);
                    assert(up(ts, ci, j) == up(ts, pi, (j - 1) as nat));
                }
            }
            lemma_up_compose(ts, ci, 1, k2);
            k2 + 1
        },
    }
}

/// Where two task lists give the same parents along the chain from `x`,
/// the chains agree.
pub proof fn lemma_chain_same(ts: Seq<TaskV>, ts2: Seq<TaskV>, x: int, k: nat)
    requires
        ts.len() <= ts2.len(),
        0 <= x < ts.len(),
        forall|j: nat|
            j < k ==> {
                let y = #[trigger] up(ts, x, j);
                0 <= y < ts.len() ==> pidx(ts2, y) == pidx(ts, y)
            },
    ensures
        forall|j: nat| j <= k ==> #[trigger] up(ts2, x, j) == up(ts, x, j),
    decreases k,
{
    if k > 0 {
        lemma_chain_same(ts, ts2, x, (k - 1) as nat);
        assert forall|j: nat| j <= k implies #[trigger] up(ts2, x, j) == up(ts, x, j) by {
            if j == k {
                let y = up(ts, x, (k - 1) as nat);
                crate::tree::lemma_up_range(ts, x, (k - 1) as nat);
                assert(up(ts2, x, (k - 1) as nat) == y);
                if 0 <= y < ts.len() {
                    assert(pidx(ts2, y) == pidx(ts, y));
                }
            }
        }
    }
}

/// The first step at which the chain from `x` visits `v`, when it does
/// within `k` steps.
pub proof fn lemma_first_visit(ts: Seq<TaskV>, x: int, v: int, k: nat) -> (j0: nat)
    requires
        exists|j: nat| j < k && #[trigger] up(ts, x, j) == v,
    ensures
        j0 < k,
        up(ts, x, j0) == v,
        forall|j: nat| j < j0 ==> #[trigger] up(ts, x, j) != v,
    decreases k,
{
    if exists|j: nat| j < (k - 1) as nat && #[trigger] up(ts, x, j) == v {
        lemma_first_visit(ts, x, v, (k - 1) as nat)
    } else {
        let j = choose|j: nat| j < k && #[trigger] up(ts, x, j) == v;
        assert(j == k - 1);
        (k - 1) as nat
    }
}

/// A chain that comes back to its start after `k` steps passes `v` only if
/// the chain from `v` also comes back to `v` after `k` steps.
pub proof fn lemma_cycle_through(ts: Seq<TaskV>, x: int, k: nat, j0: nat)
    requires
        up(ts, x, k) == x,
    ensures
        up(ts, up(ts, x, j0), k) == up(ts, x, j0),
{
    lemma_up_compose(ts, x, j0, k);
    lemma_up_compose(ts, x, k, j0);
    assert(j0 + k == k + j0);
}

/// From an ended chain no step reaches a task.
pub proof fn lemma_up_from_none(ts: Seq<TaskV>, m: nat)
    ensures
        up(ts, -1, m) == -1,
    decreases m,
{
    if m > 0 {
        lemma_up_from_none(ts, (m - 1) as nat);
    }
}

/// Moving a task never makes a task its own ancestor: the parent chain of
/// the new parent is checked to end without reaching the task.
pub proof fn law_set_parent_keeps_acyclic(s: StoreV, id: Seq<char>, p: Option<Seq<char>>, at: Seq<char>)
    requires
        s.wf(),
        acyclic(s.tasks),
    ensures
        acyclic(set_parent_spec(s, id, p, at).0.tasks),
{
    let ts = s.tasks;
    let n = ts.len();
    let s2 = set_parent_spec(s, id, p, at).0;
    if s2.tasks != ts {
        let i = task_index(ts, id);
        let before = ts[i];
        let after = TaskV { parent_id: p, updated_at: at, ..before };
        let ts2 = ts.update(i, after);
        assert(s2.tasks == ts2);
        assert(has_task(ts, id));
        assert(ts[i].id == id);
        lemma_same_ids(ts, ts2);
        assert forall|y: int| 0 <= y < n && y != i implies #[trigger] pidx(ts2, y) == pidx(ts, y) by {
            assert(ts2[y] == ts[y]);
        }
        // The new chain from `i`: its first step, then the old chain of the new parent.
        let ghost kend: nat = 0;
        let pi: int = match p {
            Some(pp) => task_index(ts, pp),
            None => -1,
        };
        assert(pidx(ts2, i) == pi);
        let kp: nat = match p {
            Some(pp) => {
                let need = !closed_status(before.status);
                assert(walk(ts, pp, Some(id), need, seq![], seq![]) is Top);
                lemma_walk_top_ends(ts, pp, Some(id), need, seq![], seq![])
            },
            None => 0,
        };
        // Along that chain no task is `i`, and the chain ends.
        assert forall|m: nat| #[trigger] up(ts2, pi, m) != i by {
            if p is Some {
                assert forall|j: nat| j < kp implies {
                    let y = #[trigger] up(ts, pi, j);
                    0 <= y < ts.len() ==> pidx(ts2, y) == pidx(ts, y)
                } by {
                    let y = up(ts, pi, j);
                    assert(ts[y].id != id);
                }
                lemma_chain_same(ts, ts2, pi, kp);
                if m < kp {
                    let y = up(ts, pi, m);
                    assert(ts[y].id != id);
                } else {
                    lemma_up_ended(ts2, pi, kp, m);
                }
            } else {
                lemma_up_from_none(ts2, m);
            }
        }
        assert forall|x: int| 0 <= x < n implies !#[trigger] is_desc(ts2, x, x) by {
            if is_desc(ts2, x, x) {
                let k = choose|k: nat| 1 <= k <= ts2.len() && #[trigger] up(ts2, x, k) == x;
                if exists|j: nat| j < k && #[trigger] up(ts, x, j) == i {
                    let j0 = lemma_first_visit(ts, x, i, k);
                    assert forall|j: nat| j < j0 implies {
                        let y = #[trigger] up(ts, x, j);
                        0 <= y < ts.len() ==> pidx(ts2, y) == pidx(ts, y)
                    } by {}
                    lemma_chain_same(ts, ts2, x, j0);
                    assert(up(ts2, x, j0) == i);
                    lemma_cycle_through(ts2, x, k, j0);
                    assert(up(ts2, i, k) == i);
                    lemma_up_compose(ts2, i, 1, (k - 1) as nat);
                    assert(up(ts2, i, 0) == i);
                    assert(up(ts2, i, 1) == pi);
                    assert(up(ts2, pi, (k - 1) as nat) != i);
                } else {
                    assert forall|j: nat| j < k implies {
                        let y = #[trigger] up(ts, x, j);
                        0 <= y < ts.len() ==> pidx(ts2, y) == pidx(ts, y)
                    } by {
                        assert(up(ts, x, j) != i);
                    }
                    lemma_chain_same(ts, ts2, x, k);
                    assert(up(ts, x, k) == x);
                    assert(is_desc(ts, x, x));
                }
            }
        }
    }
}

/// After appending a task, a chain from an old task that does not reach the
/// new one is the old chain.
pub proof fn lemma_push_chain(ts: Seq<TaskV>, t: TaskV, x: int, k: nat)
    requires
        unique_task_ids(ts),
        !has_task(ts, t.id),
        0 <= x < ts.len(),
        forall|j: nat| j <= k ==> #[trigger] up(ts.push(t), x, j) != ts.len(),
    ensures
        forall|j: nat| j <= k ==> #[trigger] up(ts.push(t), x, j) == up(ts, x, j),
    decreases k,
{
    let ts2 = ts.push(t);
    lemma_push_index(ts, t);
    if k > 0 {
        lemma_push_chain(ts, t, x, (k - 1) as nat);
        assert forall|j: nat| j <= k implies #[trigger] up(ts2, x, j) == up(ts, x, j) by {
            if j == k {
                let y = up(ts, x, (k - 1) as nat);
                crate::tree::lemma_up_range(ts, x, (k - 1) as nat);
                assert(up(ts2, x, (k - 1) as nat) == y);
                if 0 <= y < ts.len() {
                    assert(ts2[y] == ts[y]);
                    match ts[y].parent_id {
                        Some(q) => {
                            if q == t.id {
                                assert(pidx(ts2, y) == ts.len());
                                assert(up(ts2, x, k) == ts.len());
                            }
                        },
                        None => {},
                    }
                }
            }
        }
    }
}

/// Creating a task never makes a task its own ancestor: the new task's
/// parent chain is checked to end at a top-level task.
pub proof fn law_create_keeps_acyclic(s: StoreV, req: CreateTaskV, id: Seq<char>, at: Seq<char>)
    requires
        s.wf(),
        acyclic(s.tasks),
    ensures
        acyclic(create_spec(s, req, id, at).0.tasks),
{
    let ts = s.tasks;
    let n = ts.len();
    let s1 = create_spec(s, req, id, at).0;
    if s1.tasks != ts {
        let t = crate::tasks::new_task(req, id, at);
        let ts2 = ts.push(t);
        assert(s1.tasks == ts2);
        assert(!has_task(ts, id));
        lemma_push_index(ts, t);
        let pi: int = match req.parent_id {
            Some(pp) => task_index(ts, pp),
            None => -1,
        };
        assert(up(ts2, n as int, 0) == n);
        assert(ts2[n as int] == t);
        assert(up(ts2, n as int, 1) == pi);
        let kp: nat = match req.parent_id {
            Some(pp) => {
                assert(walk(ts, pp, None, true, seq![], seq![]) is Top);
                lemma_walk_top_ends(ts, pp, None, true, seq![], seq![])
            },
            None => 0,
        };
        // The chain from the new task's parent is its old chain, which ends.
        assert forall|m: nat| #[trigger] up(ts2, pi, m) != n by {
            if req.parent_id is Some {
                assert forall|j: nat| j < kp implies {
                    let y = #[trigger] up(ts, pi, j);
                    0 <= y < ts.len() ==> pidx(ts2, y) == pidx(ts, y)
                } by {
                    let y = up(ts, pi, j);
                    assert(ts2[y] == ts[y]);
                }
                lemma_chain_same(ts, ts2, pi, kp);
                if m < kp {
                    let y = up(ts, pi, m);
                } else {
                    lemma_up_ended(ts2, pi, kp, m);
                }
            } else {
                lemma_up_from_none(ts2, m);
            }
        }
        assert forall|x: int| 0 <= x < ts2.len() implies !#[trigger] is_desc(ts2, x, x) by {
            if is_desc(ts2, x, x) {
                let k = choose|k: nat| 1 <= k <= ts2.len() && #[trigger] up(ts2, x, k) == x;
                if exists|j: nat| j <= k && #[trigger] up(ts2, x, j) == n {
                    let j0 = lemma_first_visit(ts2, x, n as int, k + 1);
                    lemma_cycle_through(ts2, x, k, j0);
                    assert(up(ts2, n as int, k) == n);
                    lemma_up_compose(ts2, n as int, 1, (k - 1) as nat);
                    assert(up(ts2, pi, (k - 1) as nat) != n);
                } else {
                    assert(x < n) by {
                        assert(up(ts2, x, 0) == x);
                    }
                    lemma_push_chain(ts, t, x, k);
                    assert(up(ts, x, k) == x);
                    lemma_reach_within_len(ts, x, x, k);
                    assert(is_desc(ts, x, x));
                }
            }
        }
    }
}

/// Operations that keep every task's id and parent keep the tree acyclic.
pub proof fn law_same_shape_keeps_acyclic(ts: Seq<TaskV>, ts2: Seq<TaskV>)
    requires
        unique_task_ids(ts),
        same_shape(ts, ts2),
        acyclic(ts),
    ensures
        acyclic(ts2),
{
    lemma_same_shape(ts, ts2);
    assert forall|x: int| 0 <= x < ts2.len() implies !#[trigger] is_desc(ts2, x, x) by {
        if is_desc(ts2, x, x) {
            let k = choose|k: nat| 1 <= k <= ts2.len() && #[trigger] up(ts2, x, k) == x;
            assert forall|j: nat| j < k implies {
                let y = #[trigger] up(ts, x, j);
                0 <= y < ts.len() ==> pidx(ts2, y) == pidx(ts, y)
            } by {}
            lemma_chain_same(ts, ts2, x, k);
            assert(is_desc(ts, x, x));
        }
    }
}

/// Status changes, edits, notes and reminder operations keep the tree
/// acyclic: they change no task's id or parent.
pub proof fn law_other_operations_keep_acyclic(
    s: StoreV,
    id: Seq<char>,
    a: Transition,
    e: EditTask,
    body: Seq<char>,
    rid: Seq<char>,
    add: AddReminder,
    er: EditReminder,
    at: Seq<char>,
)
    requires
        s.wf(),
        acyclic(s.tasks),
    ensures
        acyclic(transition_spec(s, id, a, at).0.tasks),
        acyclic(edit_spec(s, id, e, at).0.tasks),
        acyclic(note_spec(s, id, body, at).0.tasks),
        acyclic(add_reminder_spec(s, id, add, rid, at).0.tasks),
        acyclic(edit_reminder_spec(s, rid, er, at).0.tasks),
        acyclic(remove_reminder_spec(s, rid, at).0.tasks),
{
    law_other_operations_keep_tree(s, id, e, body, rid, add, er, at);
    law_same_shape_keeps_acyclic(s.tasks, edit_spec(s, id, e, at).0.tasks);
    law_same_shape_keeps_acyclic(s.tasks, note_spec(s, id, body, at).0.tasks);
    law_same_shape_keeps_acyclic(s.tasks, add_reminder_spec(s, id, add, rid, at).0.tasks);
    law_same_shape_keeps_acyclic(s.tasks, edit_reminder_spec(s, rid, er, at).0.tasks);
    law_same_shape_keeps_acyclic(s.tasks, remove_reminder_spec(s, rid, at).0.tasks);
    let r = transition_spec(s, id, a, at);
    if r.1 is Ok && r.1->Ok_0.1 {
        lemma_transition_tasks(s, id, a, at);
        assert(same_shape(s.tasks, r.0.tasks));
        law_same_shape_keeps_acyclic(s.tasks, r.0.tasks);
    } else if r.1 is Ok {
        lemma_transition_frame(s, id, a, at);
    } else {
        law_refusals_change_nothing(s, id, arbitrary(), a, e, None, body, rid, add, er, at);
    }
}

/// Lower-casing ASCII text that has no white space at its ends gives ASCII
/// text without upper-case letters and with the same ends.
proof fn lemma_lowered_ascii(t: Seq<char>)
    requires
        lowercase_ascii_ok(t),
        is_ascii(t),
        t.len() == 0 || (!is_ws(t[0]) && !is_ws(t.last())),
    ensures
        is_ascii(lowercase(t)),
        forall|i: int| 0 <= i < t.len() ==> !is_upper_ascii(#[trigger] lowercase(t)[i]),
        lowercase(t).len() == 0 || (!is_ws(lowercase(t)[0]) && !is_ws(lowercase(t).last())),
{
    let l = lowercase(t);
    assert forall|i: int| 0 <= i < l.len() implies (#[trigger] l[i] as u32) < 128 by {
        assert((t[i] as u32) < 128);
    }
    if t.len() > 0 {
        assert(!is_ws(l[0])) by {
            if !is_upper_ascii(t[0]) {
                assert(l[0] == t[0]);
            }
        }
        assert(l.last() == l[l.len() - 1]);
        assert(!is_ws(l[l.len() - 1])) by {
            if !is_upper_ascii(t[t.len() - 1]) {
                assert(l[l.len() - 1] == t[t.len() - 1]);
            }
        }
    }
}

/// ASCII text without upper-case letters is its own lower case.
proof fn lemma_lower_keeps(l: Seq<char>)
    requires
        lowercase_ascii_ok(l),
        is_ascii(l),
        forall|i: int| 0 <= i < l.len() ==> !is_upper_ascii(#[trigger] l[i]),
    ensures
        lowercase(l) == l,
{
    let m = lowercase(l);
    assert forall|i: int| 0 <= i < l.len() implies #[trigger] m[i] == l[i] by {
        assert(!is_upper_ascii(l[i]));
    }
    assert(m =~= l);
}

/// Normalizing a channel a second time changes nothing, for a channel that is
/// ASCII once trimmed or that normalizes to `wechat`, wherever the lower-case
/// mapping does to the texts involved what `to_lowercase` is stated to do to
/// ASCII text.
pub proof fn law_normalize_channel_is_idempotent(c: Seq<char>)
    requires
        is_ascii(trim(c)) || channel_norm(c) == "wechat"@,
        lowercase_ascii_ok(trim(c)),
        lowercase_ascii_ok(channel_norm(c)),
    ensures
        channel_norm(channel_norm(c)) == channel_norm(c),
{
    let t = trim(c);
    let n = channel_norm(c);
    lemma_trim_ends(c);
    if n == "wechat"@ {
        reveal_strlit("wechat");
        assert(is_ascii(n)) by {
            assert forall|i: int| 0 <= i < n.len() implies (#[trigger] n[i] as u32) < 128 by {}
        }
        assert(!is_ws(n[0]) && !is_ws(n.last()));
        lemma_trim_keeps(n);
        assert forall|i: int| 0 <= i < n.len() implies !is_upper_ascii(#[trigger] n[i]) by {}
        lemma_lower_keeps(n);
    } else {
        lemma_lowered_ascii(t);
        let l = lowercase(t);
        assert(n == l);
        lemma_trim_keeps(l);
        lemma_lower_keeps(l);
    }
}

/// Removing an association hands back the whole record that was stored; the
/// association is then gone, so removing it again is refused as not found
/// and changes nothing.
pub proof fn law_remove_reminder_then_again_not_found(s: StoreV, rid: Seq<char>, at1: Seq<char>, at2: Seq<char>)
    requires
        s.wf(),
        remove_reminder_spec(s, rid, at1).1 is Ok,
    ensures
        has_reminder(s.reminders, rid),
        remove_reminder_spec(s, rid, at1).1 == Ok::<ReminderV, ErrorV>(s.reminders[reminder_index(s.reminders, rid)]),
        !has_reminder(remove_reminder_spec(s, rid, at1).0.reminders, rid),
        remove_reminder_spec(remove_reminder_spec(s, rid, at1).0, rid, at2) == (
            remove_reminder_spec(s, rid, at1).0,
            Err::<ReminderV, ErrorV>(crate::error::not_found_v("reminder"@, rid)),
        ),
{
    let ri = reminder_index(s.reminders, rid);
    let rs = s.reminders.remove(ri);
    let s2 = remove_reminder_spec(s, rid, at1).0;
    assert(0 <= ri < s.reminders.len() && s.reminders[ri].id == rid);
    assert(s2.reminders == rs);
    if has_reminder(rs, rid) {
        let k = choose|k: int| 0 <= k < rs.len() && (#[trigger] rs[k]).id == rid;
        if k < ri {
            assert(rs[k] == s.reminders[k]);
        } else {
            assert(rs[k] == s.reminders[k + 1]);
        }
    }
}

} // verus!
