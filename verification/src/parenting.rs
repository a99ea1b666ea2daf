//! The parent chain: walking up from a prospective parent, and moving a task.
use vstd::prelude::*;
use crate::clock::utc_time_text;

use crate::error::{empty_msg, invalid_v, not_found_v, AppError, ErrorV};
use crate::model::{closed_status, ChangeResult, Changes, Snapshot, Task, TaskV};
use crate::transitions::is_closed;
use crate::store::{
    exhausted, exhausted_v, has_task, lemma_index_of, task_index, task_of, unique_task_ids, Store, StoreV,
};
use crate::text::{blank, clone_opt, is_blank, opt_eq, opt_view, text_eq};

verus! {

/// Where a walk up the parent chain ends.
pub enum Walk {
    /// It reached the task that is being moved.
    Cycle(Seq<char>),
    /// It came back to a task it had already passed.
    Repeat,
    /// A task on the chain does not exist.
    Missing(Seq<char>),
    /// It reached a top-level task; the closed tasks passed, in chain order.
    Top(Seq<Seq<char>>),
}

/// Walks up from `cur`: `seen` are the tasks passed so far and `closed` the
/// closed ones among them (only collected when `need_open`).
pub open spec fn walk(
    ts: Seq<TaskV>,
    cur: Seq<char>,
    target: Option<Seq<char>>,
    need_open: bool,
    seen: Seq<Seq<char>>,
    closed: Seq<Seq<char>>,
) -> Walk
    decreases ts.len() - seen.len(),
{
    if target == Some(cur) {
        Walk::Cycle(cur)
    } else if seen.contains(cur) {
        Walk::Repeat
    } else if !has_task(ts, cur) {
        Walk::Missing(cur)
    } else if seen.len() >= ts.len() {
        Walk::Repeat
    } else {
        let t = task_of(ts, cur);
        let closed2 = if need_open && closed_status(t.status) {
            closed.push(cur)
        } else {
            closed
        };
        match t.parent_id {
            None => Walk::Top(closed2),
            Some(p) => walk(ts, p, target, need_open, seen.push(cur), closed2),
        }
    }
}

pub open spec fn chain_cycle_msg() -> Seq<char> {
    "The existing parent chain contains a cycle"@
}

/// The refusal, if any, of `parent_id` as parent of `target` (or of a new task
/// when `target` is `None`).  `need_open` asks the parent and all its
/// ancestors to be open.
pub open spec fn parent_error(
    ts: Seq<TaskV>,
    parent_id: Seq<char>,
    target: Option<Seq<char>>,
    need_open: bool,
) -> Option<ErrorV> {
    match walk(ts, parent_id, target, need_open, seq![], seq![]) {
        Walk::Cycle(id) => Some(ErrorV::CycleDetected { task_id: id, parent_id }),
        Walk::Repeat => Some(invalid_v("parent_id"@, chain_cycle_msg())),
        Walk::Missing(id) => Some(not_found_v("task"@, id)),
        Walk::Top(closed) => if closed.len() > 0 {
            Some(ErrorV::ClosedAncestor { parent_id, ancestor_ids: closed })
        } else {
            None
        },
    }
}

/// A repetition-free list of existing ids is shorter than the task list.
pub proof fn lemma_seen_shorter(ts: Seq<TaskV>, seen: Seq<Seq<char>>, cur: Seq<char>)
    requires
        seen.no_duplicates(),
        forall|k: int| 0 <= k < seen.len() ==> has_task(ts, #[trigger] seen[k]),
        has_task(ts, cur),
        !seen.contains(cur),
    ensures
        seen.len() < ts.len(),
{
    let s = seen.push(cur);
    let ids = ts.map_values(|t: TaskV| t.id);
    assert(s.no_duplicates()) by {
        assert forall|a: int, b: int| 0 <= a < s.len() && 0 <= b < s.len() && a != b implies s[a] != s[b] by {
            if a < seen.len() && b < seen.len() {
            } else if a == seen.len() {
                assert(seen[b] == s[b]);
            } else {
                assert(seen[a] == s[a]);
            }
        }
    }
    s.unique_seq_to_set();
    assert(s.to_set().subset_of(ids.to_set())) by {
        assert forall|x: Seq<char>| s.to_set().contains(x) implies ids.to_set().contains(x) by {
            assert(s.contains(x));
            let k = choose|k: int| 0 <= k < s.len() && s[k] == x;
            assert(has_task(ts, s[k]));
            let j = choose|j: int| 0 <= j < ts.len() && (#[trigger] ts[j]).id == x;
            assert(ids[j] == x);
        }
    }
    vstd::set_lib::lemma_len_subset(s.to_set(), ids.to_set());
    ids.lemma_cardinality_of_set();
}

/// Walks up from `parent_id` as `walk` does, and returns `parent_error`.
pub fn validate_parent(
    store: &Store,
    parent_id: &str,
    target: Option<&str>,
    need_open: bool,
) -> (r: Result<(), AppError>)
    requires
        store@.wf(),
    ensures
        match parent_error(store@.tasks, parent_id@, opt_str(target), need_open) {
            Some(e) => r is Err && r->Err_0@ == e,
            None => r is Ok,
        },
{
    let ghost ts = store@.tasks;
    let mut current: String = parent_id.to_owned();
    let mut seen: Vec<String> = Vec::new();
    let mut closed: Vec<String> = Vec::new();
    let ghost start = walk(ts, parent_id@, opt_str(target), need_open, seq![], seq![]);
    assert(crate::text::seq_view(seen@) =~= Seq::<Seq<char>>::empty());
    assert(crate::text::seq_view(closed@) =~= Seq::<Seq<char>>::empty());
    loop
        invariant
            store@.wf(),
            ts == store@.tasks,
            start == walk(ts, parent_id@, opt_str(target), need_open, seq![], seq![]),
            start == walk(
                ts,
                current@,
                opt_str(target),
                need_open,
                crate::text::seq_view(seen@),
                crate::text::seq_view(closed@),
            ),
            crate::text::seq_view(seen@).no_duplicates(),
            forall|k: int|
                0 <= k < seen@.len() ==> has_task(ts, #[trigger] crate::text::seq_view(seen@)[k]),
            seen@.len() <= ts.len(),
        decreases ts.len() - seen@.len(),
    {
        let ghost sv = crate::text::seq_view(seen@);
        let ghost cv = crate::text::seq_view(closed@);
        if let Some(t) = target {
            if text_eq(t, current.as_str()) {
                return Err(AppError::CycleDetected { task_id: current, parent_id: parent_id.to_owned() });
            }
        }
        assert(opt_str(target) != Some(current@));
        let mut k: usize = 0;
        #[verifier::loop_isolation(false)]
        while k < seen.len()
            invariant
                k <= seen@.len(),
                forall|j: int| 0 <= j < k ==> (#[trigger] seen@[j])@ != current@,
            decreases seen.len() - k,
        {
            if seen[k] == current {
                proof {
                    assert(crate::text::seq_view(seen@)[k as int] == current@);
                    assert(crate::text::seq_view(seen@).contains(current@));
                    assert(opt_str(target) != Some(current@));
                    assert(walk(ts, current@, opt_str(target), need_open, sv, cv) == Walk::Repeat);
                }
                return Err(AppError::invalid("parent_id", "The existing parent chain contains a cycle"));
            }
            k = k + 1;
        }
        assert(!sv.contains(current@)) by {
            if sv.contains(current@) {
                let j = choose|j: int| 0 <= j < sv.len() && sv[j] == current@;
                assert(seen@[j]@ == current@);
            }
        }
        let found = store.find_task(current.as_str());
        match found {
            None => {
                return Err(AppError::not_found("task", current.as_str()));
            },
            Some(i) => {
                proof {
                    lemma_seen_shorter(ts, sv, current@);
                }
                let t = store.task_at(i);
                if need_open && is_closed(t.status.as_str()) {
                    closed.push(current.clone());
                    assert(crate::text::seq_view(closed@) =~= cv.push(current@));
                }
                match &t.parent_id {
                    None => {
                        proof {
                            if crate::text::seq_view(closed@).len() > 0 {
                            }
                        }
                        if closed.len() > 0 {
                            assert(crate::text::seq_view(closed@).len() == closed@.len());
                            return Err(AppError::ClosedAncestor {
                                parent_id: parent_id.to_owned(),
                                ancestor_ids: closed,
                            });
                        }
                        assert(crate::text::seq_view(closed@).len() == closed@.len());
                        return Ok(());
                    },
                    Some(p) => {
                        let next = p.clone();
                        seen.push(current);
                        proof {
                            assert(crate::text::seq_view(seen@) =~= sv.push(current@));
                            assert forall|a: int, b: int|
                                0 <= a < seen@.len() && 0 <= b < seen@.len() && a != b
                                implies crate::text::seq_view(seen@)[a] != crate::text::seq_view(seen@)[b] by {
                                if a < sv.len() && b < sv.len() {
                                    assert(sv[a] != sv[b]);
                                } else if a == sv.len() {
                                    assert(sv.contains(sv[b]));
                                } else {
                                    assert(sv.contains(sv[a]));
                                }
                            }
                        }
                        current = next;
                    },
                }
            },
        }
    }
}

pub open spec fn opt_str(o: Option<&str>) -> Option<Seq<char>> {
    match o {
        Some(s) => Some(s@),
        None => None,
    }
}

/// What `set_parent` does to a store: the new store and the changed task, or
/// the refusal.  Moving to the current parent changes nothing.
pub open spec fn set_parent_spec(
    s: StoreV,
    id: Seq<char>,
    parent_id: Option<Seq<char>>,
    at: Seq<char>,
) -> (StoreV, Result<(TaskV, bool), ErrorV>) {
    if parent_id is Some && blank(parent_id->0) {
        (s, Err(invalid_v("parent_id"@, empty_msg())))
    } else if !has_task(s.tasks, id) {
        (s, Err(not_found_v("task"@, id)))
    } else {
        let i = task_index(s.tasks, id);
        let before = s.tasks[i];
        if before.parent_id == parent_id {
            (s, Ok((before, false)))
        } else {
            let refusal = match parent_id {
                Some(p) => parent_error(s.tasks, p, Some(id), !closed_status(before.status)),
                None => None,
            };
            if refusal is Some {
                (s, Err(refusal->0))
            } else if !s.room(1) {
                (s, Err(exhausted_v()))
            } else {
                let after = TaskV { parent_id, updated_at: at, ..before };
                let s2 = s.with_task(i, after).recorded(
                    id,
                    "parent_changed"@,
                    at,
                    crate::model::ChangesV {
                        before: Some(crate::model::SnapshotV::Task(before)),
                        after: Some(crate::model::SnapshotV::Task(after)),
                        body: None,
                        cascade_from: None,
                    },
                );
                (s2, Ok((after, true)))
            }
        }
    }
}

pub open spec fn change_view(r: Result<ChangeResult, AppError>) -> Result<(TaskV, bool), ErrorV> {
    match r {
        Ok(c) => Ok((c.task@, c.changed)),
        Err(e) => Err(e@),
    }
}

impl Store {
    /// Sets (`Some`) or clears (`None`) the parent of task `id`, at the current time.
    pub fn set_parent(&mut self, id: &str, parent_id: Option<&str>) -> (r: Result<ChangeResult, AppError>)
        requires
            old(self)@.wf(),
        ensures
            final(self)@.wf(),
            exists|at: Seq<char>|
                utc_time_text(at) && (final(self)@, change_view(r)) == set_parent_spec(old(self)@, id@, opt_str(parent_id), at),
    {
        let at = crate::clock::now();
        self.set_parent_at(id, parent_id, at.as_str())
    }

    /// Sets (`Some`) or clears (`None`) the parent of task `id`, at time `at`.
    pub fn set_parent_at(&mut self, id: &str, parent_id: Option<&str>, at: &str) -> (r: Result<
        ChangeResult,
        AppError,
    >)
        requires
            old(self)@.wf(),
        ensures
            final(self)@.wf(),
            (final(self)@, change_view(r)) == set_parent_spec(
                old(self)@,
                id@,
                opt_str(parent_id),
                at@,
            ),
    {
        if let Some(p) = parent_id {
            if is_blank(p) {
                return Err(AppError::invalid("parent_id", "Must not be empty"));
            }
        }
        let i = match self.find_task(id) {
            Some(i) => i,
            None => {
                return Err(AppError::not_found("task", id));
            },
        };
        let before = self.task_at(i).copy();
        let same = match (&before.parent_id, parent_id) {
            (Some(a), Some(b)) => text_eq(a.as_str(), b),
            (None, None) => true,
            _ => false,
        };
        if same {
            return Ok(ChangeResult { task: before, changed: false });
        }
        if let Some(p) = parent_id {
            let need_open = !is_closed(before.status.as_str());
            validate_parent(self, p, Some(id), need_open)?;
        }
        if !self.has_room(1) {
            return Err(exhausted());
        }
        let mut task = before.copy();
        task.parent_id = match parent_id {
            Some(p) => Some(p.to_owned()),
            None => None,
        };
        task.updated_at = at.to_owned();
        let after = task.copy();
        proof {
            lemma_index_of(self@.tasks, i as int);
        }
        self.set_task(i, task);
        self.record(
            id,
            "parent_changed",
            at,
            Changes {
                before: Some(Snapshot::Task(before)),
                after: Some(Snapshot::Task(after.copy())),
                body: None,
                cascade_from: None,
            },
        );
        Ok(ChangeResult { task: after, changed: true })
    }
}

} // verus!
