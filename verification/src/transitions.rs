//! Status operations, with cascades over open descendants.
use vstd::prelude::*;

use crate::clock::{now, utc_time_text};
use crate::error::{empty_msg, invalid_v, not_found_v, AppError, ErrorV};
use crate::model::{
    closed_status, ChangesV, Changes, Snapshot, SnapshotV, Task, TaskV, Transition,
    TransitionResult,
};
use crate::parenting::{parent_error, validate_parent};
use crate::sorting::usize_seq;
use crate::store::{exhausted, exhausted_v, has_task, lemma_index_of, task_index, Store, StoreV};
use crate::text::{blank, clone_opt, is_blank, opt_eq, opt_view, seq_view, text_eq};
use crate::tree::{open_descendant_positions, open_descendants};

verus! {

/// The status an operation asks for.
pub open spec fn target_status(a: Transition) -> Seq<char> {
    match a {
        Transition::Start => "in_progress"@,
        Transition::Block { .. } => "blocked"@,
        Transition::Done { .. } => "done"@,
        Transition::Cancel { .. } => "cancelled"@,
        Transition::Reopen => "pending"@,
    }
}

pub open spec fn is_reopen(a: Transition) -> bool {
    a is Reopen
}

/// A given reason holds only white space.
pub open spec fn reason_blank(a: Transition) -> bool {
    match a {
        Transition::Block { reason } => blank(reason@),
        Transition::Cancel { reason: Some(r), .. } => blank(r@),
        _ => false,
    }
}

/// Closed tasks only reopen; open tasks other than `pending` cannot reopen.
pub open spec fn state_refused(status: Seq<char>, a: Transition) -> bool {
    (is_reopen(a) && !closed_status(status) && status != "pending"@) || (!is_reopen(a)
        && closed_status(status) && status != target_status(a))
}

pub open spec fn cascades(a: Transition) -> bool {
    match a {
        Transition::Done { cascade } => cascade,
        Transition::Cancel { cascade, .. } => cascade,
        _ => false,
    }
}

/// The task with status and reasons set as the operation asks.
pub open spec fn applied(t: TaskV, a: Transition) -> TaskV {
    TaskV {
        status: target_status(a),
        blocked_reason: match a {
            Transition::Block { reason } => Some(reason@),
            _ => None,
        },
        cancel_reason: match a {
            Transition::Cancel { reason, .. } => opt_view(reason),
            _ => None,
        },
        ..t
    }
}

/// The stored form of `after`: updated now, and closed now when the status
/// changes to a closed one (cleared when it changes to an open one).
pub open spec fn saved(before: TaskV, after: TaskV, at: Seq<char>) -> TaskV {
    TaskV {
        updated_at: at,
        closed_at: if before.status != after.status {
            if closed_status(after.status) {
                Some(at)
            } else {
                None
            }
        } else {
            after.closed_at
        },
        ..after
    }
}

pub open spec fn save_kind(before: TaskV, after: TaskV) -> Seq<char> {
    if before.status != after.status {
        "status_changed"@
    } else {
        "edited"@
    }
}

/// Stores the operation's result for the task at `j` whose record was `before`.
pub open spec fn save_at(
    s: StoreV,
    j: int,
    before: TaskV,
    a: Transition,
    at: Seq<char>,
    cascade_from: Option<Seq<char>>,
) -> StoreV {
    let after = saved(before, applied(before, a), at);
    s.with_task(j, after).recorded(
        before.id,
        save_kind(before, after),
        at,
        ChangesV {
            before: Some(SnapshotV::Task(before)),
            after: Some(SnapshotV::Task(after)),
            body: None,
            cascade_from,
        },
    )
}

/// Applies the operation to the tasks at `ds`, in order, each from its record in `ts0`.
pub open spec fn cascade(
    s: StoreV,
    ts0: Seq<TaskV>,
    ds: Seq<int>,
    a: Transition,
    at: Seq<char>,
    root: Seq<char>,
) -> StoreV
    decreases ds.len(),
{
    if ds.len() == 0 {
        s
    } else {
        save_at(
            cascade(s, ts0, ds.drop_last(), a, at, root),
            ds.last(),
            ts0[ds.last()],
            a,
            at,
            Some(root),
        )
    }
}

/// The descendants a closing operation reaches: the open descendants when
/// the target enters a closed status, none otherwise.
pub open spec fn reached(s: StoreV, i: int, a: Transition) -> Seq<int> {
    if closed_status(target_status(a)) && s.tasks[i].status != target_status(a) {
        open_descendants(s.tasks, i)
    } else {
        seq![]
    }
}

pub open spec fn ids_of(ts: Seq<TaskV>, ds: Seq<int>) -> Seq<Seq<char>> {
    ds.map_values(|j: int| ts[j].id)
}

/// What a status operation does to a store.
pub open spec fn transition_spec(s: StoreV, id: Seq<char>, a: Transition, at: Seq<char>) -> (
    StoreV,
    Result<(TaskV, bool, Seq<Seq<char>>), ErrorV>,
) {
    if reason_blank(a) {
        (s, Err(invalid_v("reason"@, empty_msg())))
    } else if !has_task(s.tasks, id) {
        (s, Err(not_found_v("task"@, id)))
    } else {
        let i = task_index(s.tasks, id);
        let before = s.tasks[i];
        if state_refused(before.status, a) {
            (
                s,
                Err(
                    ErrorV::InvalidState {
                        task_id: id,
                        status: before.status,
                        requested_status: target_status(a),
                    },
                ),
            )
        } else if is_reopen(a) && closed_status(before.status) && before.parent_id is Some
            && parent_error(s.tasks, before.parent_id->0, None, true) is Some {
            (s, Err(parent_error(s.tasks, before.parent_id->0, None, true)->0))
        } else if applied(before, a) == before {
            (s, Ok((before, false, seq![])))
        } else {
            let ds = reached(s, i, a);
            if !cascades(a) && ds.len() > 0 {
                (s, Err(ErrorV::OpenDescendants { task_id: id, blocking_task_ids: ids_of(s.tasks, ds) }))
            } else if !s.room(1 + ds.len() as int) {
                (s, Err(exhausted_v()))
            } else {
                let s1 = save_at(s, i, before, a, at, None);
                (
                    cascade(s1, s.tasks, ds, a, at, id),
                    Ok((saved(before, applied(before, a), at), true, seq![id] + ids_of(s.tasks, ds))),
                )
            }
        }
    }
}

pub open spec fn transition_view(r: Result<TransitionResult, AppError>) -> Result<
    (TaskV, bool, Seq<Seq<char>>),
    ErrorV,
> {
    match r {
        Ok(t) => Ok((t.task@, t.changed, seq_view(t.affected_task_ids@))),
        Err(e) => Err(e@),
    }
}

pub fn target_of(a: &Transition) -> (r: &'static str)
    ensures
        r@ == target_status(*a),
{
    match a {
        Transition::Start => "in_progress",
        Transition::Block { .. } => "blocked",
        Transition::Done { .. } => "done",
        Transition::Cancel { .. } => "cancelled",
        Transition::Reopen => "pending",
    }
}

/// `task` with the status and reasons that `a` asks for.
pub fn apply(task: &mut Task, action: &Transition, target: &str)
    requires
        target@ == target_status(*action),
    ensures
        final(task)@ == applied(old(task)@, *action),
{
    task.status = target.to_owned();
    task.blocked_reason = match action {
        Transition::Block { reason } => Some(reason.clone()),
        _ => None,
    };
    task.cancel_reason = match action {
        Transition::Cancel { reason, .. } => clone_opt(reason),
        _ => None,
    };
}

/// Whether a status is `done` or `cancelled`.
pub fn is_closed(status: &str) -> (r: bool)
    ensures
        r == closed_status(status@),
{
    text_eq(status, "done") || text_eq(status, "cancelled")
}

impl Store {
    /// Stores `apply(before)` at position `j` and records it.
    fn save(&mut self, j: usize, before: &Task, action: &Transition, target: &str, at: &str, cascade_from: Option<&str>) -> (r: Task)
        requires
            old(self)@.wf(),
            old(self)@.room(1),
            j < old(self)@.tasks.len(),
            before@.id == old(self)@.tasks[j as int].id,
            before@.creation_token == old(self)@.tasks[j as int].creation_token,
            target@ == target_status(*action),
        ensures
            final(self)@.wf(),
            final(self)@ == save_at(old(self)@, j as int, before@, *action, at@, crate::parenting::opt_str(cascade_from)),
            r@ == saved(before@, applied(before@, *action), at@),
    {
        let mut task = before.copy();
        apply(&mut task, action, target);
        let status_changed = !text_eq(before.status.as_str(), task.status.as_str());
        task.updated_at = at.to_owned();
        if status_changed {
            task.closed_at = if is_closed(task.status.as_str()) {
                Some(at.to_owned())
            } else {
                None
            };
        }
        let after = task.copy();
        let snap = task.copy();
        self.set_task(j, task);
        let kind = if status_changed {
            "status_changed"
        } else {
            "edited"
        };
        self.record(
            before.id.as_str(),
            kind,
            at,
            Changes {
                before: Some(Snapshot::Task(before.copy())),
                after: Some(Snapshot::Task(snap)),
                body: None,
                cascade_from: match cascade_from {
                    Some(c) => Some(c.to_owned()),
                    None => None,
                },
            },
        );
        after
    }

    /// Runs a status operation on task `id` at time `at`.
    pub fn transition_at(&mut self, id: &str, action: Transition, at: &str) -> (r: Result<
        TransitionResult,
        AppError,
    >)
        requires
            old(self)@.wf(),
        ensures
            final(self)@.wf(),
            (final(self)@, transition_view(r)) == transition_spec(old(self)@, id@, action, at@),
    {
        let target = target_of(&action);
        match &action {
            Transition::Block { reason } => {
                if is_blank(reason.as_str()) {
                    return Err(AppError::invalid("reason", "Must not be empty"));
                }
            },
            Transition::Cancel { reason: Some(reason), .. } => {
                if is_blank(reason.as_str()) {
                    return Err(AppError::invalid("reason", "Must not be empty"));
                }
            },
            _ => {},
        }
        let i = match self.find_task(id) {
            Some(i) => i,
            None => {
                return Err(AppError::not_found("task", id));
            },
        };
        let before = self.task_at(i).copy();
        let reopen = match &action {
            Transition::Reopen => true,
            _ => false,
        };
        let closed_before = is_closed(before.status.as_str());
        if (reopen && !closed_before && !text_eq(before.status.as_str(), "pending")) || (!reopen
            && closed_before && !text_eq(before.status.as_str(), target)) {
            return Err(AppError::InvalidState {
                task_id: id.to_owned(),
                status: before.status.clone(),
                requested_status: target.to_owned(),
            });
        }
        if reopen && closed_before {
            if let Some(p) = &before.parent_id {
                validate_parent(self, p.as_str(), None, true)?;
            }
        }
        let mut task = before.copy();
        apply(&mut task, &action, target);
        if task.same(&before) {
            let none: Vec<String> = Vec::new();
            assert(seq_view(none@) =~= Seq::<Seq<char>>::empty());
            return Ok(TransitionResult { task: before, changed: false, affected_task_ids: none });
        }
        let ghost s0 = self@;
        let descendants: Vec<usize> = if is_closed(target) && !text_eq(before.status.as_str(), target) {
            open_descendant_positions(self, i)
        } else {
            Vec::new()
        };
        assert(usize_seq(descendants@) =~= reached(s0, i as int, action));
        let cascading = match &action {
            Transition::Done { cascade } => *cascade,
            Transition::Cancel { cascade, .. } => *cascade,
            _ => false,
        };
        if !cascading && descendants.len() > 0 {
            let mut ids: Vec<String> = Vec::new();
            let mut k: usize = 0;
            while k < descendants.len()
                invariant
                    k <= descendants@.len(),
                    self@ == s0,
                    forall|q: int| 0 <= q < descendants@.len() ==> #[trigger] descendants@[q] < s0.tasks.len(),
                    seq_view(ids@) == ids_of(s0.tasks, usize_seq(descendants@).take(k as int)),
                decreases descendants.len() - k,
            {
                let ghost old_ids = seq_view(ids@);
                let dk = descendants[k];
                ids.push(self.task_at(dk).id.clone());
                proof {
                    let dsq = usize_seq(descendants@);
                    assert(dsq.take(k + 1) =~= dsq.take(k as int).push(dk as int));
                    assert(ids_of(s0.tasks, dsq.take(k + 1)) =~= ids_of(s0.tasks, dsq.take(k as int)).push(s0.tasks[dk as int].id));
                    assert(seq_view(ids@) =~= old_ids.push(s0.tasks[dk as int].id));
                }
                k = k + 1;
            }
            assert(usize_seq(descendants@).take(descendants@.len() as int) =~= usize_seq(descendants@));
            return Err(AppError::OpenDescendants { task_id: id.to_owned(), blocking_task_ids: ids });
        }
        if !self.has_room_for_one_more(descendants.len()) {
            return Err(exhausted());
        }
        // the records of the reached descendants before any change
        let mut befores: Vec<Task> = Vec::new();
        let mut k: usize = 0;
        while k < descendants.len()
            invariant
                k <= descendants@.len(),
                self@ == s0,
                forall|q: int| 0 <= q < descendants@.len() ==> #[trigger] descendants@[q] < s0.tasks.len(),
                befores@.len() == k,
                forall|q: int| 0 <= q < k ==> (#[trigger] befores@[q])@ == s0.tasks[descendants@[q] as int],
            decreases descendants.len() - k,
        {
            befores.push(self.task_at(descendants[k]).copy());
            k = k + 1;
        }
        proof {
            lemma_index_of(s0.tasks, i as int);
        }
        let saved_task = self.save(i, &before, &action, target, at, None);
        let mut affected: Vec<String> = Vec::new();
        affected.push(id.to_owned());
        let ghost s1 = self@;
        let ghost ds = usize_seq(descendants@);
        assert(cascade(s1, s0.tasks, ds.take(0), action, at@, id@) == s1);
        assert(seq_view(affected@) =~= seq![id@] + ids_of(s0.tasks, ds.take(0)));
        let mut k: usize = 0;
        while k < descendants.len()
            invariant
                k <= descendants@.len(),
                ds == usize_seq(descendants@),
                forall|q: int| 0 <= q < descendants@.len() ==> #[trigger] descendants@[q] < s0.tasks.len(),
                befores@.len() == descendants@.len(),
                forall|q: int| 0 <= q < descendants@.len() ==> (#[trigger] befores@[q])@ == s0.tasks[descendants@[q] as int],
                self@.wf(),
                self@ == cascade(s1, s0.tasks, ds.take(k as int), action, at@, id@),
                self@.tasks.len() == s0.tasks.len(),
                forall|q: int| 0 <= q < s0.tasks.len() ==> (#[trigger] self@.tasks[q]).id == s0.tasks[q].id
                    && self@.tasks[q].creation_token == s0.tasks[q].creation_token,
                self@.next_history_id == s1.next_history_id + k,
                s1.room(descendants@.len() as int),
                target@ == target_status(action),
                seq_view(affected@) == seq![id@] + ids_of(s0.tasks, ds.take(k as int)),
            decreases descendants.len() - k,
        {
            let j = descendants[k];
            let b = &befores[k];
            let ghost prev = self@;
            let ghost old_aff = seq_view(affected@);
            let _ = self.save(j, b, &action, target, at, Some(id));
            affected.push(b.id.clone());
            proof {
                assert(ds.take(k + 1).drop_last() =~= ds.take(k as int));
                assert(ds.take(k + 1).last() == j as int);
                assert(ds.take(k + 1) =~= ds.take(k as int).push(j as int));
                assert(ids_of(s0.tasks, ds.take(k + 1)) =~= ids_of(s0.tasks, ds.take(k as int)).push(s0.tasks[j as int].id));
                assert(seq_view(affected@) =~= old_aff.push(b@.id));
                assert(seq_view(affected@) =~= seq![id@] + ids_of(s0.tasks, ds.take(k + 1)));
                assert forall|q: int| 0 <= q < s0.tasks.len() implies (#[trigger] self@.tasks[q]).id == s0.tasks[q].id
                    && self@.tasks[q].creation_token == s0.tasks[q].creation_token by {
                    assert(self@.tasks[q] == prev.tasks.update(j as int, saved(b@, applied(b@, action), at@))[q]);
                }
            }
            k = k + 1;
        }
        assert(ds.take(descendants@.len() as int) =~= ds);
        Ok(TransitionResult { task: saved_task, changed: true, affected_task_ids: affected })
    }

    /// Runs a status operation at the current time.
    pub fn transition(&mut self, id: &str, action: Transition) -> (r: Result<TransitionResult, AppError>)
        requires
            old(self)@.wf(),
        ensures
            final(self)@.wf(),
            exists|at: Seq<char>| utc_time_text(at) && (final(self)@, transition_view(r)) == transition_spec(old(self)@, id@, action, at),
    {
        let at = now();
        self.transition_at(id, action, at.as_str())
    }
}

} // verus!
