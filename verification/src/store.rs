//! The store: every task with its original creation request, every reminder
//! association and the full history, with the primitive reads and writes that
//! the operations are built from.
use vstd::prelude::*;

use crate::error::{AppError, ErrorV};
use crate::model::{Changes, ChangesV, CreateTask, CreateTaskV, HistoryEntry, HistoryV, Task, TaskV};
use crate::reminders::{Reminder, ReminderV};
use crate::text::text_eq;

verus! {

/// All data of one database, read and changed as a whole.
pub struct Store {
    tasks: Vec<Task>,
    requests: Vec<CreateTask>,
    reminders: Vec<Reminder>,
    history: Vec<HistoryEntry>,
    next_history_id: i64,
}

/// The view of a store.  `requests[i]` is the original request of `tasks[i]`.
pub struct StoreV {
    pub tasks: Seq<TaskV>,
    pub requests: Seq<CreateTaskV>,
    pub reminders: Seq<ReminderV>,
    pub history: Seq<HistoryV>,
    pub next_history_id: int,
}

pub open spec fn tasks_view(v: Seq<Task>) -> Seq<TaskV> {
    v.map_values(|t: Task| t@)
}

pub open spec fn requests_view(v: Seq<CreateTask>) -> Seq<CreateTaskV> {
    v.map_values(|t: CreateTask| t@)
}

pub open spec fn reminders_view(v: Seq<Reminder>) -> Seq<ReminderV> {
    v.map_values(|t: Reminder| t@)
}

pub open spec fn history_view(v: Seq<HistoryEntry>) -> Seq<HistoryV> {
    v.map_values(|t: HistoryEntry| t@)
}

impl View for Store {
    type V = StoreV;

    closed spec fn view(&self) -> StoreV {
        StoreV {
            tasks: tasks_view(self.tasks@),
            requests: requests_view(self.requests@),
            reminders: reminders_view(self.reminders@),
            history: history_view(self.history@),
            next_history_id: self.next_history_id as int,
        }
    }
}

/// Some task has this id.
pub open spec fn has_task(ts: Seq<TaskV>, id: Seq<char>) -> bool {
    exists|i: int| 0 <= i < ts.len() && (#[trigger] ts[i]).id == id
}

/// The position of the task with this id, or -1.
pub open spec fn task_index(ts: Seq<TaskV>, id: Seq<char>) -> int {
    if has_task(ts, id) {
        choose|i: int| 0 <= i < ts.len() && (#[trigger] ts[i]).id == id
    } else {
        -1
    }
}

/// The task with this id, when there is one.
pub open spec fn task_of(ts: Seq<TaskV>, id: Seq<char>) -> TaskV {
    ts[task_index(ts, id)]
}

pub open spec fn has_reminder(rs: Seq<ReminderV>, id: Seq<char>) -> bool {
    exists|i: int| 0 <= i < rs.len() && (#[trigger] rs[i]).id == id
}

pub open spec fn reminder_index(rs: Seq<ReminderV>, id: Seq<char>) -> int {
    if has_reminder(rs, id) {
        choose|i: int| 0 <= i < rs.len() && (#[trigger] rs[i]).id == id
    } else {
        -1
    }
}

pub open spec fn unique_task_ids(ts: Seq<TaskV>) -> bool {
    forall|i: int, j: int| 0 <= i < ts.len() && 0 <= j < ts.len() && i != j ==> (#[trigger] ts[i]).id != (#[trigger] ts[j]).id
}

pub open spec fn unique_tokens(ts: Seq<TaskV>) -> bool {
    forall|i: int, j: int|
        0 <= i < ts.len() && 0 <= j < ts.len() && i != j && (#[trigger] ts[i]).creation_token is Some
            ==> (#[trigger] ts[j]).creation_token != ts[i].creation_token
}

pub open spec fn unique_reminder_ids(rs: Seq<ReminderV>) -> bool {
    forall|i: int, j: int| 0 <= i < rs.len() && 0 <= j < rs.len() && i != j ==> (#[trigger] rs[i]).id != (#[trigger] rs[j]).id
}

pub open spec fn history_ordered(hs: Seq<HistoryV>, next: int) -> bool {
    &&& forall|i: int, j: int| 0 <= i < j < hs.len() ==> (#[trigger] hs[i]).id < (#[trigger] hs[j]).id
    &&& forall|i: int| 0 <= i < hs.len() ==> (#[trigger] hs[i]).id < next
    &&& 1 <= next <= i64::MAX
}

impl StoreV {
    /// Ids and creation tokens are keys, every task has its request, and
    /// history ids increase below the next id.
    pub open spec fn wf(self) -> bool {
        &&& self.tasks.len() == self.requests.len()
        &&& unique_task_ids(self.tasks)
        &&& unique_tokens(self.tasks)
        &&& unique_reminder_ids(self.reminders)
        &&& history_ordered(self.history, self.next_history_id)
    }

    /// There is room for `k` more history ids.
    pub open spec fn room(self, k: int) -> bool {
        self.next_history_id + k <= i64::MAX
    }

    /// `self` with one more history entry.
    pub open spec fn recorded(
        self,
        task_id: Seq<char>,
        kind: Seq<char>,
        at: Seq<char>,
        changes: ChangesV,
    ) -> StoreV {
        StoreV {
            history: self.history.push(
                HistoryV { id: self.next_history_id, task_id, kind, at, changes },
            ),
            next_history_id: self.next_history_id + 1,
            ..self
        }
    }

    pub open spec fn with_task(self, i: int, t: TaskV) -> StoreV {
        StoreV { tasks: self.tasks.update(i, t), ..self }
    }
}

/// The error for a history that has used up its ids.
pub open spec fn exhausted_v() -> ErrorV {
    ErrorV::Database { busy: false, message: "history id sequence exhausted"@ }
}

/// The error returned when no history id is left.
pub fn exhausted() -> (e: AppError)
    ensures
        e@ == exhausted_v(),
{
    AppError::Database { busy: false, message: "history id sequence exhausted".to_owned() }
}

pub proof fn lemma_index_of(ts: Seq<TaskV>, i: int)
    requires
        unique_task_ids(ts),
        0 <= i < ts.len(),
    ensures
        has_task(ts, ts[i].id),
        task_index(ts, ts[i].id) == i,
{
    assert(ts[i].id == ts[i].id);
}

pub proof fn lemma_reminder_index_of(rs: Seq<ReminderV>, i: int)
    requires
        unique_reminder_ids(rs),
        0 <= i < rs.len(),
    ensures
        has_reminder(rs, rs[i].id),
        reminder_index(rs, rs[i].id) == i,
{
    assert(rs[i].id == rs[i].id);
}

impl Store {
    /// An empty store.
    pub fn new() -> (s: Store)
        ensures
            s@.wf(),
            s@.tasks.len() == 0,
            s@.reminders.len() == 0,
            s@.history.len() == 0,
            s@.next_history_id == 1,
    {
        let s = Store {
            tasks: Vec::new(),
            requests: Vec::new(),
            reminders: Vec::new(),
            history: Vec::new(),
            next_history_id: 1,
        };
        assert(s@.tasks =~= Seq::empty());
        assert(s@.requests =~= Seq::empty());
        assert(s@.reminders =~= Seq::empty());
        assert(s@.history =~= Seq::empty());
        s
    }

    /// A store over rows read back from storage, when they keep its invariant:
    /// one request per task, unique task ids, creation tokens and reminder ids,
    /// and increasing history ids below `next_history_id`.
    pub fn load(
        tasks: Vec<Task>,
        requests: Vec<CreateTask>,
        reminders: Vec<Reminder>,
        history: Vec<HistoryEntry>,
        next_history_id: i64,
    ) -> (r: Option<Store>)
        ensures
            ({
                let v = StoreV {
                    tasks: tasks_view(tasks@),
                    requests: requests_view(requests@),
                    reminders: reminders_view(reminders@),
                    history: history_view(history@),
                    next_history_id: next_history_id as int,
                };
                match r {
                    Some(s) => s@ == v && v.wf(),
                    None => !v.wf(),
                }
            }),
    {
        let ghost tv = tasks_view(tasks@);
        let ghost rv = reminders_view(reminders@);
        let ghost hv = history_view(history@);
        if tasks.len() != requests.len() {
            return None;
        }
        let n = tasks.len();
        let mut i: usize = 0;
        while i < n
            invariant
                n == tasks@.len(),
                tv == tasks_view(tasks@),
                i <= n,
                forall|a: int, b: int| 0 <= a < i && 0 <= b < n && a != b ==> (#[trigger] tv[a]).id != (#[trigger] tv[b]).id,
                forall|a: int, b: int|
                    0 <= a < i && 0 <= b < n && a != b && (#[trigger] tv[a]).creation_token is Some
                        ==> (#[trigger] tv[b]).creation_token != tv[a].creation_token,
            decreases n - i,
        {
            let mut j: usize = 0;
            while j < n
                invariant
                    n == tasks@.len(),
                    tv == tasks_view(tasks@),
                    i < n,
                    j <= n,
                    forall|b: int| 0 <= b < j && b != i ==> (#[trigger] tv[b]).id != tv[i as int].id,
                    forall|b: int|
                        0 <= b < j && b != i && tv[i as int].creation_token is Some
                            ==> (#[trigger] tv[b]).creation_token != tv[i as int].creation_token,
                decreases n - j,
            {
                if j != i {
                    if text_eq(tasks[i].id.as_str(), tasks[j].id.as_str()) {
                        assert(tv[i as int].id == tv[j as int].id);
                        assert(!unique_task_ids(tv));
                        return None;
                    }
                    if tasks[i].creation_token.is_some() && crate::text::opt_eq(
                        &tasks[i].creation_token,
                        &tasks[j].creation_token,
                    ) {
                        assert(tv[i as int].creation_token == tv[j as int].creation_token);
                        assert(!unique_tokens(tv));
                        return None;
                    }
                }
                j = j + 1;
            }
            i = i + 1;
        }
        let m = reminders.len();
        let mut i: usize = 0;
        while i < m
            invariant
                m == reminders@.len(),
                rv == reminders_view(reminders@),
                i <= m,
                forall|a: int, b: int| 0 <= a < i && 0 <= b < m && a != b ==> (#[trigger] rv[a]).id != (#[trigger] rv[b]).id,
            decreases m - i,
        {
            let mut j: usize = 0;
            while j < m
                invariant
                    m == reminders@.len(),
                    rv == reminders_view(reminders@),
                    i < m,
                    j <= m,
                    forall|b: int| 0 <= b < j && b != i ==> (#[trigger] rv[b]).id != rv[i as int].id,
                decreases m - j,
            {
                if j != i && text_eq(reminders[i].id.as_str(), reminders[j].id.as_str()) {
                    assert(rv[i as int].id == rv[j as int].id);
                    assert(!unique_reminder_ids(rv));
                    return None;
                }
                j = j + 1;
            }
            i = i + 1;
        }
        if next_history_id < 1 {
            return None;
        }
        let h = history.len();
        let mut k: usize = 0;
        while k < h
            invariant
                h == history@.len(),
                hv == history_view(history@),
                k <= h,
                forall|a: int, b: int| 0 <= a < b < k ==> (#[trigger] hv[a]).id < (#[trigger] hv[b]).id,
                forall|a: int| 0 <= a < k ==> (#[trigger] hv[a]).id < next_history_id,
            decreases h - k,
        {
            if history[k].id >= next_history_id {
                assert(hv[k as int].id >= next_history_id);
                return None;
            }
            if k > 0 && history[k - 1].id >= history[k].id {
                assert(hv[k - 1].id >= hv[k as int].id);
                return None;
            }
            proof {
                assert forall|a: int, b: int| 0 <= a < b < k + 1 implies (#[trigger] hv[a]).id < (#[trigger] hv[b]).id by {
                    if b == k && a < k - 1 {
                        assert(hv[a].id < hv[k - 1].id);
                    }
                }
            }
            k = k + 1;
        }
        let s = Store { tasks, requests, reminders, history, next_history_id };
        Some(s)
    }

    pub fn tasks(&self) -> (r: &Vec<Task>)
        ensures
            tasks_view(r@) == self@.tasks,
    {
        &self.tasks
    }

    pub fn requests(&self) -> (r: &Vec<CreateTask>)
        ensures
            requests_view(r@) == self@.requests,
    {
        &self.requests
    }

    pub fn reminders(&self) -> (r: &Vec<Reminder>)
        ensures
            reminders_view(r@) == self@.reminders,
    {
        &self.reminders
    }

    pub fn history_entries(&self) -> (r: &Vec<HistoryEntry>)
        ensures
            history_view(r@) == self@.history,
    {
        &self.history
    }

    pub fn next_history_id(&self) -> (r: i64)
        ensures
            r == self@.next_history_id,
    {
        self.next_history_id
    }

    /// The position of the task with this id.
    pub fn find_task(&self, id: &str) -> (r: Option<usize>)
        requires
            self@.wf(),
        ensures
            match r {
                Some(i) => has_task(self@.tasks, id@) && i as int == task_index(self@.tasks, id@)
                    && i < self@.tasks.len(),
                None => !has_task(self@.tasks, id@),
            },
    {
        let mut i: usize = 0;
        while i < self.tasks.len()
            invariant
                i <= self.tasks@.len(),
                self@.wf(),
                forall|j: int| 0 <= j < i ==> (#[trigger] self.tasks@[j])@.id != id@,
            decreases self.tasks.len() - i,
        {
            if text_eq(self.tasks[i].id.as_str(), id) {
                proof {
                    assert(self@.tasks[i as int] == self.tasks@[i as int]@);
                    lemma_index_of(self@.tasks, i as int);
                }
                return Some(i);
            }
            i = i + 1;
        }
        proof {
            if has_task(self@.tasks, id@) {
                let k = choose|k: int| 0 <= k < self@.tasks.len() && (#[trigger] self@.tasks[k]).id == id@;
                assert(self@.tasks[k] == self.tasks@[k]@);
            }
        }
        None
    }

    /// The position of the reminder with this id.
    pub fn find_reminder(&self, id: &str) -> (r: Option<usize>)
        requires
            self@.wf(),
        ensures
            match r {
                Some(i) => has_reminder(self@.reminders, id@) && i as int == reminder_index(
                    self@.reminders,
                    id@,
                ) && i < self@.reminders.len(),
                None => !has_reminder(self@.reminders, id@),
            },
    {
        let mut i: usize = 0;
        while i < self.reminders.len()
            invariant
                i <= self.reminders@.len(),
                self@.wf(),
                forall|j: int| 0 <= j < i ==> (#[trigger] self.reminders@[j])@.id != id@,
            decreases self.reminders.len() - i,
        {
            if text_eq(self.reminders[i].id.as_str(), id) {
                proof {
                    assert(self@.reminders[i as int] == self.reminders@[i as int]@);
                    lemma_reminder_index_of(self@.reminders, i as int);
                }
                return Some(i);
            }
            i = i + 1;
        }
        proof {
            if has_reminder(self@.reminders, id@) {
                let k = choose|k: int| 0 <= k < self@.reminders.len() && (#[trigger] self@.reminders[k]).id == id@;
                assert(self@.reminders[k] == self.reminders@[k]@);
            }
        }
        None
    }

    pub fn task_at(&self, i: usize) -> (r: &Task)
        requires
            i < self@.tasks.len(),
        ensures
            r@ == self@.tasks[i as int],
    {
        &self.tasks[i]
    }

    pub fn request_at(&self, i: usize) -> (r: &CreateTask)
        requires
            i < self@.requests.len(),
        ensures
            r@ == self@.requests[i as int],
    {
        &self.requests[i]
    }

    pub fn reminder_at(&self, i: usize) -> (r: &Reminder)
        requires
            i < self@.reminders.len(),
        ensures
            r@ == self@.reminders[i as int],
    {
        &self.reminders[i]
    }

    pub fn task_count(&self) -> (r: usize)
        ensures
            r == self@.tasks.len(),
    {
        self.tasks.len()
    }

    pub fn reminder_count(&self) -> (r: usize)
        ensures
            r == self@.reminders.len(),
    {
        self.reminders.len()
    }

    /// Whether there is room for `k` more history ids.
    pub fn has_room(&self, k: usize) -> (r: bool)
        requires
            self@.wf(),
        ensures
            r == self@.room(k as int),
    {
        (self.next_history_id as i128) + (k as i128) <= (i64::MAX as i128)
    }

    /// Whether there is room for `k + 1` more history ids.
    pub fn has_room_for_one_more(&self, k: usize) -> (r: bool)
        requires
            self@.wf(),
        ensures
            r == self@.room(k + 1),
    {
        (self.next_history_id as i128) + (k as i128) + 1 <= (i64::MAX as i128)
    }

    /// Appends a history entry with the next id.
    pub(crate) fn record(&mut self, task_id: &str, kind: &str, at: &str, changes: Changes)
        requires
            old(self)@.wf(),
            old(self)@.room(1),
        ensures
            final(self)@ == old(self)@.recorded(task_id@, kind@, at@, changes@),
            final(self)@.wf(),
    {
        let e = HistoryEntry {
            id: self.next_history_id,
            task_id: task_id.to_owned(),
            kind: kind.to_owned(),
            at: at.to_owned(),
            changes,
        };
        self.history.push(e);
        self.next_history_id = self.next_history_id + 1;
        assert(self@.history =~= old(self)@.history.push(e@));
        assert(self@ =~= old(self)@.recorded(task_id@, kind@, at@, changes@));
    }

    /// Replaces the task at `i`, keeping its id and creation token.
    pub(crate) fn set_task(&mut self, i: usize, t: Task)
        requires
            old(self)@.wf(),
            i < old(self)@.tasks.len(),
            t@.id == old(self)@.tasks[i as int].id,
            t@.creation_token == old(self)@.tasks[i as int].creation_token,
        ensures
            final(self)@ == old(self)@.with_task(i as int, t@),
            final(self)@.wf(),
    {
        self.tasks.set(i, t);
        assert(self@.tasks =~= old(self)@.tasks.update(i as int, t@));
        assert(self@ =~= old(self)@.with_task(i as int, t@));
    }

    /// Adds a task with its original request.
    pub(crate) fn push_task(&mut self, t: Task, req: CreateTask)
        requires
            old(self)@.wf(),
            !has_task(old(self)@.tasks, t@.id),
            t@.creation_token is Some ==> forall|j: int|
                0 <= j < old(self)@.tasks.len() ==> (#[trigger] old(self)@.tasks[j]).creation_token
                    != t@.creation_token,
        ensures
            final(self)@ == (StoreV {
                tasks: old(self)@.tasks.push(t@),
                requests: old(self)@.requests.push(req@),
                ..old(self)@
            }),
            final(self)@.wf(),
    {
        self.tasks.push(t);
        self.requests.push(req);
        assert(self@.tasks =~= old(self)@.tasks.push(t@));
        assert(self@.requests =~= old(self)@.requests.push(req@));
        assert(self@ =~= (StoreV {
            tasks: old(self)@.tasks.push(t@),
            requests: old(self)@.requests.push(req@),
            ..old(self)@
        }));
    }

    /// Adds a reminder association.
    pub(crate) fn push_reminder(&mut self, r: Reminder)
        requires
            old(self)@.wf(),
            !has_reminder(old(self)@.reminders, r@.id),
        ensures
            final(self)@ == (StoreV { reminders: old(self)@.reminders.push(r@), ..old(self)@ }),
            final(self)@.wf(),
    {
        self.reminders.push(r);
        assert(self@.reminders =~= old(self)@.reminders.push(r@));
        assert(self@ =~= (StoreV { reminders: old(self)@.reminders.push(r@), ..old(self)@ }));
    }

    /// Replaces the reminder at `i`, keeping its id.
    pub(crate) fn set_reminder(&mut self, i: usize, r: Reminder)
        requires
            old(self)@.wf(),
            i < old(self)@.reminders.len(),
            r@.id == old(self)@.reminders[i as int].id,
        ensures
            final(self)@ == (StoreV {
                reminders: old(self)@.reminders.update(i as int, r@),
                ..old(self)@
            }),
            final(self)@.wf(),
    {
        self.reminders.set(i, r);
        assert(self@.reminders =~= old(self)@.reminders.update(i as int, r@));
        assert(self@ =~= (StoreV {
            reminders: old(self)@.reminders.update(i as int, r@),
            ..old(self)@
        }));
    }

    /// Removes the reminder at `i`.
    pub(crate) fn remove_reminder_at_position(&mut self, i: usize)
        requires
            old(self)@.wf(),
            i < old(self)@.reminders.len(),
        ensures
            final(self)@ == (StoreV {
                reminders: old(self)@.reminders.remove(i as int),
                ..old(self)@
            }),
            final(self)@.wf(),
    {
        self.reminders.remove(i);
        assert(self@.reminders =~= old(self)@.reminders.remove(i as int));
        assert(self@ =~= (StoreV {
            reminders: old(self)@.reminders.remove(i as int),
            ..old(self)@
        }));
        assert forall|a: int, b: int|
            0 <= a < self@.reminders.len() && 0 <= b < self@.reminders.len() && a != b
            implies (#[trigger] self@.reminders[a]).id != (#[trigger] self@.reminders[b]).id by {
            let a2 = if a < i { a } else { a + 1 };
            let b2 = if b < i { b } else { b + 1 };
            assert(self@.reminders[a] == old(self)@.reminders[a2]);
            assert(self@.reminders[b] == old(self)@.reminders[b2]);
        }
    }
}

} // verus!
