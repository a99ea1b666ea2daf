//! Creating tasks (with idempotent retries), reading one task and its history.
use vstd::prelude::*;

use crate::clock::{new_id, now, utc_time_text, uuid_v4_text};
use crate::error::{empty_msg, invalid_v, not_found_v, AppError, ErrorV};
use crate::model::{
    is_category, valid_category, ChangesV, Changes, CreateResult, CreateTask, CreateTaskV,
    HistoryEntry, HistoryV, Snapshot, SnapshotV, Task, TaskV,
};
use crate::parenting::{parent_error, validate_parent};
use crate::store::{
    exhausted, exhausted_v, has_task, history_view, lemma_index_of, task_index, Store, StoreV,
};
use crate::text::{blank, clone_opt, clone_strings, is_blank, opt_view, seq_view};

verus! {

/// Some task carries this creation token.
pub open spec fn has_token(ts: Seq<TaskV>, tok: Seq<char>) -> bool {
    exists|i: int| 0 <= i < ts.len() && (#[trigger] ts[i]).creation_token == Some(tok)
}

pub open spec fn token_index(ts: Seq<TaskV>, tok: Seq<char>) -> int {
    choose|i: int| 0 <= i < ts.len() && (#[trigger] ts[i]).creation_token == Some(tok)
}

pub open spec fn category_msg() -> Seq<char> {
    "Category must be personal or work"@
}

pub open spec fn blank_opt(o: Option<Seq<char>>) -> bool {
    o is Some && blank(o->0)
}

/// The first validation refusal of a creation request, if any.
pub open spec fn create_error(req: CreateTaskV) -> Option<ErrorV> {
    if !valid_category(req.category) {
        Some(invalid_v("category"@, category_msg()))
    } else if blank(req.title) {
        Some(invalid_v("title"@, empty_msg()))
    } else if blank_opt(req.project) {
        Some(invalid_v("project"@, empty_msg()))
    } else if blank_opt(req.parent_id) {
        Some(invalid_v("parent_id"@, empty_msg()))
    } else if blank_opt(req.creation_token) {
        Some(invalid_v("creation_token"@, empty_msg()))
    } else if exists|k: int| 0 <= k < req.sources.len() && blank(#[trigger] req.sources[k]) {
        Some(invalid_v("source"@, empty_msg()))
    } else {
        None
    }
}

/// The task that a request creates with this id at this time.
pub open spec fn new_task(req: CreateTaskV, id: Seq<char>, at: Seq<char>) -> TaskV {
    TaskV {
        id,
        title: req.title,
        description: req.description,
        status: "pending"@,
        category: req.category,
        project: req.project,
        parent_id: req.parent_id,
        blocked_reason: None,
        cancel_reason: None,
        sources: req.sources,
        created_at: at,
        updated_at: at,
        closed_at: None,
        creation_token: req.creation_token,
    }
}

/// The error for an id that is already taken.
pub open spec fn duplicate_id_v() -> ErrorV {
    ErrorV::Database { busy: false, message: "UNIQUE constraint failed: tasks.id"@ }
}

/// What creating a task does.  A token already bound to the same request
/// returns that task as it is now; bound to another request, it conflicts.
pub open spec fn create_spec(s: StoreV, req: CreateTaskV, id: Seq<char>, at: Seq<char>) -> (
    StoreV,
    Result<(TaskV, bool), ErrorV>,
) {
    if req.creation_token is Some && has_token(s.tasks, req.creation_token->0) {
        let i = token_index(s.tasks, req.creation_token->0);
        if s.requests[i] != req {
            (
                s,
                Err(
                    ErrorV::CreationTokenConflict {
                        creation_token: req.creation_token->0,
                        task_id: s.tasks[i].id,
                    },
                ),
            )
        } else {
            (s, Ok((s.tasks[i], true)))
        }
    } else if create_error(req) is Some {
        (s, Err(create_error(req)->0))
    } else if req.parent_id is Some && parent_error(s.tasks, req.parent_id->0, None, true) is Some {
        (s, Err(parent_error(s.tasks, req.parent_id->0, None, true)->0))
    } else if has_task(s.tasks, id) {
        (s, Err(duplicate_id_v()))
    } else if !s.room(1) {
        (s, Err(exhausted_v()))
    } else {
        let t = new_task(req, id, at);
        let s1 = StoreV { tasks: s.tasks.push(t), requests: s.requests.push(req), ..s };
        (
            s1.recorded(
                id,
                "created"@,
                at,
                ChangesV { before: None, after: Some(SnapshotV::Task(t)), body: None, cascade_from: None },
            ),
            Ok((t, false)),
        )
    }
}

pub open spec fn create_view(r: Result<CreateResult, AppError>) -> Result<(TaskV, bool), ErrorV> {
    match r {
        Ok(c) => Ok((c.task@, c.deduplicated)),
        Err(e) => Err(e@),
    }
}

/// Checks a creation request field by field.
pub fn validate(input: &CreateTask) -> (r: Result<(), AppError>)
    ensures
        match create_error(input@) {
            Some(e) => r is Err && r->Err_0@ == e,
            None => r is Ok,
        },
{
    if !is_category(input.category.as_str()) {
        return Err(AppError::invalid("category", "Category must be personal or work"));
    }
    if is_blank(input.title.as_str()) {
        return Err(AppError::invalid("title", "Must not be empty"));
    }
    if let Some(p) = &input.project {
        if is_blank(p.as_str()) {
            return Err(AppError::invalid("project", "Must not be empty"));
        }
    }
    if let Some(p) = &input.parent_id {
        if is_blank(p.as_str()) {
            return Err(AppError::invalid("parent_id", "Must not be empty"));
        }
    }
    if let Some(p) = &input.creation_token {
        if is_blank(p.as_str()) {
            return Err(AppError::invalid("creation_token", "Must not be empty"));
        }
    }
    let mut k: usize = 0;
    #[verifier::loop_isolation(false)]
    while k < input.sources.len()
        invariant
            k <= input.sources@.len(),
            forall|j: int| 0 <= j < k ==> !blank((#[trigger] input.sources@[j])@),
        decreases input.sources.len() - k,
    {
        if is_blank(input.sources[k].as_str()) {
            assert(input@.sources[k as int] == input.sources@[k as int]@);
            assert(blank(input@.sources[k as int]));
            return Err(AppError::invalid("source", "Must not be empty"));
        }
        k = k + 1;
    }
    assert forall|j: int| 0 <= j < input@.sources.len() implies !blank(#[trigger] input@.sources[j]) by {
        assert(input@.sources[j] == input.sources@[j]@);
    }
    Ok(())
}

impl Store {
    /// The position of the task carrying this creation token.
    fn find_token(&self, tok: &String) -> (r: Option<usize>)
        requires
            self@.wf(),
        ensures
            match r {
                Some(i) => has_token(self@.tasks, tok@) && i as int == token_index(self@.tasks, tok@)
                    && i < self@.tasks.len(),
                None => !has_token(self@.tasks, tok@),
            },
    {
        let n = self.task_count();
        let mut i: usize = 0;
        while i < n
            invariant
                n == self@.tasks.len(),
                i <= n,
                self@.wf(),
                forall|j: int| 0 <= j < i ==> (#[trigger] self@.tasks[j]).creation_token != Some(tok@),
            decreases n - i,
        {
            let t = self.task_at(i);
            if let Some(x) = &t.creation_token {
                if *x == *tok {
                    proof {
                        assert(self@.tasks[i as int].creation_token == Some(tok@));
                        let k = token_index(self@.tasks, tok@);
                        assert(self@.tasks[k].creation_token == Some(tok@));
                        if k != i {
                            assert(self@.tasks[i as int].creation_token is Some);
                        }
                    }
                    return Some(i);
                }
            }
            i = i + 1;
        }
        None
    }

    /// Creates a `pending` task with the given id and time.
    pub fn create_at(&mut self, input: CreateTask, id: &str, at: &str) -> (r: Result<
        CreateResult,
        AppError,
    >)
        requires
            old(self)@.wf(),
        ensures
            final(self)@.wf(),
            (final(self)@, create_view(r)) == create_spec(old(self)@, input@, id@, at@),
    {
        if let Some(tok) = &input.creation_token {
            if let Some(i) = self.find_token(tok) {
                let req = self.request_at(i);
                if !req.same(&input) {
                    return Err(AppError::CreationTokenConflict {
                        creation_token: tok.clone(),
                        task_id: self.task_at(i).id.clone(),
                    });
                }
                return Ok(CreateResult { task: self.task_at(i).copy(), deduplicated: true });
            }
        }
        validate(&input)?;
        if let Some(p) = &input.parent_id {
            validate_parent(self, p.as_str(), None, true)?;
        }
        if self.find_task(id).is_some() {
            return Err(AppError::Database {
                busy: false,
                message: "UNIQUE constraint failed: tasks.id".to_owned(),
            });
        }
        if !self.has_room(1) {
            return Err(exhausted());
        }
        let task = Task {
            id: id.to_owned(),
            title: input.title.clone(),
            description: clone_opt(&input.description),
            status: "pending".to_owned(),
            category: input.category.clone(),
            project: clone_opt(&input.project),
            parent_id: clone_opt(&input.parent_id),
            blocked_reason: None,
            cancel_reason: None,
            sources: clone_strings(&input.sources),
            created_at: at.to_owned(),
            updated_at: at.to_owned(),
            closed_at: None,
            creation_token: clone_opt(&input.creation_token),
        };
        let ghost t = task@;
        assert(t == new_task(input@, id@, at@));
        let result = task.copy();
        let snap = task.copy();
        self.push_task(task, input);
        self.record(
            id,
            "created",
            at,
            Changes { before: None, after: Some(Snapshot::Task(snap)), body: None, cascade_from: None },
        );
        Ok(CreateResult { task: result, deduplicated: false })
    }

    /// Creates a task with a fresh random id at the current time.
    pub fn create(&mut self, input: CreateTask) -> (r: Result<CreateResult, AppError>)
        requires
            old(self)@.wf(),
        ensures
            final(self)@.wf(),
            exists|id: Seq<char>, at: Seq<char>|
                uuid_v4_text(id) && utc_time_text(at) && (final(self)@, create_view(r)) == create_spec(old(self)@, input@, id, at),
    {
        let id = new_id();
        let at = now();
        self.create_at(input, id.as_str(), at.as_str())
    }

    /// The task with this id.
    pub fn get(&self, id: &str) -> (r: Result<Task, AppError>)
        requires
            self@.wf(),
        ensures
            match r {
                Ok(t) => has_task(self@.tasks, id@) && t@ == self@.tasks[task_index(self@.tasks, id@)],
                Err(e) => !has_task(self@.tasks, id@) && e@ == not_found_v("task"@, id@),
            },
    {
        match self.find_task(id) {
            Some(i) => Ok(self.task_at(i).copy()),
            None => Err(AppError::not_found("task", id)),
        }
    }

    /// All history of the task with this id, in ascending id order.
    pub fn history(&self, id: &str) -> (r: Result<Vec<HistoryEntry>, AppError>)
        requires
            self@.wf(),
        ensures
            history_ok(r, self@, id@),
    {
        if self.find_task(id).is_none() {
            return Err(AppError::not_found("task", id));
        }
        let all = self.history_entries();
        let ghost p = |h: HistoryV| h.task_id == id@;
        let mut out: Vec<HistoryEntry> = Vec::new();
        let mut i: usize = 0;
        while i < all.len()
            invariant
                i <= all@.len(),
                history_view(all@) == self@.history,
                p == (|h: HistoryV| h.task_id == id@),
                history_view(out@) == self@.history.take(i as int).filter(p),
            decreases all.len() - i,
        {
            let h = &all[i];
            proof {
                assert(self@.history.take(i + 1) =~= self@.history.take(i as int).push(self@.history[i as int]));
                self@.history.take(i as int).lemma_filter_push(self@.history[i as int], p);
            }
            if crate::text::text_eq(h.task_id.as_str(), id) {
                out.push(h.copy());
                assert(history_view(out@) =~= self@.history.take(i as int).filter(p).push(self@.history[i as int]));
            }
            i = i + 1;
        }
        assert(self@.history.take(all.len() as int) =~= self@.history);
        Ok(out)
    }
}

/// Every history entry of the task with this id, in ascending id order; or
/// not found.
pub open spec fn history_ok(r: Result<Vec<HistoryEntry>, AppError>, s: StoreV, id: Seq<char>) -> bool {
    match r {
        Ok(v) => has_task(s.tasks, id) && history_view(v@) == s.history.filter(
            |h: HistoryV| h.task_id == id,
        ),
        Err(e) => !has_task(s.tasks, id) && e@ == not_found_v("task"@, id),
    }
}

} // verus!
