//! Editing business fields and appending progress notes.
use vstd::prelude::*;

use crate::clock::{now, utc_time_text};
use crate::error::{empty_msg, invalid_v, not_found_v, AppError, ErrorV};
use crate::model::{is_category, valid_category, ChangeResult, Changes, ChangesV, EditTask, Snapshot, SnapshotV, Task, TaskV};
use crate::parenting::change_view;
use crate::reminders::wechat_reminders;
use crate::sorting::usize_seq;
use crate::store::{exhausted, exhausted_v, has_task, lemma_index_of, task_index, Store, StoreV};
use crate::tasks::category_msg;
use crate::text::{blank, clone_opt, clone_strings, is_blank, opt_view, seq_view, text_eq};

verus! {

/// `field` must hold more than white space.
pub fn nonempty(field: &str, value: &str) -> (r: Result<(), AppError>)
    ensures
        r is Ok <==> !blank(value@),
        r is Err ==> r->Err_0@ == invalid_v(field@, empty_msg()),
{
    if is_blank(value) {
        return Err(AppError::invalid(field, "Must not be empty"));
    }
    Ok(())
}

/// The first validation refusal of an edit, if any.
pub open spec fn edit_error(e: EditTask) -> Option<ErrorV> {
    if e.category is Some && !valid_category(e.category->0@) {
        Some(invalid_v("category"@, category_msg()))
    } else if e.title is Some && blank(e.title->0@) {
        Some(invalid_v("title"@, empty_msg()))
    } else if e.project is Some && e.project->0 is Some && blank(e.project->0->0@) {
        Some(invalid_v("project"@, empty_msg()))
    } else if e.sources is Some && exists|k: int|
        0 <= k < e.sources->0@.len() && blank((#[trigger] e.sources->0@[k])@) {
        Some(invalid_v("source"@, empty_msg()))
    } else {
        None
    }
}

/// Checks an edit field by field.
pub fn validate(input: &EditTask) -> (r: Result<(), AppError>)
    ensures
        match edit_error(*input) {
            Some(e) => r is Err && r->Err_0@ == e,
            None => r is Ok,
        },
{
    if let Some(category) = &input.category {
        if !is_category(category.as_str()) {
            return Err(AppError::invalid("category", "Category must be personal or work"));
        }
    }
    if let Some(title) = &input.title {
        nonempty("title", title.as_str())?;
    }
    if let Some(Some(project)) = &input.project {
        nonempty("project", project.as_str())?;
    }
    if let Some(sources) = &input.sources {
        let mut k: usize = 0;
        #[verifier::loop_isolation(false)]
        while k < sources.len()
            invariant
                k <= sources@.len(),
                forall|j: int| 0 <= j < k ==> !blank((#[trigger] sources@[j])@),
            decreases sources.len() - k,
        {
            nonempty("source", sources[k].as_str())?;
            k = k + 1;
        }
    }
    Ok(())
}

/// The task with the edit's fields set.
pub open spec fn edited(t: TaskV, e: EditTask) -> TaskV {
    TaskV {
        title: match e.title {
            Some(x) => x@,
            None => t.title,
        },
        category: match e.category {
            Some(x) => x@,
            None => t.category,
        },
        description: match e.description {
            Some(x) => opt_view(x),
            None => t.description,
        },
        project: match e.project {
            Some(x) => opt_view(x),
            None => t.project,
        },
        sources: match e.sources {
            Some(x) => seq_view(x@),
            None => t.sources,
        },
        ..t
    }
}

/// What an edit does.  An edit that changes nothing records nothing.
pub open spec fn edit_spec(s: StoreV, id: Seq<char>, e: EditTask, at: Seq<char>) -> (
    StoreV,
    Result<(TaskV, bool), ErrorV>,
) {
    if edit_error(e) is Some {
        (s, Err(edit_error(e)->0))
    } else if !has_task(s.tasks, id) {
        (s, Err(not_found_v("task"@, id)))
    } else {
        let i = task_index(s.tasks, id);
        let before = s.tasks[i];
        let after0 = edited(before, e);
        if after0 == before {
            (s, Ok((before, false)))
        } else if after0.category == "work"@ && after0.category != before.category
            && wechat_reminders(s.reminders, id).len() > 0 {
            (
                s,
                Err(
                    ErrorV::ChannelForbidden {
                        task_id: id,
                        channel: "wechat"@,
                        reminder_ids: wechat_reminders(s.reminders, id).map_values(
                            |j: int| s.reminders[j].id,
                        ),
                    },
                ),
            )
        } else if !s.room(1) {
            (s, Err(exhausted_v()))
        } else {
            let after = TaskV { updated_at: at, ..after0 };
            (
                s.with_task(i, after).recorded(
                    id,
                    "edited"@,
                    at,
                    ChangesV {
                        before: Some(SnapshotV::Task(before)),
                        after: Some(SnapshotV::Task(after)),
                        body: None,
                        cascade_from: None,
                    },
                ),
                Ok((after, true)),
            )
        }
    }
}

/// What appending a note does: it always records, even for the same body.
pub open spec fn note_spec(s: StoreV, id: Seq<char>, body: Seq<char>, at: Seq<char>) -> (
    StoreV,
    Result<(TaskV, bool), ErrorV>,
) {
    if blank(body) {
        (s, Err(invalid_v("body"@, empty_msg())))
    } else if !has_task(s.tasks, id) {
        (s, Err(not_found_v("task"@, id)))
    } else if !s.room(1) {
        (s, Err(exhausted_v()))
    } else {
        let i = task_index(s.tasks, id);
        let before = s.tasks[i];
        let after = TaskV { updated_at: at, ..before };
        (
            s.with_task(i, after).recorded(
                id,
                "note"@,
                at,
                ChangesV {
                    before: Some(SnapshotV::Task(before)),
                    after: Some(SnapshotV::Task(after)),
                    body: Some(body),
                    cascade_from: None,
                },
            ),
            Ok((after, true)),
        )
    }
}

impl Store {
    /// Edits business fields of task `id` at time `at`.
    pub fn edit_at(&mut self, id: &str, input: EditTask, at: &str) -> (r: Result<ChangeResult, AppError>)
        requires
            old(self)@.wf(),
        ensures
            final(self)@.wf(),
            (final(self)@, change_view(r)) == edit_spec(old(self)@, id@, input, at@),
    {
        validate(&input)?;
        let i = match self.find_task(id) {
            Some(i) => i,
            None => {
                return Err(AppError::not_found("task", id));
            },
        };
        let before = self.task_at(i).copy();
        let mut task = before.copy();
        if let Some(title) = &input.title {
            task.title = title.clone();
        }
        if let Some(category) = &input.category {
            task.category = category.clone();
        }
        if let Some(description) = &input.description {
            task.description = clone_opt(description);
        }
        if let Some(project) = &input.project {
            task.project = clone_opt(project);
        }
        if let Some(sources) = &input.sources {
            task.sources = clone_strings(sources);
        }
        assert(task@ == edited(before@, input));
        if task.same(&before) {
            return Ok(ChangeResult { task: before, changed: false });
        }
        if text_eq(task.category.as_str(), "work") && !text_eq(task.category.as_str(), before.category.as_str()) {
            let found = self.wechat_positions(id);
            if found.len() > 0 {
                let mut ids: Vec<String> = Vec::new();
                let mut k: usize = 0;
                let ghost ws = usize_seq(found@);
                while k < found.len()
                    invariant
                        k <= found@.len(),
                        ws == usize_seq(found@),
                        forall|q: int| 0 <= q < found@.len() ==> #[trigger] found@[q] < self@.reminders.len(),
                        seq_view(ids@) == ws.take(k as int).map_values(|j: int| self@.reminders[j].id),
                    decreases found.len() - k,
                {
                    let ghost old_ids = seq_view(ids@);
                    let fk = found[k];
                    ids.push(self.reminder_at(fk).id.clone());
                    proof {
                        assert(ws.take(k + 1) =~= ws.take(k as int).push(fk as int));
                        assert(seq_view(ids@) =~= old_ids.push(self@.reminders[fk as int].id));
                        assert(ws.take(k + 1).map_values(|j: int| self@.reminders[j].id) =~= ws.take(k as int).map_values(|j: int| self@.reminders[j].id).push(self@.reminders[fk as int].id));
                    }
                    k = k + 1;
                }
                assert(ws.take(found@.len() as int) =~= ws);
                return Err(AppError::ChannelForbidden {
                    task_id: id.to_owned(),
                    channel: "wechat".to_owned(),
                    reminder_ids: ids,
                });
            }
        }
        if !self.has_room(1) {
            return Err(exhausted());
        }
        task.updated_at = at.to_owned();
        let after = task.copy();
        let snap = task.copy();
        proof {
            lemma_index_of(self@.tasks, i as int);
        }
        self.set_task(i, task);
        self.record(
            id,
            "edited",
            at,
            Changes {
                before: Some(Snapshot::Task(before)),
                after: Some(Snapshot::Task(snap)),
                body: None,
                cascade_from: None,
            },
        );
        Ok(ChangeResult { task: after, changed: true })
    }

    /// Edits business fields at the current time.
    pub fn edit(&mut self, id: &str, input: EditTask) -> (r: Result<ChangeResult, AppError>)
        requires
            old(self)@.wf(),
        ensures
            final(self)@.wf(),
            exists|at: Seq<char>| utc_time_text(at) && (final(self)@, change_view(r)) == edit_spec(old(self)@, id@, input, at),
    {
        let at = now();
        self.edit_at(id, input, at.as_str())
    }

    /// Appends a progress note to task `id` at time `at`.
    pub fn note_at(&mut self, id: &str, body: &str, at: &str) -> (r: Result<ChangeResult, AppError>)
        requires
            old(self)@.wf(),
        ensures
            final(self)@.wf(),
            (final(self)@, change_view(r)) == note_spec(old(self)@, id@, body@, at@),
    {
        nonempty("body", body)?;
        let i = match self.find_task(id) {
            Some(i) => i,
            None => {
                return Err(AppError::not_found("task", id));
            },
        };
        if !self.has_room(1) {
            return Err(exhausted());
        }
        let before = self.task_at(i).copy();
        let mut task = before.copy();
        task.updated_at = at.to_owned();
        let after = task.copy();
        let snap = task.copy();
        proof {
            lemma_index_of(self@.tasks, i as int);
        }
        self.set_task(i, task);
        self.record(
            id,
            "note",
            at,
            Changes {
                before: Some(Snapshot::Task(before)),
                after: Some(Snapshot::Task(snap)),
                body: Some(body.to_owned()),
                cascade_from: None,
            },
        );
        Ok(ChangeResult { task: after, changed: true })
    }

    /// Appends a progress note at the current time.
    pub fn note(&mut self, id: &str, body: &str) -> (r: Result<ChangeResult, AppError>)
        requires
            old(self)@.wf(),
        ensures
            final(self)@.wf(),
            exists|at: Seq<char>| utc_time_text(at) && (final(self)@, change_view(r)) == note_spec(old(self)@, id@, body@, at),
    {
        let at = now();
        self.note_at(id, body, at.as_str())
    }
}

} // verus!
