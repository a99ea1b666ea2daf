//! Listing tasks with filters, ancestor context and progress; showing one task.
use vstd::prelude::*;

use crate::error::{invalid_v, not_found_v, AppError, ErrorV};
use crate::model::{
    closed_status, open_status, valid_category, valid_status, ListFilter, ListResult, ListSummary,
    Progress, Task, TaskDetail, TaskV, TaskView,
};
use crate::reminders::{reminders_at, rems_view, task_reminders};
use crate::sorting::{key_views, keys_distinct, lemma_sorted_list, lists_sorted, sort_positions, sorted_list, usize_seq};
use crate::store::{has_task, task_index, unique_task_ids, Store, StoreV};
use crate::tasks::category_msg;
use crate::text::{contains_text, has_substring, lowercase, opt_view, push_str, seq_view, text_eq, to_chars, to_lowercase};
use crate::tree::{enc, is_desc, lemma_pidx_range, lemma_up_ended, lemma_up_range, parent_positions, parents_ok, pidx, up};

verus! {

/// Whether a status is `pending`, `in_progress` or `blocked`.
pub fn is_open(status: &str) -> (r: bool)
    ensures
        r == open_status(status@),
{
    text_eq(status, "pending") || text_eq(status, "in_progress") || text_eq(status, "blocked")
}

pub open spec fn unknown_status_msg(status: Seq<char>) -> Seq<char> {
    "Unknown task status: "@ + status
}

/// The position of the first unknown status in the filter, or -1.
pub open spec fn first_unknown(st: Seq<Seq<char>>) -> int {
    if exists|k: int| 0 <= k < st.len() && !valid_status(#[trigger] st[k]) {
        choose|k: int|
            0 <= k < st.len() && !valid_status(#[trigger] st[k]) && forall|j: int|
                0 <= j < k ==> valid_status(#[trigger] st[j])
    } else {
        -1
    }
}

/// The refusal of a filter, if any.
pub open spec fn filter_error(f: ListFilter) -> Option<ErrorV> {
    let st = seq_view(f.statuses@);
    if f.category is Some && !valid_category(f.category->0@) {
        Some(invalid_v("category"@, category_msg()))
    } else if first_unknown(st) >= 0 {
        Some(invalid_v("status"@, unknown_status_msg(st[first_unknown(st)])))
    } else {
        None
    }
}

/// Whether a task matches the filter (statuses, category, project, search).
pub open spec fn matches(t: TaskV, f: ListFilter) -> bool {
    let st = seq_view(f.statuses@);
    let status_ok = if st.len() == 0 {
        f.all || open_status(t.status)
    } else {
        st.contains(t.status)
    };
    let category_ok = match f.category {
        Some(c) => c@ == t.category,
        None => true,
    };
    let project_ok = match f.project {
        Some(p) => t.project == Some(p@),
        None => true,
    };
    let search_ok = match f.search {
        Some(q) => has_substring(lowercase(t.title), lowercase(q@)) || (t.description is Some
            && has_substring(lowercase(t.description->0), lowercase(q@))),
        None => true,
    };
    status_ok && category_ok && project_ok && search_ok
}

/// A listed task: a match, or an ancestor of a match.
pub open spec fn visible(ts: Seq<TaskV>, f: ListFilter, i: int) -> bool {
    matches(ts[i], f) || exists|m: int| 0 <= m < ts.len() && matches(#[trigger] ts[m], f) && is_desc(ts, m, i)
}

/// How many of the first `n` positions satisfy `p`.
pub open spec fn count(n: int, p: spec_fn(int) -> bool) -> nat
    decreases n,
{
    if n <= 0 {
        0
    } else {
        count(n - 1, p) + if p(n - 1) { 1nat } else { 0nat }
    }
}

pub proof fn lemma_count_bound(n: int, p: spec_fn(int) -> bool)
    requires
        n >= 0,
    ensures
        count(n, p) <= n,
    decreases n,
{
    if n > 0 {
        lemma_count_bound(n - 1, p);
    }
}

/// The direct children of `id` (counted over all tasks): done, cancelled, all.
pub open spec fn child_kind(t: TaskV, kind: int) -> bool {
    kind == 0 || (kind == 1 && t.status == "done"@) || (kind == 2 && t.status == "cancelled"@)
}

pub open spec fn child_pred(ts: Seq<TaskV>, id: Seq<char>, kind: int) -> spec_fn(int) -> bool {
    |j: int| ts[j].parent_id == Some(id) && child_kind(ts[j], kind)
}

pub open spec fn children_with(ts: Seq<TaskV>, id: Seq<char>, kind: int) -> nat {
    count(ts.len() as int, child_pred(ts, id, kind))
}

pub open spec fn progress_ok(p: Progress, ts: Seq<TaskV>, id: Seq<char>) -> bool {
    &&& p.done == children_with(ts, id, 1)
    &&& p.cancelled == children_with(ts, id, 2)
    &&& p.total == children_with(ts, id, 0)
}

pub open spec fn created_keys(ts: Seq<TaskV>) -> Seq<Seq<char>> {
    ts.map_values(|t: TaskV| t.created_at)
}

pub open spec fn id_keys(ts: Seq<TaskV>) -> Seq<Seq<char>> {
    ts.map_values(|t: TaskV| t.id)
}

/// The listed positions, ordered by creation time then id.
pub open spec fn listed(ts: Seq<TaskV>, f: ListFilter) -> Seq<int> {
    sorted_list(created_keys(ts), id_keys(ts), |i: int| visible(ts, f, i))
}

/// The list entries satisfy the listing of `f` over `ts`.
pub open spec fn list_ok(ts: Seq<TaskV>, f: ListFilter, r: ListResult) -> bool {
    let l = listed(ts, f);
    &&& r.tasks@.len() == l.len()
    &&& forall|k: int| 0 <= k < l.len() ==> {
        let v = #[trigger] r.tasks@[k];
        &&& v.task@ == ts[l[k]]
        &&& v.context_only == !matches(ts[l[k]], f)
        &&& progress_ok(v.progress, ts, ts[l[k]].id)
    }
    &&& r.summary.matched == count(ts.len() as int, |i: int| matches(ts[i], f))
    &&& r.summary.matched_open == count(ts.len() as int, |i: int| matches(ts[i], f) && open_status(ts[i].status))
    &&& r.summary.top_level_open == count(ts.len() as int, |i: int| ts[i].parent_id is None && open_status(ts[i].status))
    &&& r.summary.total_open == count(ts.len() as int, |i: int| open_status(ts[i].status))
}

pub proof fn lemma_first_unknown(st: Seq<Seq<char>>, k: int)
    requires
        0 <= k < st.len(),
        !valid_status(st[k]),
        forall|j: int| 0 <= j < k ==> valid_status(#[trigger] st[j]),
    ensures
        first_unknown(st) == k,
{
    let c = first_unknown(st);
    assert(0 <= c < st.len() && !valid_status(st[c]));
    if c < k {
        assert(valid_status(st[c]));
    }
    if c > k {
        assert(valid_status(st[k]));
    }
}

/// Checks the category and statuses of a filter.
pub fn check_filter(f: &ListFilter) -> (r: Result<(), AppError>)
    ensures
        match filter_error(*f) {
            Some(e) => r is Err && r->Err_0@ == e,
            None => r is Ok,
        },
{
    if let Some(c) = &f.category {
        if !crate::model::is_category(c.as_str()) {
            return Err(AppError::invalid("category", "Category must be personal or work"));
        }
    }
    let ghost st = seq_view(f.statuses@);
    let mut k: usize = 0;
    #[verifier::loop_isolation(false)]
    while k < f.statuses.len()
        invariant
            k <= f.statuses@.len(),
            st == seq_view(f.statuses@),
            forall|j: int| 0 <= j < k ==> valid_status(#[trigger] st[j]),
        decreases f.statuses.len() - k,
    {
        let x = f.statuses[k].as_str();
        if !(is_open(x) || crate::transitions::is_closed(x)) {
            proof {
                assert(st[k as int] == x@);
                lemma_first_unknown(st, k as int);
            }
            let mut m = "Unknown task status: ".to_owned();
            push_str(&mut m, x);
            return Err(AppError::InvalidInput { field: "status".to_owned(), message: m });
        }
        assert(st[k as int] == f.statuses@[k as int]@);
        k = k + 1;
    }
    proof {
        if first_unknown(st) >= 0 {
            let c = first_unknown(st);
            assert(valid_status(st[c]));
        }
    }
    Ok(())
}

/// Whether `t` matches the filter; `needle` is the lower-cased search text.
pub fn task_matches(t: &Task, f: &ListFilter, needle: &Option<Vec<char>>) -> (r: bool)
    requires
        match f.search {
            Some(q) => needle is Some && needle->0@ == lowercase(q@),
            None => needle is None,
        },
    ensures
        r == matches(t@, *f),
{
    let ghost st = seq_view(f.statuses@);
    let status_ok = if f.statuses.len() == 0 {
        f.all || is_open(t.status.as_str())
    } else {
        let mut found = false;
        let mut k: usize = 0;
        while k < f.statuses.len()
            invariant
                k <= f.statuses@.len(),
                st == seq_view(f.statuses@),
                found == (exists|j: int| 0 <= j < k && #[trigger] st[j] == t@.status),
            decreases f.statuses.len() - k,
        {
            if f.statuses[k] == t.status {
                assert(st[k as int] == t@.status);
                found = true;
            }
            k = k + 1;
        }
        proof {
            if st.contains(t@.status) {
                let j = choose|j: int| 0 <= j < st.len() && st[j] == t@.status;
                assert(st[j] == t@.status);
            }
        }
        found
    };
    if !status_ok {
        return false;
    }
    if let Some(c) = &f.category {
        if *c != t.category {
            return false;
        }
    }
    if let Some(p) = &f.project {
        match &t.project {
            Some(tp) => {
                if *tp != *p {
                    return false;
                }
            },
            None => {
                return false;
            },
        }
    }
    match needle {
        Some(q) => {
            let title = to_chars(to_lowercase(t.title.as_str()).as_str());
            if contains_text(&title, q) {
                return true;
            }
            match &t.description {
                Some(d) => {
                    let dl = to_chars(to_lowercase(d.as_str()).as_str());
                    contains_text(&dl, q)
                },
                None => false,
            }
        },
        None => true,
    }
}

/// Whether `i` is reached within `k` steps up from `m`.
pub open spec fn reached_within(ts: Seq<TaskV>, m: int, i: int, k: nat) -> bool {
    exists|j: nat| 1 <= j <= k && #[trigger] up(ts, m, j) == i
}

/// `i` matches, or is an ancestor of a match among the first `m` tasks.
pub open spec fn visible_upto(ts: Seq<TaskV>, f: ListFilter, m: int, i: int) -> bool {
    matches(ts[i], f) || exists|x: int| 0 <= x < m && matches(#[trigger] ts[x], f) && is_desc(ts, x, i)
}

pub proof fn lemma_par_child(ts: Seq<TaskV>, par: Seq<usize>, j: int, i: int)
    requires
        unique_task_ids(ts),
        parents_ok(ts, par),
        0 <= j < ts.len(),
        0 <= i < ts.len(),
    ensures
        (par[j] == i) <==> (ts[j].parent_id == Some(ts[i].id)),
{
    assert(par[j] as int == enc(pidx(ts, j), ts.len() as int));
    match ts[j].parent_id {
        Some(p) => {
            if has_task(ts, p) {
                let k = task_index(ts, p);
                assert(ts[k].id == p);
                if p == ts[i].id {
                    assert(k == i);
                }
            }
        },
        None => {},
    }
}

impl Store {
    /// Per task: whether it matches the filter.
    fn matched_flags(&self, f: &ListFilter) -> (r: Vec<bool>)
        requires
            self@.wf(),
        ensures
            r@.len() == self@.tasks.len(),
            forall|i: int| 0 <= i < r@.len() ==> #[trigger] r@[i] == matches(self@.tasks[i], *f),
    {
        let needle: Option<Vec<char>> = match &f.search {
            Some(q) => Some(to_chars(to_lowercase(q.as_str()).as_str())),
            None => None,
        };
        let n = self.task_count();
        let mut out: Vec<bool> = Vec::new();
        let mut i: usize = 0;
        while i < n
            invariant
                n == self@.tasks.len(),
                i <= n,
                out@.len() == i,
                match f.search {
                    Some(q) => needle is Some && needle->0@ == lowercase(q@),
                    None => needle is None,
                },
                forall|k: int| 0 <= k < i ==> #[trigger] out@[k] == matches(self@.tasks[k], *f),
            decreases n - i,
        {
            out.push(task_matches(self.task_at(i), f, &needle));
            i = i + 1;
        }
        out
    }
}

impl Store {
    /// Per task: whether it matches or is an ancestor of a match.
    fn visible_flags(&self, f: &ListFilter, matched: &Vec<bool>, par: &Vec<usize>) -> (r: Vec<bool>)
        requires
            self@.wf(),
            parents_ok(self@.tasks, par@),
            matched@.len() == self@.tasks.len(),
            forall|i: int| 0 <= i < matched@.len() ==> #[trigger] matched@[i] == matches(self@.tasks[i], *f),
        ensures
            r@.len() == self@.tasks.len(),
            forall|i: int| 0 <= i < r@.len() ==> #[trigger] r@[i] == visible(self@.tasks, *f, i),
    {
        let ghost ts = self@.tasks;
        let n = matched.len();
        let mut vis: Vec<bool> = Vec::new();
        let mut i: usize = 0;
        while i < n
            invariant
                i <= n,
                n == matched@.len(),
                vis@.len() == i,
                forall|k: int| 0 <= k < i ==> #[trigger] vis@[k] == matched@[k],
            decreases n - i,
        {
            vis.push(matched[i]);
            i = i + 1;
        }
        let mut m: usize = 0;
        while m < n
            invariant
                n == ts.len(),
                ts == self@.tasks,
                unique_task_ids(ts),
                parents_ok(ts, par@),
                m <= n,
                matched@.len() == n,
                forall|k: int| 0 <= k < n ==> #[trigger] matched@[k] == matches(ts[k], *f),
                vis@.len() == n,
                forall|k: int| 0 <= k < n ==> #[trigger] vis@[k] == visible_upto(ts, *f, m as int, k),
            decreases n - m,
        {
            if matched[m] {
                let mut cur: usize = m;
                let mut k: usize = 0;
                assert(up(ts, m as int, 0) == m);
                while k < n
                    invariant
                        n == ts.len(),
                        ts == self@.tasks,
                        parents_ok(ts, par@),
                        m < n,
                        k <= n,
                        vis@.len() == n,
                        cur as int == enc(up(ts, m as int, k as nat), n as int),
                        cur <= n,
                        forall|x: int| 0 <= x < n ==> #[trigger] vis@[x] == (visible_upto(ts, *f, m as int, x) || reached_within(ts, m as int, x, k as nat)),
                    ensures
                        k == n || cur == n,
                        k <= n,
                        cur as int == enc(up(ts, m as int, k as nat), n as int),
                        forall|x: int| 0 <= x < n ==> #[trigger] vis@[x] == (visible_upto(ts, *f, m as int, x) || reached_within(ts, m as int, x, k as nat)),
                    decreases n - k,
                {
                    proof {
                        lemma_up_range(ts, m as int, k as nat);
                    }
                    if cur == n {
                        break;
                    }
                    proof {
                        lemma_pidx_range(ts, cur as int);
                    }
                    cur = par[cur];
                    k = k + 1;
                    assert(up(ts, m as int, k as nat) == pidx(ts, up(ts, m as int, (k - 1) as nat)));
                    let ghost old_vis = vis@;
                    if cur < n {
                        vis.set(cur, true);
                    }
                    proof {
                        assert forall|x: int| 0 <= x < n implies #[trigger] vis@[x] == (visible_upto(ts, *f, m as int, x) || reached_within(ts, m as int, x, k as nat)) by {
                            if reached_within(ts, m as int, x, (k - 1) as nat) {
                                let j = choose|j: nat| 1 <= j <= k - 1 && #[trigger] up(ts, m as int, j) == x;
                                assert(up(ts, m as int, j) == x);
                            }
                            if x == cur {
                                assert(up(ts, m as int, k as nat) == x);
                            }
                            if reached_within(ts, m as int, x, k as nat) {
                                let j = choose|j: nat| 1 <= j <= k && #[trigger] up(ts, m as int, j) == x;
                                if j < k {
                                    assert(reached_within(ts, m as int, x, (k - 1) as nat));
                                }
                            }
                        }
                    }
                }
                proof {
                    assert forall|x: int| 0 <= x < n implies #[trigger] vis@[x] == visible_upto(ts, *f, m + 1, x) by {
                        if reached_within(ts, m as int, x, k as nat) {
                            let j = choose|j: nat| 1 <= j <= k && #[trigger] up(ts, m as int, j) == x;
                            assert(is_desc(ts, m as int, x));
                        }
                        if is_desc(ts, m as int, x) {
                            let j = choose|j: nat| 1 <= j <= ts.len() && #[trigger] up(ts, m as int, j) == x;
                            if j > k {
                                lemma_up_range(ts, m as int, k as nat);
                                lemma_up_ended(ts, m as int, k as nat, j);
                            }
                            assert(reached_within(ts, m as int, x, k as nat));
                        }
                        if visible_upto(ts, *f, m + 1, x) && !matches(ts[x], *f) {
                            let y = choose|y: int| 0 <= y < m + 1 && matches(#[trigger] ts[y], *f) && is_desc(ts, y, x);
                            if y < m {
                                assert(visible_upto(ts, *f, m as int, x));
                            }
                        }
                        if visible_upto(ts, *f, m as int, x) && !matches(ts[x], *f) {
                            let y = choose|y: int| 0 <= y < m && matches(#[trigger] ts[y], *f) && is_desc(ts, y, x);
                            assert(0 <= y < m + 1 && matches(ts[y], *f) && is_desc(ts, y, x));
                        }
                    }
                }
            } else {
                proof {
                    assert forall|x: int| 0 <= x < n implies #[trigger] vis@[x] == visible_upto(ts, *f, m + 1, x) by {
                        if visible_upto(ts, *f, m + 1, x) && !matches(ts[x], *f) {
                            let y = choose|y: int| 0 <= y < m + 1 && matches(#[trigger] ts[y], *f) && is_desc(ts, y, x);
                            if y < m {
                                assert(visible_upto(ts, *f, m as int, x));
                            }
                        }
                        if visible_upto(ts, *f, m as int, x) && !matches(ts[x], *f) {
                            let y = choose|y: int| 0 <= y < m && matches(#[trigger] ts[y], *f) && is_desc(ts, y, x);
                            assert(0 <= y < m + 1 && matches(ts[y], *f) && is_desc(ts, y, x));
                        }
                    }
                }
            }
            m = m + 1;
        }
        proof {
            assert forall|x: int| 0 <= x < n implies #[trigger] vis@[x] == visible(ts, *f, x) by {
                if visible(ts, *f, x) && !matches(ts[x], *f) {
                    let y = choose|y: int| 0 <= y < ts.len() && matches(#[trigger] ts[y], *f) && is_desc(ts, y, x);
                    assert(visible_upto(ts, *f, n as int, x));
                }
                if visible_upto(ts, *f, n as int, x) && !matches(ts[x], *f) {
                    let y = choose|y: int| 0 <= y < n && matches(#[trigger] ts[y], *f) && is_desc(ts, y, x);
                    assert(visible(ts, *f, x));
                }
            }
        }
        vis
    }
}

pub proof fn lemma_count_step(n: int, p: spec_fn(int) -> bool)
    requires
        n >= 0,
    ensures
        count(n + 1, p) == count(n, p) + if p(n) { 1nat } else { 0nat },
{
}

/// Per position: one counter for each direct-child kind.
pub struct ChildCounts {
    pub done: Vec<usize>,
    pub cancelled: Vec<usize>,
    pub total: Vec<usize>,
}

pub open spec fn counts_ok(c: ChildCounts, ts: Seq<TaskV>, upto: int) -> bool {
    &&& c.done@.len() == ts.len()
    &&& c.cancelled@.len() == ts.len()
    &&& c.total@.len() == ts.len()
    &&& forall|i: int| 0 <= i < ts.len() ==> #[trigger] c.done@[i] == count(upto, child_pred(ts, ts[i].id, 1))
    &&& forall|i: int| 0 <= i < ts.len() ==> #[trigger] c.cancelled@[i] == count(upto, child_pred(ts, ts[i].id, 2))
    &&& forall|i: int| 0 <= i < ts.len() ==> #[trigger] c.total@[i] == count(upto, child_pred(ts, ts[i].id, 0))
}

pub fn zeros(n: usize) -> (r: Vec<usize>)
    ensures
        r@.len() == n,
        forall|i: int| 0 <= i < n ==> #[trigger] r@[i] == 0,
{
    let mut v: Vec<usize> = Vec::new();
    let mut i: usize = 0;
    while i < n
        invariant
            i <= n,
            v@.len() == i,
            forall|k: int| 0 <= k < i ==> #[trigger] v@[k] == 0,
        decreases n - i,
    {
        v.push(0);
        i = i + 1;
    }
    v
}

impl Store {
    /// Direct-child counts of every task.
    fn child_counts(&self, par: &Vec<usize>) -> (c: ChildCounts)
        requires
            self@.wf(),
            parents_ok(self@.tasks, par@),
        ensures
            counts_ok(c, self@.tasks, self@.tasks.len() as int),
    {
        let ghost ts = self@.tasks;
        let n = self.task_count();
        let mut c = ChildCounts { done: zeros(n), cancelled: zeros(n), total: zeros(n) };
        let mut j: usize = 0;
        while j < n
            invariant
                n == ts.len(),
                ts == self@.tasks,
                unique_task_ids(ts),
                parents_ok(ts, par@),
                j <= n,
                counts_ok(c, ts, j as int),
            decreases n - j,
        {
            let p = par[j];
            let st = self.task_at(j).status.as_str();
            let is_done = text_eq(st, "done");
            let is_cancelled = text_eq(st, "cancelled");
            proof {
                assert forall|i: int| 0 <= i < n implies
                    (child_pred(ts, ts[i].id, 0)(j as int) == (p == i))
                    && (child_pred(ts, ts[i].id, 1)(j as int) == (p == i && is_done))
                    && (child_pred(ts, ts[i].id, 2)(j as int) == (p == i && is_cancelled)) by {
                    lemma_par_child(ts, par@, j as int, i);
                }
                assert forall|i: int| 0 <= i < n implies
                    count(j + 1, #[trigger] child_pred(ts, ts[i].id, 0)) == count(j as int, child_pred(ts, ts[i].id, 0)) + if child_pred(ts, ts[i].id, 0)(j as int) { 1nat } else { 0nat } by {
                    lemma_count_step(j as int, child_pred(ts, ts[i].id, 0));
                }
                assert forall|i: int| 0 <= i < n implies
                    count(j + 1, #[trigger] child_pred(ts, ts[i].id, 1)) == count(j as int, child_pred(ts, ts[i].id, 1)) + if child_pred(ts, ts[i].id, 1)(j as int) { 1nat } else { 0nat } by {
                    lemma_count_step(j as int, child_pred(ts, ts[i].id, 1));
                }
                assert forall|i: int| 0 <= i < n implies
                    count(j + 1, #[trigger] child_pred(ts, ts[i].id, 2)) == count(j as int, child_pred(ts, ts[i].id, 2)) + if child_pred(ts, ts[i].id, 2)(j as int) { 1nat } else { 0nat } by {
                    lemma_count_step(j as int, child_pred(ts, ts[i].id, 2));
                }
            }
            if p < n {
                proof {
                    lemma_count_bound(j as int, child_pred(ts, ts[p as int].id, 0));
                    lemma_count_bound(j as int, child_pred(ts, ts[p as int].id, 1));
                    lemma_count_bound(j as int, child_pred(ts, ts[p as int].id, 2));
                }
                let t = c.total[p] + 1;
                c.total.set(p, t);
                if is_done {
                    let d = c.done[p] + 1;
                    c.done.set(p, d);
                }
                if is_cancelled {
                    let d = c.cancelled[p] + 1;
                    c.cancelled.set(p, d);
                }
            }
            j = j + 1;
        }
        c
    }
}

pub proof fn lemma_task_keys_distinct(ts: Seq<TaskV>, a: Seq<Seq<char>>, b: Seq<Seq<char>>)
    requires
        unique_task_ids(ts),
        a.len() == ts.len(),
        b == id_keys(ts),
    ensures
        keys_distinct(a, b),
{
    assert forall|i: int, j: int| 0 <= i < a.len() && 0 <= j < a.len() && i != j implies !(#[trigger] a[i] == #[trigger] a[j] && b[i] == b[j]) by {
        assert(b[i] == ts[i].id && b[j] == ts[j].id);
    }
}

pub open spec fn list_view_ok(r: Result<ListResult, AppError>, s: StoreV, f: ListFilter) -> bool {
    match filter_error(f) {
        Some(e) => r is Err && r->Err_0@ == e,
        None => r is Ok && list_ok(s.tasks, f, r->Ok_0),
    }
}

impl Store {
    /// (creation time, id) keys of all tasks.
    fn task_keys(&self) -> (r: (Vec<Vec<char>>, Vec<Vec<char>>))
        requires
            self@.wf(),
        ensures
            key_views(r.0@) == created_keys(self@.tasks),
            key_views(r.1@) == id_keys(self@.tasks),
            r.0@.len() == self@.tasks.len(),
            r.1@.len() == self@.tasks.len(),
            keys_distinct(key_views(r.0@), key_views(r.1@)),
    {
        let n = self.task_count();
        let mut k1: Vec<Vec<char>> = Vec::new();
        let mut k2: Vec<Vec<char>> = Vec::new();
        let mut i: usize = 0;
        while i < n
            invariant
                n == self@.tasks.len(),
                i <= n,
                k1@.len() == i,
                k2@.len() == i,
                forall|j: int| 0 <= j < i ==> (#[trigger] k1@[j])@ == self@.tasks[j].created_at,
                forall|j: int| 0 <= j < i ==> (#[trigger] k2@[j])@ == self@.tasks[j].id,
            decreases n - i,
        {
            let t = self.task_at(i);
            k1.push(to_chars(t.created_at.as_str()));
            k2.push(to_chars(t.id.as_str()));
            i = i + 1;
        }
        assert(key_views(k1@) =~= created_keys(self@.tasks));
        assert(key_views(k2@) =~= id_keys(self@.tasks));
        proof {
            lemma_task_keys_distinct(self@.tasks, key_views(k1@), key_views(k2@));
        }
        (k1, k2)
    }

    /// All matches and their ancestors, ordered by creation time then id, with
    /// direct-child progress, and counts of matches and of open tasks.
    pub fn list(&self, filter: ListFilter) -> (r: Result<ListResult, AppError>)
        requires
            self@.wf(),
        ensures
            list_view_ok(r, self@, filter),
    {
        check_filter(&filter)?;
        let ghost ts = self@.tasks;
        let n = self.task_count();
        let matched = self.matched_flags(&filter);
        let ghost pm = |i: int| matches(ts[i], filter);
        let ghost pmo = |i: int| matches(ts[i], filter) && open_status(ts[i].status);
        let ghost pto = |i: int| ts[i].parent_id is None && open_status(ts[i].status);
        let ghost po = |i: int| open_status(ts[i].status);
        let mut c_m: usize = 0;
        let mut c_mo: usize = 0;
        let mut c_to: usize = 0;
        let mut c_o: usize = 0;
        let mut i: usize = 0;
        while i < n
            invariant
                n == ts.len(),
                ts == self@.tasks,
                i <= n,
                matched@.len() == n,
                forall|k: int| 0 <= k < n ==> #[trigger] matched@[k] == matches(ts[k], filter),
                pm == (|i: int| matches(ts[i], filter)),
                pmo == (|i: int| matches(ts[i], filter) && open_status(ts[i].status)),
                pto == (|i: int| ts[i].parent_id is None && open_status(ts[i].status)),
                po == (|i: int| open_status(ts[i].status)),
                c_m == count(i as int, pm),
                c_mo == count(i as int, pmo),
                c_to == count(i as int, pto),
                c_o == count(i as int, po),
            decreases n - i,
        {
            proof {
                lemma_count_bound(i as int, pm);
                lemma_count_bound(i as int, pmo);
                lemma_count_bound(i as int, pto);
                lemma_count_bound(i as int, po);
                lemma_count_step(i as int, pm);
                lemma_count_step(i as int, pmo);
                lemma_count_step(i as int, pto);
                lemma_count_step(i as int, po);
            }
            let t = self.task_at(i);
            let open = is_open(t.status.as_str());
            if matched[i] {
                c_m = c_m + 1;
                if open {
                    c_mo = c_mo + 1;
                }
            }
            if open {
                c_o = c_o + 1;
                if t.parent_id.is_none() {
                    c_to = c_to + 1;
                }
            }
            i = i + 1;
        }
        let par = parent_positions(self);
        let vis = self.visible_flags(&filter, &matched, &par);
        let counts = self.child_counts(&par);
        let ghost pv = |i: int| visible(ts, filter, i);
        let mut shown: Vec<usize> = Vec::new();
        let mut d: usize = 0;
        while d < n
            invariant
                n == ts.len(),
                vis@.len() == n,
                forall|k: int| 0 <= k < n ==> #[trigger] vis@[k] == visible(ts, filter, k),
                pv == (|i: int| visible(ts, filter, i)),
                d <= n,
                forall|k: int| 0 <= k < shown@.len() ==> #[trigger] shown@[k] < d,
                forall|k1: int, k2: int| 0 <= k1 < k2 < shown@.len() ==> #[trigger] shown@[k1] < #[trigger] shown@[k2],
                forall|x: int| usize_seq(shown@).contains(x) <==> (0 <= x < d && pv(x)),
            decreases n - d,
        {
            let ghost old_f = usize_seq(shown@);
            if vis[d] {
                shown.push(d);
            }
            proof {
                if vis@[d as int] {
                    assert(usize_seq(shown@) =~= old_f.push(d as int));
                }
                assert forall|x: int| usize_seq(shown@).contains(x) <==> (0 <= x < d + 1 && pv(x)) by {
                    if usize_seq(shown@).contains(x) {
                        let w = choose|w: int| 0 <= w < usize_seq(shown@).len() && usize_seq(shown@)[w] == x;
                        if w < old_f.len() {
                            assert(old_f[w] == x);
                            assert(old_f.contains(x));
                        }
                    }
                    if 0 <= x < d + 1 && pv(x) {
                        if x < d {
                            assert(old_f.contains(x));
                            let w = choose|w: int| 0 <= w < old_f.len() && old_f[w] == x;
                            assert(usize_seq(shown@)[w] == x);
                        } else {
                            assert(usize_seq(shown@)[old_f.len() as int] == x);
                        }
                    }
                }
            }
            d = d + 1;
        }
        assert(shown@.no_duplicates()) by {
            assert forall|a: int, b: int| 0 <= a < shown@.len() && 0 <= b < shown@.len() && a != b implies shown@[a] != shown@[b] by {
                if a < b {
                    assert(shown@[a] < shown@[b]);
                } else {
                    assert(shown@[b] < shown@[a]);
                }
            }
        }
        let (k1, k2) = self.task_keys();
        let order = sort_positions(&shown, &k1, &k2);
        proof {
            let sq = usize_seq(order@);
            assert forall|k: int| 0 <= k < sq.len() implies 0 <= #[trigger] sq[k] < key_views(k1@).len() by {
                assert(order@[k] < k1@.len());
            }
            assert(lists_sorted(key_views(k1@), key_views(k2@), pv, sq));
            lemma_sorted_list(key_views(k1@), key_views(k2@), pv, sq);
            assert(sq == listed(ts, filter));
        }
        let mut tasks: Vec<TaskView> = Vec::new();
        let mut k: usize = 0;
        while k < order.len()
            invariant
                n == ts.len(),
                ts == self@.tasks,
                k <= order@.len(),
                forall|q: int| 0 <= q < order@.len() ==> #[trigger] order@[q] < n,
                usize_seq(order@) == listed(ts, filter),
                matched@.len() == n,
                forall|q: int| 0 <= q < n ==> #[trigger] matched@[q] == matches(ts[q], filter),
                counts_ok(counts, ts, n as int),
                tasks@.len() == k,
                forall|q: int| 0 <= q < k ==> {
                    let v = #[trigger] tasks@[q];
                    let l = listed(ts, filter);
                    &&& v.task@ == ts[l[q]]
                    &&& v.context_only == !matches(ts[l[q]], filter)
                    &&& progress_ok(v.progress, ts, ts[l[q]].id)
                },
            decreases order.len() - k,
        {
            let i = order[k];
            assert(listed(ts, filter)[k as int] == i);
            tasks.push(TaskView {
                task: self.task_at(i).copy(),
                context_only: !matched[i],
                progress: Progress {
                    done: counts.done[i],
                    cancelled: counts.cancelled[i],
                    total: counts.total[i],
                },
            });
            k = k + 1;
        }
        let r = ListResult {
            tasks,
            summary: ListSummary { matched: c_m, matched_open: c_mo, top_level_open: c_to, total_open: c_o },
        };
        assert(list_ok(ts, filter, r));
        Ok(r)
    }

    /// Direct-child progress of the task at `i`.
    fn progress_of(&self, i: usize) -> (p: Progress)
        requires
            self@.wf(),
            i < self@.tasks.len(),
        ensures
            progress_ok(p, self@.tasks, self@.tasks[i as int].id),
    {
        let par = parent_positions(self);
        let counts = self.child_counts(&par);
        Progress { done: counts.done[i], cancelled: counts.cancelled[i], total: counts.total[i] }
    }

    /// The task with this id, its direct-child progress and all its reminder associations.
    pub fn show(&self, id: &str) -> (r: Result<TaskDetail, AppError>)
        requires
            self@.wf(),
        ensures
            show_ok(r, self@, id@),
    {
        let i = match self.find_task(id) {
            Some(i) => i,
            None => {
                return Err(AppError::not_found("task", id));
            },
        };
        let task = self.task_at(i).copy();
        let progress = self.progress_of(i);
        let reminders = self.task_reminder_list(id);
        Ok(TaskDetail { task, progress, reminders })
    }
}

/// The detail of the task with this id: the task, its direct-child progress
/// and all its reminder associations; or not found.
pub open spec fn show_ok(r: Result<TaskDetail, AppError>, s: StoreV, id: Seq<char>) -> bool {
    match r {
        Ok(d) => has_task(s.tasks, id) && d.task@ == s.tasks[task_index(s.tasks, id)] && progress_ok(
            d.progress,
            s.tasks,
            id,
        ) && rems_view(d.reminders@) == reminders_at(s.reminders, task_reminders(s.reminders, id)),
        Err(e) => !has_task(s.tasks, id) && e@ == not_found_v("task"@, id),
    }
}

} // verus!
