//! The task tree by positions: each task's parent, and the tasks reached by
//! going up from a task.
use vstd::prelude::*;

use crate::model::{open_status, TaskV};
use crate::query::is_open;
use crate::sorting::{key_views, keys_distinct, sort_positions, sorted_by, usize_seq, lemma_sorted_unique};
use crate::store::{has_task, lemma_index_of, task_index, unique_task_ids, Store};
use crate::text::to_chars;

verus! {

/// The position of the parent of task `i`, or -1 when it has none or the
/// parent id names no task.
pub open spec fn pidx(ts: Seq<TaskV>, i: int) -> int {
    match ts[i].parent_id {
        Some(p) => task_index(ts, p),
        None => -1,
    }
}

/// The position reached after `k` steps up from `i`, or -1 once the chain ends.
pub open spec fn up(ts: Seq<TaskV>, i: int, k: nat) -> int
    decreases k,
{
    if k == 0 {
        i
    } else {
        let j = up(ts, i, (k - 1) as nat);
        if 0 <= j < ts.len() {
            pidx(ts, j)
        } else {
            -1
        }
    }
}

/// Task `a` is reached by going up from task `d` at least one step: `d` is a
/// descendant of `a`, and `a` an ancestor of `d`.  A chain over `n` tasks
/// that reaches a task at all reaches it within `n` steps.
pub open spec fn is_desc(ts: Seq<TaskV>, d: int, a: int) -> bool {
    exists|k: nat| 1 <= k <= ts.len() && #[trigger] up(ts, d, k) == a
}

/// A position in the encoding of `Vec<usize>`: -1 becomes `n`.
pub open spec fn enc(j: int, n: int) -> int {
    if j < 0 {
        n
    } else {
        j
    }
}

pub open spec fn parents_ok(ts: Seq<TaskV>, par: Seq<usize>) -> bool {
    &&& par.len() == ts.len()
    &&& forall|i: int| 0 <= i < ts.len() ==> #[trigger] par[i] as int == enc(pidx(ts, i), ts.len() as int)
}

pub proof fn lemma_pidx_range(ts: Seq<TaskV>, i: int)
    requires
        0 <= i < ts.len(),
    ensures
        -1 <= pidx(ts, i) < ts.len(),
{
    match ts[i].parent_id {
        Some(p) => {
            if has_task(ts, p) {
                let k = task_index(ts, p);
            }
        },
        None => {},
    }
}

pub proof fn lemma_up_range(ts: Seq<TaskV>, i: int, k: nat)
    requires
        0 <= i < ts.len(),
    ensures
        -1 <= up(ts, i, k) < ts.len(),
    decreases k,
{
    if k > 0 {
        lemma_up_range(ts, i, (k - 1) as nat);
        let j = up(ts, i, (k - 1) as nat);
        if 0 <= j < ts.len() {
            lemma_pidx_range(ts, j);
        }
    }
}

pub proof fn lemma_up_ended(ts: Seq<TaskV>, i: int, k: nat, m: nat)
    requires
        up(ts, i, k) < 0,
        k <= m,
    ensures
        up(ts, i, m) == -1 || (k == m),
        up(ts, i, m) < 0,
    decreases m - k,
{
    if k < m {
        lemma_up_ended(ts, i, k, (m - 1) as nat);
    }
}

/// Going up `x` steps and then `m` more is going up `x + m` steps.
pub proof fn lemma_up_compose(ts: Seq<TaskV>, d: int, x: nat, m: nat)
    ensures
        up(ts, d, x + m) == up(ts, up(ts, d, x), m),
    decreases m,
{
    if m > 0 {
        lemma_up_compose(ts, d, x, (m - 1) as nat);
        assert((x + m - 1) as nat == x + (m - 1) as nat);
    }
}

/// A chain that reaches `a` in some number of steps reaches it within `n` steps.
pub proof fn lemma_reach_within_len(ts: Seq<TaskV>, d: int, a: int, k: nat)
    requires
        0 <= d < ts.len(),
        0 <= a < ts.len(),
        k >= 1,
        up(ts, d, k) == a,
    ensures
        is_desc(ts, d, a),
    decreases k,
{
    let n = ts.len();
    if k <= n {
        assert(up(ts, d, k) == a);
    } else {
        // the first n + 1 positions of the chain repeat one
        let v = Seq::new((n + 1) as nat, |x: int| up(ts, d, x as nat));
        assert forall|x: int| 0 <= x < v.len() implies 0 <= #[trigger] v[x] < n by {
            lemma_up_range(ts, d, x as nat);
            if up(ts, d, x as nat) < 0 {
                lemma_up_ended(ts, d, x as nat, k);
            }
        }
        if v.no_duplicates() {
            v.unique_seq_to_set();
            assert(v.to_set().subset_of(vstd::set_lib::set_int_range(0, n as int))) by {
                assert forall|y: int| v.to_set().contains(y) implies vstd::set_lib::set_int_range(0, n as int).contains(y) by {
                    assert(v.contains(y));
                    let w = choose|w: int| 0 <= w < v.len() && v[w] == y;
                }
            }
            vstd::set_lib::lemma_int_range(0, n as int);
            vstd::set_lib::lemma_len_subset(v.to_set(), vstd::set_lib::set_int_range(0, n as int));
            assert(false);
        }
        let (x, y) = choose|x: int, y: int| 0 <= x < v.len() && 0 <= y < v.len() && x != y && v[x] == v[y];
        let (lo, hi) = if x < y { (x, y) } else { (y, x) };
        assert(v[lo] == v[hi]);
        let p = (hi - lo) as nat;
        let k2 = (k - p) as nat;
        // up(d, k) == up(d, k - p) by the repetition at lo and hi
        lemma_up_compose(ts, d, hi as nat, (k - hi) as nat);
        lemma_up_compose(ts, d, lo as nat, (k - hi) as nat);
        assert(hi as nat + (k - hi) as nat == k);
        assert(lo as nat + (k - hi) as nat == k2);
        lemma_reach_within_len(ts, d, a, k2);
    }
}

/// The parent position of every task.
pub fn parent_positions(store: &Store) -> (par: Vec<usize>)
    requires
        store@.wf(),
    ensures
        parents_ok(store@.tasks, par@),
{
    let n = store.task_count();
    let mut par: Vec<usize> = Vec::new();
    let mut i: usize = 0;
    while i < n
        invariant
            n == store@.tasks.len(),
            store@.wf(),
            i <= n,
            par@.len() == i,
            forall|j: int| 0 <= j < i ==> #[trigger] par@[j] as int == enc(pidx(store@.tasks, j), n as int),
        decreases n - i,
    {
        let p = match &store.task_at(i).parent_id {
            Some(pid) => match store.find_task(pid.as_str()) {
                Some(j) => j,
                None => n,
            },
            None => n,
        };
        par.push(p);
        i = i + 1;
    }
    par
}

/// Whether task `a` is an ancestor of task `d`.
pub fn reaches(ts: Ghost<Seq<TaskV>>, par: &Vec<usize>, d: usize, a: usize) -> (r: bool)
    requires
        parents_ok(ts@, par@),
        d < par@.len(),
        a < par@.len(),
    ensures
        r == is_desc(ts@, d as int, a as int),
{
    let n = par.len();
    let mut cur = d;
    let mut k: usize = 0;
    assert(up(ts@, d as int, 0) == d);
    while k < n
        invariant
            parents_ok(ts@, par@),
            n == par@.len(),
            d < n,
            a < n,
            k <= n,
            cur as int == enc(up(ts@, d as int, k as nat), n as int),
            cur <= n,
            forall|j: nat| 1 <= j <= k ==> #[trigger] up(ts@, d as int, j) != a,
        decreases n - k,
    {
        proof {
            lemma_up_range(ts@, d as int, k as nat);
        }
        if cur == n {
            proof {
                assert forall|j: nat| 1 <= j <= ts@.len() implies #[trigger] up(ts@, d as int, j) != a by {
                    if j > k {
                        lemma_up_ended(ts@, d as int, k as nat, j);
                    }
                }
            }
            return false;
        }
        proof {
            lemma_pidx_range(ts@, cur as int);
        }
        cur = par[cur];
        k = k + 1;
        assert(up(ts@, d as int, k as nat) == pidx(ts@, up(ts@, d as int, (k - 1) as nat)));
        if cur == a {
            assert(up(ts@, d as int, k as nat) == a);
            return true;
        }
    }
    false
}

/// The ids of the tasks, as sort keys.
pub open spec fn id_keys(ts: Seq<TaskV>) -> Seq<Seq<char>> {
    ts.map_values(|t: TaskV| t.id)
}

pub open spec fn no_keys(n: nat) -> Seq<Seq<char>> {
    Seq::new(n, |i: int| Seq::<char>::empty())
}

/// Task `d` is an open descendant of task `a`.
pub open spec fn open_desc_of(ts: Seq<TaskV>, a: int, d: int) -> bool {
    0 <= d < ts.len() && open_status(ts[d].status) && is_desc(ts, d, a)
}

/// `s` lists the open descendants of `a`, each once, ordered by id.
pub open spec fn open_desc_list(ts: Seq<TaskV>, a: int, s: Seq<int>) -> bool {
    &&& sorted_by(id_keys(ts), no_keys(ts.len()), s)
    &&& forall|x: int| s.contains(x) <==> open_desc_of(ts, a, x)
    &&& forall|k: int| 0 <= k < s.len() ==> 0 <= #[trigger] s[k] < ts.len()
}

/// The open descendants of task `a`, ordered by id.
pub open spec fn open_descendants(ts: Seq<TaskV>, a: int) -> Seq<int> {
    choose|s: Seq<int>| open_desc_list(ts, a, s)
}

pub proof fn lemma_open_descendants(ts: Seq<TaskV>, a: int, s: Seq<int>)
    requires
        unique_task_ids(ts),
        open_desc_list(ts, a, s),
    ensures
        open_descendants(ts, a) == s,
{
    let t = open_descendants(ts, a);
    assert(open_desc_list(ts, a, t));
    lemma_sorted_unique(id_keys(ts), no_keys(ts.len()), s, t);
}

/// Ids as `Vec<char>` keys, with empty second keys.
pub fn id_key_vecs(store: &Store) -> (r: (Vec<Vec<char>>, Vec<Vec<char>>))
    requires
        store@.wf(),
    ensures
        key_views(r.0@) == id_keys(store@.tasks),
        key_views(r.1@) == no_keys(store@.tasks.len()),
        keys_distinct(key_views(r.0@), key_views(r.1@)),
{
    let n = store.task_count();
    let mut k1: Vec<Vec<char>> = Vec::new();
    let mut k2: Vec<Vec<char>> = Vec::new();
    let mut i: usize = 0;
    while i < n
        invariant
            n == store@.tasks.len(),
            i <= n,
            k1@.len() == i,
            k2@.len() == i,
            forall|j: int| 0 <= j < i ==> (#[trigger] k1@[j])@ == store@.tasks[j].id,
            forall|j: int| 0 <= j < i ==> (#[trigger] k2@[j])@ == Seq::<char>::empty(),
        decreases n - i,
    {
        k1.push(to_chars(store.task_at(i).id.as_str()));
        k2.push(Vec::new());
        i = i + 1;
    }
    assert(key_views(k1@) =~= id_keys(store@.tasks));
    assert(key_views(k2@) =~= no_keys(store@.tasks.len()));
    proof {
        lemma_id_keys_distinct(store@.tasks, key_views(k1@), key_views(k2@));
    }
    (k1, k2)
}

pub proof fn lemma_id_keys_distinct(ts: Seq<TaskV>, a: Seq<Seq<char>>, b: Seq<Seq<char>>)
    requires
        unique_task_ids(ts),
        a == id_keys(ts),
        b.len() == ts.len(),
    ensures
        keys_distinct(a, b),
{
    assert forall|i: int, j: int| 0 <= i < a.len() && 0 <= j < a.len() && i != j implies !(#[trigger] a[i] == #[trigger] a[j] && b[i] == b[j]) by {
        assert(a[i] == ts[i].id);
        assert(a[j] == ts[j].id);
    }
}

/// The open descendants of the task at `a`, ordered by id.
pub fn open_descendant_positions(store: &Store, a: usize) -> (r: Vec<usize>)
    requires
        store@.wf(),
        a < store@.tasks.len(),
    ensures
        usize_seq(r@) == open_descendants(store@.tasks, a as int),
        forall|k: int| 0 <= k < r@.len() ==> #[trigger] r@[k] < store@.tasks.len(),
{
    let ghost ts = store@.tasks;
    let par = parent_positions(store);
    let n = store.task_count();
    let mut found: Vec<usize> = Vec::new();
    let mut d: usize = 0;
    while d < n
        invariant
            n == ts.len(),
            ts == store@.tasks,
            store@.wf(),
            parents_ok(ts, par@),
            a < n,
            d <= n,
            forall|k: int| 0 <= k < found@.len() ==> #[trigger] found@[k] < d,
            forall|k1: int, k2: int| 0 <= k1 < k2 < found@.len() ==> #[trigger] found@[k1] < #[trigger] found@[k2],
            forall|x: int| usize_seq(found@).contains(x) <==> (x < d && open_desc_of(ts, a as int, x)),
        decreases n - d,
    {
        let t = store.task_at(d);
        if is_open(t.status.as_str()) && reaches(Ghost(ts), &par, d, a) {
            let ghost old_f = usize_seq(found@);
            found.push(d);
            proof {
                assert(usize_seq(found@) =~= old_f.push(d as int));
                assert forall|x: int| usize_seq(found@).contains(x) <==> (x < d + 1 && open_desc_of(ts, a as int, x)) by {
                    if x == d {
                        assert(usize_seq(found@)[old_f.len() as int] == x);
                    } else if usize_seq(found@).contains(x) {
                        let w = choose|w: int| 0 <= w < usize_seq(found@).len() && usize_seq(found@)[w] == x;
                        assert(old_f[w] == x);
                    } else if x < d + 1 && open_desc_of(ts, a as int, x) {
                        assert(old_f.contains(x));
                        let w = choose|w: int| 0 <= w < old_f.len() && old_f[w] == x;
                        assert(usize_seq(found@)[w] == x);
                    }
                }
            }
        } else {
            proof {
                assert forall|x: int| usize_seq(found@).contains(x) <==> (x < d + 1 && open_desc_of(ts, a as int, x)) by {
                    if x == d {
                        if usize_seq(found@).contains(x) {
                            let w = choose|w: int| 0 <= w < usize_seq(found@).len() && usize_seq(found@)[w] == x;
                            assert(found@[w] < d);
                        }
                    }
                }
            }
        }
        d = d + 1;
    }
    assert(found@.no_duplicates()) by {
        assert forall|i: int, j: int| 0 <= i < found@.len() && 0 <= j < found@.len() && i != j implies found@[i] != found@[j] by {
            if i < j {
                assert(found@[i] < found@[j]);
            } else {
                assert(found@[j] < found@[i]);
            }
        }
    }
    let (k1, k2) = id_key_vecs(store);
    assert(k1@.len() == key_views(k1@).len());
    assert(k2@.len() == key_views(k2@).len());
    let r = sort_positions(&found, &k1, &k2);
    proof {
        assert forall|x: int| usize_seq(r@).contains(x) <==> open_desc_of(ts, a as int, x) by {}
        assert forall|k: int| 0 <= k < usize_seq(r@).len() implies 0 <= #[trigger] usize_seq(r@)[k] < ts.len() by {
            assert(r@[k] < k1@.len());
        }
        assert(open_desc_list(ts, a as int, usize_seq(r@)));
        lemma_open_descendants(ts, a as int, usize_seq(r@));
    }
    r
}

} // verus!
