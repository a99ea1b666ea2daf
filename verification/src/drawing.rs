//! The tree drawing entry by entry: which entry each line of a listing shows,
//! and the proof that a listing whose parents form no cycle draws every entry
//! exactly once.
use vstd::prelude::*;

use crate::human::{
    entry_context, entry_main, entry_progress, entry_project, human, law_human_has_no_controls, must_escape, nl,
    prefix_inner, entry_text, is_kid, is_root, kid_rows, kids, lemma_slot_range, parent_slot, parent_slots, slot_upto, prefix, root_rows, roots, rows, summary_lines,
    tree_text,
};
use crate::laws::acyclic;
use crate::model::{ListFilter, ListResult, ListSummary, TaskV, TaskView};
use crate::text::decimal;
use crate::query::{created_keys, id_keys, lemma_task_keys_distinct, list_ok, listed, visible};
use crate::sorting::lemma_sorted_list_exists;
use crate::store::{has_task, task_index, unique_task_ids, StoreV};
use crate::tree::{is_desc, lemma_reach_within_len, pidx, up};

verus! {

/// The entries that `rows` draws, each with its tree drawing, in order.
pub open spec fn drawn_rows(pp: Seq<int>, k: int, flags: Seq<bool>, fuel: nat) -> Seq<(int, Seq<bool>)>
    decreases fuel, 0int,
{
    if fuel == 0 {
        Seq::empty()
    } else {
        seq![(k, flags)] + drawn_kids(pp, kids(pp, k), kids(pp, k).len() as int, flags, (fuel - 1) as nat)
    }
}

pub open spec fn drawn_kids(pp: Seq<int>, ks: Seq<int>, m: int, flags: Seq<bool>, fuel: nat) -> Seq<(int, Seq<bool>)>
    decreases fuel, m + 1,
{
    if m <= 0 || m > ks.len() {
        Seq::empty()
    } else {
        drawn_kids(pp, ks, m - 1, flags, fuel) + drawn_rows(pp, ks[m - 1], flags.push(m == ks.len()), fuel)
    }
}

pub open spec fn drawn_roots(pp: Seq<int>, rs: Seq<int>, m: int, fuel: nat) -> Seq<(int, Seq<bool>)>
    decreases m,
{
    if m <= 0 || m > rs.len() {
        Seq::empty()
    } else {
        drawn_roots(pp, rs, m - 1, fuel) + drawn_rows(pp, rs[m - 1], seq![], fuel)
    }
}

/// The lines of drawn entries.
pub open spec fn lines(vs: Seq<TaskView>, ds: Seq<(int, Seq<bool>)>) -> Seq<char>
    decreases ds.len(),
{
    if ds.len() == 0 {
        Seq::empty()
    } else {
        lines(vs, ds.drop_last()) + prefix(ds.last().1) + entry_text(vs[ds.last().0])
    }
}

pub proof fn lemma_lines_add(vs: Seq<TaskView>, a: Seq<(int, Seq<bool>)>, b: Seq<(int, Seq<bool>)>)
    ensures
        lines(vs, a + b) == lines(vs, a) + lines(vs, b),
    decreases b.len(),
{
    if b.len() == 0 {
        assert(a + b =~= a);
        assert(lines(vs, a) + lines(vs, b) =~= lines(vs, a));
    } else {
        lemma_lines_add(vs, a, b.drop_last());
        assert((a + b).drop_last() =~= a + b.drop_last());
        assert((a + b).last() == b.last());
        assert(lines(vs, a + b) =~= lines(vs, a) + lines(vs, b));
    }
}

/// `rows` is the lines of the entries it draws.
pub proof fn lemma_rows_lines(vs: Seq<TaskView>, pp: Seq<int>, k: int, flags: Seq<bool>, fuel: nat)
    ensures
        rows(vs, pp, k, flags, fuel) == lines(vs, drawn_rows(pp, k, flags, fuel)),
    decreases fuel, 0int,
{
    if fuel > 0 {
        let ks = kids(pp, k);
        lemma_kids_lines(vs, pp, ks, ks.len() as int, flags, (fuel - 1) as nat);
        let head = seq![(k, flags)];
        let tail = drawn_kids(pp, ks, ks.len() as int, flags, (fuel - 1) as nat);
        lemma_lines_add(vs, head, tail);
        assert(head.drop_last() =~= Seq::<(int, Seq<bool>)>::empty());
        assert(lines(vs, Seq::<(int, Seq<bool>)>::empty()) == Seq::<char>::empty());
        assert(lines(vs, head) =~= prefix(flags) + entry_text(vs[k]));
    }
}

pub proof fn lemma_kids_lines(vs: Seq<TaskView>, pp: Seq<int>, ks: Seq<int>, m: int, flags: Seq<bool>, fuel: nat)
    ensures
        kid_rows(vs, pp, ks, m, flags, fuel) == lines(vs, drawn_kids(pp, ks, m, flags, fuel)),
    decreases fuel, m + 1,
{
    if 0 < m <= ks.len() {
        lemma_kids_lines(vs, pp, ks, m - 1, flags, fuel);
        lemma_rows_lines(vs, pp, ks[m - 1], flags.push(m == ks.len()), fuel);
        lemma_lines_add(
            vs,
            drawn_kids(pp, ks, m - 1, flags, fuel),
            drawn_rows(pp, ks[m - 1], flags.push(m == ks.len()), fuel),
        );
    }
}

pub proof fn lemma_roots_lines(vs: Seq<TaskView>, pp: Seq<int>, rs: Seq<int>, m: int, fuel: nat)
    ensures
        root_rows(vs, pp, rs, m, fuel) == lines(vs, drawn_roots(pp, rs, m, fuel)),
    decreases m,
{
    if 0 < m <= rs.len() {
        lemma_roots_lines(vs, pp, rs, m - 1, fuel);
        lemma_rows_lines(vs, pp, rs[m - 1], seq![], fuel);
        lemma_lines_add(vs, drawn_roots(pp, rs, m - 1, fuel), drawn_rows(pp, rs[m - 1], seq![], fuel));
    }
}

/// The slot reached after `k` steps up from `x`, or -1 once the chain ends.
pub open spec fn pup(pp: Seq<int>, x: int, k: nat) -> int
    decreases k,
{
    if k == 0 {
        x
    } else {
        let j = pup(pp, x, (k - 1) as nat);
        if 0 <= j < pp.len() {
            pp[j]
        } else {
            -1
        }
    }
}

/// Every slot names an entry or is -1.
pub open spec fn slots_ok(pp: Seq<int>) -> bool {
    forall|j: int| 0 <= j < pp.len() ==> -1 <= #[trigger] pp[j] < pp.len()
}

/// No entry is its own ancestor.
pub open spec fn slots_acyclic(pp: Seq<int>) -> bool {
    forall|x: int, k: nat| 0 <= x < pp.len() && k >= 1 ==> #[trigger] pup(pp, x, k) != x
}

pub proof fn lemma_pup_compose(pp: Seq<int>, x: int, a: nat, b: nat)
    ensures
        pup(pp, x, a + b) == pup(pp, pup(pp, x, a), b),
    decreases b,
{
    if b > 0 {
        lemma_pup_compose(pp, x, a, (b - 1) as nat);
        assert((a + b - 1) as nat == a + (b - 1) as nat);
    }
}

pub proof fn lemma_pup_none(pp: Seq<int>, m: nat)
    ensures
        pup(pp, -1, m) == -1,
    decreases m,
{
    if m > 0 {
        lemma_pup_none(pp, (m - 1) as nat);
    }
}

pub proof fn lemma_pup_range(pp: Seq<int>, x: int, k: nat)
    requires
        slots_ok(pp),
        -1 <= x < pp.len(),
    ensures
        -1 <= pup(pp, x, k) < pp.len(),
    decreases k,
{
    if k > 0 {
        lemma_pup_range(pp, x, (k - 1) as nat);
    }
}

/// The positions below `n` that `p` accepts, in increasing order.
pub proof fn lemma_range_filter(n: nat, p: spec_fn(int) -> bool)
    ensures
        ({
            let f = Seq::new(n, |j: int| j).filter(p);
            &&& forall|i: int| 0 <= i < f.len() ==> 0 <= #[trigger] f[i] < n && p(f[i])
            &&& forall|i: int, j: int| 0 <= i < j < f.len() ==> #[trigger] f[i] < #[trigger] f[j]
            &&& forall|e: int| 0 <= e < n && p(e) ==> f.contains(e)
        }),
    decreases n,
{
    if n > 0 {
        let m = (n - 1) as nat;
        lemma_range_filter(m, p);
        let s = Seq::new(m, |j: int| j);
        assert(Seq::new(n, |j: int| j) =~= s.push(m as int));
        s.lemma_filter_push(m as int, p);
        let f0 = s.filter(p);
        let f = Seq::new(n, |j: int| j).filter(p);
        assert forall|e: int| 0 <= e < n && p(e) implies f.contains(e) by {
            if e < m {
                assert(f0.contains(e));
                let i = choose|i: int| 0 <= i < f0.len() && f0[i] == e;
                if p(m as int) {
                    assert(f[i] == e);
                } else {
                    assert(f[i] == e);
                }
            } else {
                assert(f[f.len() - 1] == e);
            }
        }
    }
}

/// The children of `k` are the entries whose slot is `k`, in increasing order.
pub proof fn lemma_kids(pp: Seq<int>, k: int)
    ensures
        forall|i: int| 0 <= i < kids(pp, k).len() ==> 0 <= #[trigger] kids(pp, k)[i] < pp.len() && pp[kids(pp, k)[i]] == k,
        forall|i: int, j: int| 0 <= i < j < kids(pp, k).len() ==> #[trigger] kids(pp, k)[i] < #[trigger] kids(pp, k)[j],
        forall|c: int| 0 <= c < pp.len() && pp[c] == k ==> #[trigger] kids(pp, k).contains(c),
{
    lemma_range_filter(pp.len(), is_kid(pp, k));
    assert forall|c: int| 0 <= c < pp.len() && pp[c] == k implies #[trigger] kids(pp, k).contains(c) by {
        assert(is_kid(pp, k)(c));
    }
}

/// The roots are the entries without a slot, in increasing order.
pub proof fn lemma_roots(pp: Seq<int>)
    ensures
        forall|i: int| 0 <= i < roots(pp).len() ==> 0 <= #[trigger] roots(pp)[i] < pp.len() && pp[roots(pp)[i]] < 0,
        forall|i: int, j: int| 0 <= i < j < roots(pp).len() ==> #[trigger] roots(pp)[i] < #[trigger] roots(pp)[j],
        forall|c: int| 0 <= c < pp.len() && pp[c] < 0 ==> #[trigger] roots(pp).contains(c),
{
    lemma_range_filter(pp.len(), is_root(pp));
    assert forall|c: int| 0 <= c < pp.len() && pp[c] < 0 implies #[trigger] roots(pp).contains(c) by {
        assert(is_root(pp)(c));
    }
}

/// One step of `lemma_siblings_meet`, with the nearer entry first.
proof fn lemma_meet_ordered(pp: Seq<int>, y: int, a: int, b: int, d1: nat, d2: nat)
    requires
        slots_ok(pp),
        slots_acyclic(pp),
        0 <= a < pp.len(),
        0 <= b < pp.len(),
        pp[a] == pp[b],
        pup(pp, y, d1) == a,
        pup(pp, y, d2) == b,
        d1 <= d2,
    ensures
        a == b,
{
    if d1 < d2 {
        let e = (d2 - d1 - 1) as nat;
        lemma_pup_compose(pp, y, d1, 1);
        assert(pup(pp, a, 0) == a);
        assert(pup(pp, a, 1) == pp[a]);
        lemma_pup_compose(pp, y, d1 + 1, e);
        assert(d1 + 1 + e == d2);
        if pp[a] < 0 {
            lemma_pup_none(pp, e);
        } else {
            let p = pp[a];
            lemma_pup_compose(pp, b, 1, e);
            assert(pup(pp, b, 0) == b);
            assert(pup(pp, b, 1) == p);
            assert(pup(pp, b, 1 + e) == b);
            assert(pup(pp, b, 1 + e) != b);
        }
    }
}

/// Two entries with the same slot that are both ancestors-or-self of one
/// entry are the same entry.
pub proof fn lemma_siblings_meet(pp: Seq<int>, y: int, a: int, b: int, d1: nat, d2: nat)
    requires
        slots_ok(pp),
        slots_acyclic(pp),
        0 <= a < pp.len(),
        0 <= b < pp.len(),
        pp[a] == pp[b],
        pup(pp, y, d1) == a,
        pup(pp, y, d2) == b,
    ensures
        a == b,
{
    if d1 <= d2 {
        lemma_meet_ordered(pp, y, a, b, d1, d2);
    } else {
        lemma_meet_ordered(pp, y, b, a, d2, d1);
    }
}

/// Every entry drawn below `k` descends from `k` by fewer steps than the fuel.
pub proof fn lemma_drawn_sound(pp: Seq<int>, k: int, flags: Seq<bool>, fuel: nat)
    requires
        slots_ok(pp),
        0 <= k < pp.len(),
    ensures
        forall|i: int| 0 <= i < drawn_rows(pp, k, flags, fuel).len() ==> {
            let y = #[trigger] drawn_rows(pp, k, flags, fuel)[i].0;
            0 <= y < pp.len() && exists|d: nat| d < fuel && pup(pp, y, d) == k
        },
    decreases fuel, 0int,
{
    if fuel > 0 {
        let ks = kids(pp, k);
        lemma_kids(pp, k);
        lemma_kids_sound(pp, ks, ks.len() as int, flags, (fuel - 1) as nat, k);
        let ds = drawn_rows(pp, k, flags, fuel);
        let dk = drawn_kids(pp, ks, ks.len() as int, flags, (fuel - 1) as nat);
        assert forall|i: int| 0 <= i < ds.len() implies {
            let y = #[trigger] ds[i].0;
            0 <= y < pp.len() && exists|d: nat| d < fuel && pup(pp, y, d) == k
        } by {
            if i == 0 {
                assert(pup(pp, k, 0) == k);
            } else {
                let y = dk[i - 1].0;
                assert(ds[i] == dk[i - 1]);
                let (j, d) = choose|j: int, d: nat| 0 <= j < ks.len() && d < fuel - 1 && pup(pp, y, d) == ks[j];
                lemma_pup_compose(pp, y, d, 1);
                assert(pup(pp, ks[j], 0) == ks[j]);
                assert(pup(pp, y, d + 1) == k);
            }
        }
    }
}

pub proof fn lemma_kids_sound(pp: Seq<int>, ks: Seq<int>, m: int, flags: Seq<bool>, fuel: nat, k: int)
    requires
        slots_ok(pp),
        forall|q: int| 0 <= q < ks.len() ==> 0 <= #[trigger] ks[q] < pp.len() && pp[ks[q]] == k,
    ensures
        forall|i: int| 0 <= i < drawn_kids(pp, ks, m, flags, fuel).len() ==> {
            let y = #[trigger] drawn_kids(pp, ks, m, flags, fuel)[i].0;
            0 <= y < pp.len() && exists|j: int, d: nat| 0 <= j < m && d < fuel && pup(pp, y, d) == ks[j]
        },
    decreases fuel, m + 1,
{
    if 0 < m <= ks.len() {
        lemma_kids_sound(pp, ks, m - 1, flags, fuel, k);
        let c = ks[m - 1];
        let f2 = flags.push(m == ks.len());
        lemma_drawn_sound(pp, c, f2, fuel);
        let left = drawn_kids(pp, ks, m - 1, flags, fuel);
        let right = drawn_rows(pp, c, f2, fuel);
        let all = drawn_kids(pp, ks, m, flags, fuel);
        assert forall|i: int| 0 <= i < all.len() implies {
            let y = #[trigger] all[i].0;
            0 <= y < pp.len() && exists|j: int, d: nat| 0 <= j < m && d < fuel && pup(pp, y, d) == ks[j]
        } by {
            if i < left.len() {
                assert(all[i] == left[i]);
                let y = left[i].0;
                let (j, d) = choose|j: int, d: nat| 0 <= j < m - 1 && d < fuel && pup(pp, y, d) == ks[j];
                assert(pup(pp, y, d) == ks[j]);
            } else {
                assert(all[i] == right[i - left.len()]);
                let y = right[i - left.len()].0;
                let d = choose|d: nat| d < fuel && pup(pp, y, d) == c;
                assert(pup(pp, y, d) == ks[m - 1]);
            }
        }
    }
}

/// Every descendant of `k` by fewer steps than the fuel is drawn below `k`.
pub proof fn lemma_drawn_complete(pp: Seq<int>, k: int, flags: Seq<bool>, fuel: nat, y: int, d: nat)
    requires
        slots_ok(pp),
        0 <= k < pp.len(),
        0 <= y < pp.len(),
        d < fuel,
        pup(pp, y, d) == k,
    ensures
        exists|i: int| 0 <= i < drawn_rows(pp, k, flags, fuel).len() && #[trigger] drawn_rows(pp, k, flags, fuel)[i].0 == y,
    decreases fuel, 0int,
{
    let ds = drawn_rows(pp, k, flags, fuel);
    if d == 0 {
        assert(ds[0].0 == k);
    } else {
        let c = pup(pp, y, (d - 1) as nat);
        lemma_pup_range(pp, y, (d - 1) as nat);
        assert(0 <= c < pp.len() && pp[c] == k);
        let ks = kids(pp, k);
        lemma_kids(pp, k);
        assert(ks.contains(c));
        let j = choose|j: int| 0 <= j < ks.len() && ks[j] == c;
        lemma_kids_complete(pp, ks, ks.len() as int, flags, (fuel - 1) as nat, j, y, (d - 1) as nat, k);
        let dk = drawn_kids(pp, ks, ks.len() as int, flags, (fuel - 1) as nat);
        let i = choose|i: int| 0 <= i < dk.len() && #[trigger] dk[i].0 == y;
        assert(ds[i + 1] == dk[i]);
    }
}

pub proof fn lemma_kids_complete(
    pp: Seq<int>,
    ks: Seq<int>,
    m: int,
    flags: Seq<bool>,
    fuel: nat,
    j: int,
    y: int,
    d: nat,
    k: int,
)
    requires
        slots_ok(pp),
        0 <= j < m <= ks.len(),
        forall|q: int| 0 <= q < ks.len() ==> 0 <= #[trigger] ks[q] < pp.len() && pp[ks[q]] == k,
        0 <= y < pp.len(),
        d < fuel,
        pup(pp, y, d) == ks[j],
    ensures
        exists|i: int| 0 <= i < drawn_kids(pp, ks, m, flags, fuel).len() && #[trigger] drawn_kids(pp, ks, m, flags, fuel)[i].0 == y,
    decreases fuel, m + 1,
{
    let left = drawn_kids(pp, ks, m - 1, flags, fuel);
    let all = drawn_kids(pp, ks, m, flags, fuel);
    if j == m - 1 {
        let f2 = flags.push(m == ks.len());
        lemma_drawn_complete(pp, ks[j], f2, fuel, y, d);
        let right = drawn_rows(pp, ks[j], f2, fuel);
        let i = choose|i: int| 0 <= i < right.len() && #[trigger] right[i].0 == y;
        assert(all[left.len() + i] == right[i]);
    } else {
        lemma_kids_complete(pp, ks, m - 1, flags, fuel, j, y, d, k);
        let i = choose|i: int| 0 <= i < left.len() && #[trigger] left[i].0 == y;
        assert(all[i] == left[i]);
    }
}

/// Nothing is drawn twice below `k` when no entry is its own ancestor.
pub proof fn lemma_drawn_nodup(pp: Seq<int>, k: int, flags: Seq<bool>, fuel: nat)
    requires
        slots_ok(pp),
        slots_acyclic(pp),
        0 <= k < pp.len(),
    ensures
        forall|i: int, j: int| 0 <= i < j < drawn_rows(pp, k, flags, fuel).len() ==> (#[trigger] drawn_rows(pp, k, flags, fuel)[i]).0
            != (#[trigger] drawn_rows(pp, k, flags, fuel)[j]).0,
    decreases fuel, 0int,
{
    if fuel > 0 {
        let ks = kids(pp, k);
        lemma_kids(pp, k);
        lemma_kids_nodup(pp, ks, ks.len() as int, flags, (fuel - 1) as nat, k);
        lemma_kids_sound(pp, ks, ks.len() as int, flags, (fuel - 1) as nat, k);
        let ds = drawn_rows(pp, k, flags, fuel);
        let dk = drawn_kids(pp, ks, ks.len() as int, flags, (fuel - 1) as nat);
        assert forall|i: int, j: int| 0 <= i < j < ds.len() implies (#[trigger] ds[i]).0 != (#[trigger] ds[j]).0 by {
            assert(ds[j] == dk[j - 1]);
            if i == 0 {
                let y = dk[j - 1].0;
                let (q, d) = choose|q: int, d: nat| 0 <= q < ks.len() && d < fuel - 1 && pup(pp, y, d) == ks[q];
                lemma_pup_compose(pp, y, d, 1);
                assert(pup(pp, ks[q], 0) == ks[q]);
                assert(pup(pp, y, d + 1) == k);
                if y == k {
                    assert(pup(pp, k, d + 1) != k);
                }
            } else {
                assert(ds[i] == dk[i - 1]);
            }
        }
    }
}

pub proof fn lemma_kids_nodup(pp: Seq<int>, ks: Seq<int>, m: int, flags: Seq<bool>, fuel: nat, k: int)
    requires
        slots_ok(pp),
        slots_acyclic(pp),
        forall|q: int| 0 <= q < ks.len() ==> 0 <= #[trigger] ks[q] < pp.len() && pp[ks[q]] == k,
        forall|a: int, b: int| 0 <= a < b < ks.len() ==> #[trigger] ks[a] < #[trigger] ks[b],
    ensures
        forall|i: int, j: int| 0 <= i < j < drawn_kids(pp, ks, m, flags, fuel).len() ==> (#[trigger] drawn_kids(pp, ks, m, flags, fuel)[i]).0
            != (#[trigger] drawn_kids(pp, ks, m, flags, fuel)[j]).0,
    decreases fuel, m + 1,
{
    if 0 < m <= ks.len() {
        lemma_kids_nodup(pp, ks, m - 1, flags, fuel, k);
        lemma_kids_sound(pp, ks, m - 1, flags, fuel, k);
        let c = ks[m - 1];
        let f2 = flags.push(m == ks.len());
        lemma_drawn_nodup(pp, c, f2, fuel);
        lemma_drawn_sound(pp, c, f2, fuel);
        let left = drawn_kids(pp, ks, m - 1, flags, fuel);
        let right = drawn_rows(pp, c, f2, fuel);
        let all = drawn_kids(pp, ks, m, flags, fuel);
        assert forall|i: int, j: int| 0 <= i < j < all.len() implies (#[trigger] all[i]).0 != (#[trigger] all[j]).0 by {
            if j < left.len() {
                assert(all[i] == left[i] && all[j] == left[j]);
            } else if i >= left.len() {
                assert(all[i] == right[i - left.len()] && all[j] == right[j - left.len()]);
            } else {
                assert(all[i] == left[i] && all[j] == right[j - left.len()]);
                let y = left[i].0;
                if y == right[j - left.len()].0 {
                    let (q, d1) = choose|q: int, d1: nat| 0 <= q < m - 1 && d1 < fuel && pup(pp, y, d1) == ks[q];
                    let d2 = choose|d2: nat| d2 < fuel && pup(pp, y, d2) == c;
                    lemma_siblings_meet(pp, y, ks[q], c, d1, d2);
                    assert(ks[q] < ks[m - 1]);
                }
            }
        }
    }
}

/// Every entry drawn for the first `m` roots, soundly, completely and once.
pub proof fn lemma_roots_drawn(pp: Seq<int>, m: int, fuel: nat)
    requires
        slots_ok(pp),
        slots_acyclic(pp),
        0 <= m <= roots(pp).len(),
    ensures
        forall|i: int| 0 <= i < drawn_roots(pp, roots(pp), m, fuel).len() ==> {
            let y = #[trigger] drawn_roots(pp, roots(pp), m, fuel)[i].0;
            0 <= y < pp.len() && exists|q: int, d: nat| 0 <= q < m && d < fuel && pup(pp, y, d) == roots(pp)[q]
        },
        forall|i: int, j: int| 0 <= i < j < drawn_roots(pp, roots(pp), m, fuel).len() ==> (#[trigger] drawn_roots(pp, roots(pp), m, fuel)[i]).0
            != (#[trigger] drawn_roots(pp, roots(pp), m, fuel)[j]).0,
        forall|q: int, y: int, d: nat|
            #![trigger pup(pp, y, d), roots(pp)[q]]
            0 <= q < m && 0 <= y < pp.len() && d < fuel && pup(pp, y, d) == roots(pp)[q] ==> exists|i: int|
                0 <= i < drawn_roots(pp, roots(pp), m, fuel).len() && #[trigger] drawn_roots(pp, roots(pp), m, fuel)[i].0 == y,
    decreases m,
{
    let rs = roots(pp);
    lemma_roots(pp);
    if m > 0 {
        lemma_roots_drawn(pp, m - 1, fuel);
        let r = rs[m - 1];
        lemma_drawn_sound(pp, r, seq![], fuel);
        lemma_drawn_nodup(pp, r, seq![], fuel);
        let left = drawn_roots(pp, rs, m - 1, fuel);
        let right = drawn_rows(pp, r, seq![], fuel);
        let all = drawn_roots(pp, rs, m, fuel);
        assert forall|i: int| 0 <= i < all.len() implies {
            let y = #[trigger] all[i].0;
            0 <= y < pp.len() && exists|q: int, d: nat| 0 <= q < m && d < fuel && pup(pp, y, d) == rs[q]
        } by {
            if i < left.len() {
                assert(all[i] == left[i]);
                let y = left[i].0;
                let (q, d) = choose|q: int, d: nat| 0 <= q < m - 1 && d < fuel && pup(pp, y, d) == rs[q];
                assert(pup(pp, y, d) == rs[q]);
            } else {
                assert(all[i] == right[i - left.len()]);
                let y = right[i - left.len()].0;
                let d = choose|d: nat| d < fuel && pup(pp, y, d) == r;
                assert(pup(pp, y, d) == rs[m - 1]);
            }
        }
        assert forall|i: int, j: int| 0 <= i < j < all.len() implies (#[trigger] all[i]).0 != (#[trigger] all[j]).0 by {
            if j < left.len() {
                assert(all[i] == left[i] && all[j] == left[j]);
            } else if i >= left.len() {
                assert(all[i] == right[i - left.len()] && all[j] == right[j - left.len()]);
            } else {
                assert(all[i] == left[i] && all[j] == right[j - left.len()]);
                let y = left[i].0;
                if y == right[j - left.len()].0 {
                    let (q, d1) = choose|q: int, d1: nat| 0 <= q < m - 1 && d1 < fuel && pup(pp, y, d1) == rs[q];
                    let d2 = choose|d2: nat| d2 < fuel && pup(pp, y, d2) == r;
                    assert(pp[rs[q]] == -1 && pp[r] == -1);
                    lemma_siblings_meet(pp, y, rs[q], r, d1, d2);
                    assert(rs[q] < rs[m - 1]);
                }
            }
        }
        assert forall|q: int, y: int, d: nat|
            #![trigger pup(pp, y, d), rs[q]]
            0 <= q < m && 0 <= y < pp.len() && d < fuel && pup(pp, y, d) == rs[q] implies exists|i: int|
                0 <= i < all.len() && #[trigger] all[i].0 == y by {
            if q == m - 1 {
                lemma_drawn_complete(pp, r, seq![], fuel, y, d);
                let i = choose|i: int| 0 <= i < right.len() && #[trigger] right[i].0 == y;
                assert(all[left.len() + i] == right[i]);
            } else {
                let i = choose|i: int| 0 <= i < left.len() && #[trigger] left[i].0 == y;
                assert(all[i] == left[i]);
            }
        }
    }
}

/// Without a cycle, the chain up from an entry ends within `n` steps.
proof fn lemma_chain_ends(pp: Seq<int>, y: int)
    requires
        slots_ok(pp),
        slots_acyclic(pp),
        0 <= y < pp.len(),
    ensures
        exists|d: nat| d <= pp.len() && #[trigger] pup(pp, y, d) == -1,
{
    let n = pp.len();
    if forall|d: nat| d <= n ==> #[trigger] pup(pp, y, d) != -1 {
        let v = Seq::new((n + 1) as nat, |x: int| pup(pp, y, x as nat));
        assert forall|x: int| 0 <= x < v.len() implies 0 <= #[trigger] v[x] < n by {
            lemma_pup_range(pp, y, x as nat);
            assert(pup(pp, y, x as nat) != -1);
        }
        if v.no_duplicates() {
            v.unique_seq_to_set();
            assert(v.to_set().subset_of(vstd::set_lib::set_int_range(0, n as int))) by {
                assert forall|z: int| v.to_set().contains(z) implies vstd::set_lib::set_int_range(0, n as int).contains(z) by {
                    assert(v.contains(z));
                    let w = choose|w: int| 0 <= w < v.len() && v[w] == z;
                }
            }
            vstd::set_lib::lemma_int_range(0, n as int);
            vstd::set_lib::lemma_len_subset(v.to_set(), vstd::set_lib::set_int_range(0, n as int));
        }
        let (a, b) = choose|a: int, b: int| 0 <= a < v.len() && 0 <= b < v.len() && a != b && v[a] == v[b];
        let (lo, hi) = if a < b { (a, b) } else { (b, a) };
        assert(v[lo] == v[hi]);
        lemma_pup_compose(pp, y, lo as nat, (hi - lo) as nat);
        assert(lo as nat + (hi - lo) as nat == hi as nat);
        assert(pup(pp, v[lo], (hi - lo) as nat) != v[lo]);
    }
}

/// The last entry on a chain that ends is a root.
proof fn lemma_last_before(pp: Seq<int>, y: int, e: nat)
    requires
        slots_ok(pp),
        0 <= y < pp.len(),
        pup(pp, y, e) == -1,
    ensures
        exists|d: nat| d < e && 0 <= #[trigger] pup(pp, y, d) < pp.len() && pp[pup(pp, y, d)] < 0,
    decreases e,
{
    let d = (e - 1) as nat;
    assert(e > 0);
    lemma_pup_range(pp, y, d);
    if pup(pp, y, d) == -1 {
        lemma_last_before(pp, y, d);
        let d2 = choose|d2: nat| d2 < d && 0 <= #[trigger] pup(pp, y, d2) < pp.len() && pp[pup(pp, y, d2)] < 0;
    } else {
        assert(pup(pp, y, d) >= 0 && pp[pup(pp, y, d)] < 0);
    }
}

/// Without a cycle, every entry descends from a root in fewer than `n` steps.
pub proof fn lemma_reach_root(pp: Seq<int>, y: int)
    requires
        slots_ok(pp),
        slots_acyclic(pp),
        0 <= y < pp.len(),
    ensures
        exists|d: nat| d < pp.len() && 0 <= #[trigger] pup(pp, y, d) < pp.len() && pp[pup(pp, y, d)] < 0,
{
    lemma_chain_ends(pp, y);
    let e = choose|e: nat| e <= pp.len() && #[trigger] pup(pp, y, e) == -1;
    lemma_last_before(pp, y, e);
}

/// Whether entry `y` is among the drawn ones.
pub open spec fn draws(ds: Seq<(int, Seq<bool>)>, y: int) -> bool {
    exists|i: int| 0 <= i < ds.len() && #[trigger] ds[i].0 == y
}

/// After its counts, the tree text of `r` is one line for each entry: every
/// entry appears, and none appears twice.
pub open spec fn draws_each_once(r: ListResult) -> bool {
    let vs = r.tasks@;
    let pp = parent_slots(vs);
    let ds = drawn_roots(pp, roots(pp), roots(pp).len() as int, (vs.len() + 1) as nat);
    &&& tree_text(r) == summary_lines(r.summary) + lines(vs, ds)
    &&& ds.len() == vs.len()
    &&& forall|i: int| 0 <= i < ds.len() ==> 0 <= #[trigger] ds[i].0 < vs.len()
    &&& forall|i: int, j: int| 0 <= i < j < ds.len() ==> (#[trigger] ds[i]).0 != (#[trigger] ds[j]).0
    &&& forall|y: int| 0 <= y < vs.len() ==> #[trigger] draws(ds, y)
}

/// A listing whose listed parents form no cycle draws, after its counts, one
/// line for each entry: every entry appears, and none appears twice.
pub proof fn law_tree_draws_each_entry_once(r: ListResult)
    requires
        r.tasks@.len() > 0,
        slots_acyclic(parent_slots(r.tasks@)),
    ensures
        draws_each_once(r),
{
    let vs = r.tasks@;
    let n = vs.len();
    let pp = parent_slots(vs);
    let rs = roots(pp);
    let fuel = (n + 1) as nat;
    let ds = drawn_roots(pp, rs, rs.len() as int, fuel);
    assert forall|j: int| 0 <= j < pp.len() implies -1 <= #[trigger] pp[j] < pp.len() by {
        match vs[j].task@.parent_id {
            Some(p) => lemma_slot_range(vs, p, n as int),
            None => {},
        }
    }
    lemma_roots_lines(vs, pp, rs, rs.len() as int, fuel);
    lemma_roots_drawn(pp, rs.len() as int, fuel);
    lemma_roots(pp);
    assert forall|y: int| 0 <= y < n implies #[trigger] draws(ds, y) by {
        lemma_reach_root(pp, y);
        let d = choose|d: nat| d < pp.len() && 0 <= #[trigger] pup(pp, y, d) < pp.len() && pp[pup(pp, y, d)] < 0;
        let top = pup(pp, y, d);
        assert(rs.contains(top));
        let q = choose|q: int| 0 <= q < rs.len() && rs[q] == top;
        assert(pup(pp, y, d) == rs[q]);
    }
    let es = Seq::new(ds.len(), |i: int| ds[i].0);
    assert(es.no_duplicates()) by {
        assert forall|i: int, j: int| 0 <= i < es.len() && 0 <= j < es.len() && i != j implies es[i] != es[j] by {
            if i < j {
                assert(ds[i].0 != ds[j].0);
            } else {
                assert(ds[j].0 != ds[i].0);
            }
        }
    }
    es.unique_seq_to_set();
    assert(es.to_set() =~= vstd::set_lib::set_int_range(0, n as int)) by {
        assert forall|z: int| es.to_set().contains(z) implies vstd::set_lib::set_int_range(0, n as int).contains(z) by {
            assert(es.contains(z));
            let w = choose|w: int| 0 <= w < es.len() && es[w] == z;
            assert(ds[w].0 == z);
        }
        assert forall|z: int| vstd::set_lib::set_int_range(0, n as int).contains(z) implies es.to_set().contains(z) by {
            assert(draws(ds, z));
            let w = choose|w: int| 0 <= w < ds.len() && #[trigger] ds[w].0 == z;
            assert(es[w] == z);
            assert(es.contains(z));
        }
    }
    vstd::set_lib::lemma_int_range(0, n as int);
}

/// The slot found for an id holds that id.
proof fn lemma_slot_found(vs: Seq<TaskView>, id: Seq<char>, n: int)
    requires
        n <= vs.len(),
        slot_upto(vs, id, n) >= 0,
    ensures
        vs[slot_upto(vs, id, n)].task@.id == id,
    decreases n,
{
    if n > 0 && vs[n - 1].task@.id != id {
        lemma_slot_found(vs, id, n - 1);
    }
}

/// The listed parent of an entry is the parent of its task.
proof fn lemma_listed_parent(ts: Seq<TaskV>, l: Seq<int>, vs: Seq<TaskView>, k: int)
    requires
        unique_task_ids(ts),
        l.len() == vs.len(),
        forall|x: int| 0 <= x < l.len() ==> 0 <= #[trigger] l[x] < ts.len() && vs[x].task@ == ts[l[x]],
        0 <= k < vs.len(),
        parent_slots(vs)[k] >= 0,
    ensures
        l[parent_slots(vs)[k]] == pidx(ts, l[k]),
{
    let p = vs[k].task@.parent_id->Some_0;
    let j = slot_upto(vs, p, vs.len() as int);
    assert(parent_slots(vs)[k] == parent_slot(vs, k));
    lemma_slot_range(vs, p, vs.len() as int);
    lemma_slot_found(vs, p, vs.len() as int);
    assert(ts[l[j]].id == p);
    assert(has_task(ts, p));
    let i = task_index(ts, p);
    assert(ts[i].id == p);
}

/// Steps up the listed parents follow steps up the tasks' parents.
proof fn lemma_pup_up(ts: Seq<TaskV>, l: Seq<int>, vs: Seq<TaskView>, x: int, m: nat)
    requires
        unique_task_ids(ts),
        l.len() == vs.len(),
        forall|y: int| 0 <= y < l.len() ==> 0 <= #[trigger] l[y] < ts.len() && vs[y].task@ == ts[l[y]],
        slots_ok(parent_slots(vs)),
        0 <= x < vs.len(),
        pup(parent_slots(vs), x, m) >= 0,
    ensures
        l[pup(parent_slots(vs), x, m)] == up(ts, l[x], m),
    decreases m,
{
    let pp = parent_slots(vs);
    if m > 0 {
        let j = pup(pp, x, (m - 1) as nat);
        lemma_pup_range(pp, x, (m - 1) as nat);
        assert(0 <= j < pp.len());
        lemma_pup_up(ts, l, vs, x, (m - 1) as nat);
        lemma_listed_parent(ts, l, vs, j);
    }
}

/// The listed parents of a listing of tasks without a cycle form none.
pub proof fn lemma_listed_slots_acyclic(ts: Seq<TaskV>, f: ListFilter, r: ListResult)
    requires
        unique_task_ids(ts),
        acyclic(ts),
        list_ok(ts, f, r),
    ensures
        slots_ok(parent_slots(r.tasks@)),
        slots_acyclic(parent_slots(r.tasks@)),
{
    let vs = r.tasks@;
    let n = vs.len();
    let pp = parent_slots(vs);
    let l = listed(ts, f);
    lemma_task_keys_distinct(ts, created_keys(ts), id_keys(ts));
    lemma_sorted_list_exists(created_keys(ts), id_keys(ts), |i: int| visible(ts, f, i));
    assert forall|y: int| 0 <= y < l.len() implies 0 <= #[trigger] l[y] < ts.len() && vs[y].task@ == ts[l[y]] by {
        assert(vs[y] == r.tasks@[y]);
    }
    assert forall|j: int| 0 <= j < pp.len() implies -1 <= #[trigger] pp[j] < pp.len() by {
        match vs[j].task@.parent_id {
            Some(p) => lemma_slot_range(vs, p, n as int),
            None => {},
        }
    }
    assert forall|x: int, k: nat| 0 <= x < pp.len() && k >= 1 implies #[trigger] pup(pp, x, k) != x by {
        if pup(pp, x, k) == x {
            lemma_pup_up(ts, l, vs, x, k);
            lemma_reach_within_len(ts, l[x], l[x], k);
            assert(!is_desc(ts, l[x], l[x]));
        }
    }
}

/// How many line breaks a text holds.
pub open spec fn breaks(s: Seq<char>) -> nat
    decreases s.len(),
{
    if s.len() == 0 {
        0
    } else {
        breaks(s.drop_last()) + if s.last() == '\n' {
            1nat
        } else {
            0nat
        }
    }
}

/// No character of `s` is a line break.
pub open spec fn unbroken(s: Seq<char>) -> bool {
    forall|i: int| 0 <= i < s.len() ==> #[trigger] s[i] != '\n'
}

proof fn lemma_breaks_add(a: Seq<char>, b: Seq<char>)
    ensures
        breaks(a + b) == breaks(a) + breaks(b),
    decreases b.len(),
{
    if b.len() == 0 {
        assert(a + b =~= a);
    } else {
        lemma_breaks_add(a, b.drop_last());
        assert((a + b).drop_last() =~= a + b.drop_last());
        assert((a + b).last() == b.last());
    }
}

proof fn lemma_nl_breaks()
    ensures
        breaks(nl()) == 1,
        nl().last() == '\n',
{
    assert(nl().drop_last() =~= Seq::<char>::empty());
    assert(breaks(nl().drop_last()) == 0);
}

proof fn lemma_unbroken_breaks(s: Seq<char>)
    requires
        unbroken(s),
    ensures
        breaks(s) == 0,
    decreases s.len(),
{
    if s.len() > 0 {
        let t = s.drop_last();
        assert forall|i: int| 0 <= i < t.len() implies #[trigger] t[i] != '\n' by {
            assert(t[i] == s[i]);
        }
        lemma_unbroken_breaks(t);
        assert(s.last() == s[s.len() - 1]);
    }
}

proof fn lemma_unbroken_add(a: Seq<char>, b: Seq<char>)
    requires
        unbroken(a),
        unbroken(b),
    ensures
        unbroken(a + b),
{
    assert forall|i: int| 0 <= i < (a + b).len() implies #[trigger] (a + b)[i] != '\n' by {
        if i < a.len() {
            assert((a + b)[i] == a[i]);
        } else {
            assert((a + b)[i] == b[i - a.len()]);
        }
    }
}

proof fn lemma_decimal_unbroken(n: nat)
    ensures
        unbroken(decimal(n)),
    decreases n,
{
    if n >= 10 {
        lemma_decimal_unbroken(n / 10);
        let d = decimal(n / 10);
        assert forall|i: int| 0 <= i < decimal(n).len() implies #[trigger] decimal(n)[i] != '\n' by {
            if i < d.len() {
                assert(decimal(n)[i] == d[i]);
            }
        }
    }
}

proof fn lemma_human_unbroken(s: Seq<char>)
    ensures
        unbroken(human(s)),
{
    law_human_has_no_controls(s);
    assert forall|i: int| 0 <= i < human(s).len() implies #[trigger] human(s)[i] != '\n' by {
        assert(!must_escape(human(s)[i]));
        assert(must_escape('\n'));
    }
}

proof fn lemma_prefix_inner_unbroken(flags: Seq<bool>)
    ensures
        unbroken(prefix_inner(flags)),
    decreases flags.len(),
{
    if flags.len() > 0 {
        lemma_prefix_inner_unbroken(flags.drop_last());
        reveal_strlit("    ");
        reveal_strlit("│   ");
        let p = if flags.last() {
            "    "@
        } else {
            "│   "@
        };
        assert(unbroken(p));
        lemma_unbroken_add(prefix_inner(flags.drop_last()), p);
    }
}

proof fn lemma_prefix_unbroken(flags: Seq<bool>)
    ensures
        unbroken(prefix(flags)),
{
    if flags.len() > 0 {
        lemma_prefix_inner_unbroken(flags.drop_last());
        reveal_strlit("└── ");
        reveal_strlit("├── ");
        let p = if flags.last() {
            "└── "@
        } else {
            "├── "@
        };
        assert(unbroken(p));
        lemma_unbroken_add(prefix_inner(flags.drop_last()), p);
    }
}

/// Each entry's line after its drawing holds one line break, at its end.
proof fn lemma_entry_breaks(v: TaskView)
    ensures
        breaks(entry_text(v)) == 1,
        entry_text(v).last() == '\n',
{
    let t = v.task@;
    lemma_human_unbroken(t.status);
    lemma_human_unbroken(t.title);
    lemma_human_unbroken(t.id);
    lemma_human_unbroken(t.category);
    reveal_strlit("[");
    reveal_strlit("] ");
    reveal_strlit(" (");
    reveal_strlit(") category=");
    let a = "["@ + human(t.status);
    lemma_unbroken_add("["@, human(t.status));
    lemma_unbroken_add(a, "] "@);
    lemma_unbroken_add(a + "] "@, human(t.title));
    lemma_unbroken_add(a + "] "@ + human(t.title), " ("@);
    lemma_unbroken_add(a + "] "@ + human(t.title) + " ("@, human(t.id));
    lemma_unbroken_add(a + "] "@ + human(t.title) + " ("@ + human(t.id), ") category="@);
    lemma_unbroken_add(a + "] "@ + human(t.title) + " ("@ + human(t.id) + ") category="@, human(t.category));
    assert(unbroken(entry_main(v)));
    assert(unbroken(entry_project(v))) by {
        match t.project {
            Some(p) => {
                reveal_strlit(" project=");
                lemma_human_unbroken(p);
                lemma_unbroken_add(" project="@, human(p));
            },
            None => {},
        }
    }
    assert(unbroken(entry_context(v))) by {
        reveal_strlit(" [context only]");
    }
    assert(unbroken(entry_progress(v))) by {
        if v.progress.total > 0 {
            reveal_strlit(" [direct children: done=");
            reveal_strlit(", cancelled=");
            reveal_strlit(", total=");
            reveal_strlit("]");
            let p = v.progress;
            lemma_decimal_unbroken(p.done as nat);
            lemma_decimal_unbroken(p.cancelled as nat);
            lemma_decimal_unbroken(p.total as nat);
            let x1 = " [direct children: done="@ + decimal(p.done as nat);
            lemma_unbroken_add(" [direct children: done="@, decimal(p.done as nat));
            lemma_unbroken_add(x1, ", cancelled="@);
            lemma_unbroken_add(x1 + ", cancelled="@, decimal(p.cancelled as nat));
            lemma_unbroken_add(x1 + ", cancelled="@ + decimal(p.cancelled as nat), ", total="@);
            lemma_unbroken_add(x1 + ", cancelled="@ + decimal(p.cancelled as nat) + ", total="@, decimal(p.total as nat));
            lemma_unbroken_add(
                x1 + ", cancelled="@ + decimal(p.cancelled as nat) + ", total="@ + decimal(p.total as nat),
                "]"@,
            );
        }
    }
    lemma_unbroken_add(entry_project(v), entry_context(v));
    lemma_unbroken_add(entry_project(v) + entry_context(v), entry_progress(v));
    let head = entry_main(v) + entry_project(v) + entry_context(v) + entry_progress(v);
    lemma_unbroken_add(entry_main(v), entry_project(v) + entry_context(v) + entry_progress(v));
    assert(head =~= entry_main(v) + (entry_project(v) + entry_context(v) + entry_progress(v)));
    assert(entry_text(v) =~= head + nl());
    lemma_unbroken_breaks(head);
    lemma_breaks_add(head, nl());
    lemma_nl_breaks();
}

/// Drawn entries take one line each.
proof fn lemma_lines_breaks(vs: Seq<TaskView>, ds: Seq<(int, Seq<bool>)>)
    ensures
        breaks(lines(vs, ds)) == ds.len(),
        ds.len() > 0 ==> lines(vs, ds).last() == '\n',
    decreases ds.len(),
{
    if ds.len() > 0 {
        lemma_lines_breaks(vs, ds.drop_last());
        let p = prefix(ds.last().1);
        let e = entry_text(vs[ds.last().0]);
        lemma_prefix_unbroken(ds.last().1);
        lemma_unbroken_breaks(p);
        lemma_entry_breaks(vs[ds.last().0]);
        lemma_breaks_add(lines(vs, ds.drop_last()), p);
        lemma_breaks_add(lines(vs, ds.drop_last()) + p, e);
        assert((lines(vs, ds.drop_last()) + p + e).last() == e.last());
    }
}

proof fn lemma_summary_breaks(s: ListSummary)
    ensures
        breaks(summary_lines(s)) == 2,
{
    reveal_strlit("Matched: ");
    reveal_strlit(" (open: ");
    reveal_strlit(")");
    reveal_strlit("Open across database: top-level=");
    reveal_strlit(", total=");
    lemma_decimal_unbroken(s.matched as nat);
    lemma_decimal_unbroken(s.matched_open as nat);
    lemma_decimal_unbroken(s.top_level_open as nat);
    lemma_decimal_unbroken(s.total_open as nat);
    let a1 = "Matched: "@ + decimal(s.matched as nat);
    lemma_unbroken_add("Matched: "@, decimal(s.matched as nat));
    lemma_unbroken_add(a1, " (open: "@);
    lemma_unbroken_add(a1 + " (open: "@, decimal(s.matched_open as nat));
    let a = a1 + " (open: "@ + decimal(s.matched_open as nat) + ")"@;
    lemma_unbroken_add(a1 + " (open: "@ + decimal(s.matched_open as nat), ")"@);
    let b1 = "Open across database: top-level="@ + decimal(s.top_level_open as nat);
    lemma_unbroken_add("Open across database: top-level="@, decimal(s.top_level_open as nat));
    lemma_unbroken_add(b1, ", total="@);
    let b = b1 + ", total="@ + decimal(s.total_open as nat);
    lemma_unbroken_add(b1 + ", total="@, decimal(s.total_open as nat));
    assert(summary_lines(s) =~= a + nl() + b + nl());
    lemma_unbroken_breaks(a);
    lemma_unbroken_breaks(b);
    lemma_nl_breaks();
    lemma_breaks_add(a, nl());
    lemma_breaks_add(a + nl(), b);
    lemma_breaks_add(a + nl() + b, nl());
}

/// A listing whose listed parents form no cycle draws as a tree of exactly
/// one line per entry after the two lines of counts, each line ended by a
/// line break.
pub proof fn law_tree_has_a_line_per_entry(r: ListResult)
    requires
        r.tasks@.len() > 0,
        slots_acyclic(parent_slots(r.tasks@)),
    ensures
        breaks(tree_text(r)) == r.tasks@.len() + 2,
        tree_text(r).last() == '\n',
{
    let vs = r.tasks@;
    let pp = parent_slots(vs);
    let ds = drawn_roots(pp, roots(pp), roots(pp).len() as int, (vs.len() + 1) as nat);
    law_tree_draws_each_entry_once(r);
    lemma_lines_breaks(vs, ds);
    lemma_summary_breaks(r.summary);
    lemma_breaks_add(summary_lines(r.summary), lines(vs, ds));
}

/// A listing of tasks whose parents form no cycle, with at least one entry,
/// draws as a tree one line for each entry: every entry appears, and none
/// appears twice.
pub proof fn law_listing_draws_each_entry_once(s: StoreV, f: ListFilter, r: ListResult)
    requires
        s.wf(),
        acyclic(s.tasks),
        list_ok(s.tasks, f, r),
        r.tasks@.len() > 0,
    ensures
        draws_each_once(r),
        breaks(tree_text(r)) == r.tasks@.len() + 2,
{
    lemma_listed_slots_acyclic(s.tasks, f, r);
    law_tree_draws_each_entry_once(r);
    law_tree_has_a_line_per_entry(r);
}

} // verus!
