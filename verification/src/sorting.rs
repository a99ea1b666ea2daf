//! Ordering positions by a two-part text key, as `ORDER BY a, b` does.
use vstd::prelude::*;

use crate::text::{lemma_lex_asymmetric, lemma_lex_irreflexive, lemma_lex_total, lemma_lex_transitive, lex_less, lex_lt};

verus! {

/// `(a1, a2) < (b1, b2)` lexicographically.
pub open spec fn pair_lt(a1: Seq<char>, a2: Seq<char>, b1: Seq<char>, b2: Seq<char>) -> bool {
    lex_lt(a1, b1) || (a1 == b1 && lex_lt(a2, b2))
}

/// Position `i` comes before position `j` by the keys.
pub open spec fn key_lt(k1: Seq<Seq<char>>, k2: Seq<Seq<char>>, i: int, j: int) -> bool {
    pair_lt(k1[i], k2[i], k1[j], k2[j])
}

/// `s` lists positions in strictly increasing key order.
pub open spec fn sorted_by(k1: Seq<Seq<char>>, k2: Seq<Seq<char>>, s: Seq<int>) -> bool {
    forall|a: int, b: int| 0 <= a < b < s.len() ==> key_lt(k1, k2, #[trigger] s[a], #[trigger] s[b])
}

/// Distinct positions have distinct keys.
pub open spec fn keys_distinct(k1: Seq<Seq<char>>, k2: Seq<Seq<char>>) -> bool {
    forall|i: int, j: int|
        0 <= i < k1.len() && 0 <= j < k1.len() && i != j ==> !(#[trigger] k1[i] == #[trigger] k1[j]
            && k2[i] == k2[j])
}

pub proof fn lemma_pair_irreflexive(a1: Seq<char>, a2: Seq<char>)
    ensures
        !pair_lt(a1, a2, a1, a2),
{
    lemma_lex_irreflexive(a1);
    lemma_lex_irreflexive(a2);
}

pub proof fn lemma_pair_asymmetric(a1: Seq<char>, a2: Seq<char>, b1: Seq<char>, b2: Seq<char>)
    ensures
        !(pair_lt(a1, a2, b1, b2) && pair_lt(b1, b2, a1, a2)),
{
    lemma_lex_asymmetric(a1, b1);
    lemma_lex_asymmetric(a2, b2);
    lemma_lex_irreflexive(a1);
}

pub proof fn lemma_pair_total(a1: Seq<char>, a2: Seq<char>, b1: Seq<char>, b2: Seq<char>)
    ensures
        (a1 == b1 && a2 == b2) || pair_lt(a1, a2, b1, b2) || pair_lt(b1, b2, a1, a2),
{
    lemma_lex_total(a1, b1);
    lemma_lex_total(a2, b2);
}

pub proof fn lemma_pair_transitive(
    a1: Seq<char>,
    a2: Seq<char>,
    b1: Seq<char>,
    b2: Seq<char>,
    c1: Seq<char>,
    c2: Seq<char>,
)
    requires
        pair_lt(a1, a2, b1, b2),
        pair_lt(b1, b2, c1, c2),
    ensures
        pair_lt(a1, a2, c1, c2),
{
    if lex_lt(a1, b1) && lex_lt(b1, c1) {
        lemma_lex_transitive(a1, b1, c1);
    } else if lex_lt(a2, b2) && lex_lt(b2, c2) {
        lemma_lex_transitive(a2, b2, c2);
    }
}

/// Two strictly sorted lists of the same positions are the same list.
pub proof fn lemma_sorted_unique(k1: Seq<Seq<char>>, k2: Seq<Seq<char>>, s: Seq<int>, t: Seq<int>)
    requires
        sorted_by(k1, k2, s),
        sorted_by(k1, k2, t),
        forall|x: int| s.contains(x) <==> t.contains(x),
        forall|a: int| 0 <= a < s.len() ==> 0 <= #[trigger] s[a] < k1.len(),
        forall|a: int| 0 <= a < t.len() ==> 0 <= #[trigger] t[a] < k1.len(),
        k1.len() == k2.len(),
    ensures
        s == t,
    decreases s.len(),
{
    if s.len() == 0 {
        if t.len() > 0 {
            assert(t.contains(t[0]));
        }
        assert(s =~= t);
    } else {
        assert(s.contains(s[0]));
        let j = choose|j: int| 0 <= j < t.len() && t[j] == s[0];
        assert(t.contains(t[0]));
        let i = choose|i: int| 0 <= i < s.len() && s[i] == t[0];
        if j > 0 {
            assert(key_lt(k1, k2, t[0], t[j]));
            if i > 0 {
                assert(key_lt(k1, k2, s[0], s[i]));
                lemma_pair_asymmetric(k1[s[0]], k2[s[0]], k1[t[0]], k2[t[0]]);
            } else {
                lemma_pair_irreflexive(k1[s[0]], k2[s[0]]);
            }
        }
        assert(t[0] == s[0]);
        let s2 = s.drop_first();
        let t2 = t.drop_first();
        assert forall|x: int| s2.contains(x) <==> t2.contains(x) by {
            if s2.contains(x) {
                let a = choose|a: int| 0 <= a < s2.len() && s2[a] == x;
                assert(key_lt(k1, k2, s[0], s[a + 1]));
                assert(s.contains(x));
                let b = choose|b: int| 0 <= b < t.len() && t[b] == x;
                if b == 0 {
                    lemma_pair_irreflexive(k1[x], k2[x]);
                }
                assert(t2[b - 1] == x);
            }
            if t2.contains(x) {
                let a = choose|a: int| 0 <= a < t2.len() && t2[a] == x;
                assert(key_lt(k1, k2, t[0], t[a + 1]));
                assert(t.contains(x));
                let b = choose|b: int| 0 <= b < s.len() && s[b] == x;
                if b == 0 {
                    lemma_pair_irreflexive(k1[x], k2[x]);
                }
                assert(s2[b - 1] == x);
            }
        }
        lemma_sorted_unique(k1, k2, s2, t2);
        assert(s =~= seq![s[0]] + s2);
        assert(t =~= seq![t[0]] + t2);
    }
}

/// `s` lists, in key order and once each, the positions that satisfy `p`.
pub open spec fn lists_sorted(
    k1: Seq<Seq<char>>,
    k2: Seq<Seq<char>>,
    p: spec_fn(int) -> bool,
    s: Seq<int>,
) -> bool {
    &&& sorted_by(k1, k2, s)
    &&& forall|x: int| s.contains(x) <==> (0 <= x < k1.len() && p(x))
    &&& forall|k: int| 0 <= k < s.len() ==> 0 <= #[trigger] s[k] < k1.len()
}

/// The positions that satisfy `p`, in key order.
pub open spec fn sorted_list(k1: Seq<Seq<char>>, k2: Seq<Seq<char>>, p: spec_fn(int) -> bool) -> Seq<int> {
    choose|s: Seq<int>| lists_sorted(k1, k2, p, s)
}

pub proof fn lemma_sorted_list(k1: Seq<Seq<char>>, k2: Seq<Seq<char>>, p: spec_fn(int) -> bool, s: Seq<int>)
    requires
        k1.len() == k2.len(),
        lists_sorted(k1, k2, p, s),
    ensures
        sorted_list(k1, k2, p) == s,
{
    let t = sorted_list(k1, k2, p);
    assert(lists_sorted(k1, k2, p, t));
    lemma_sorted_unique(k1, k2, s, t);
}

/// Where `x` goes in the sorted list `t`.
proof fn lemma_insert_pos(k1: Seq<Seq<char>>, k2: Seq<Seq<char>>, t: Seq<int>, x: int) -> (q: int)
    requires
        k1.len() == k2.len(),
        keys_distinct(k1, k2),
        sorted_by(k1, k2, t),
        0 <= x < k1.len(),
        forall|k: int| 0 <= k < t.len() ==> 0 <= #[trigger] t[k] < k1.len() && t[k] != x,
    ensures
        0 <= q <= t.len(),
        forall|j: int| 0 <= j < q ==> key_lt(k1, k2, #[trigger] t[j], x),
        forall|j: int| q <= j < t.len() ==> key_lt(k1, k2, x, #[trigger] t[j]),
    decreases t.len(),
{
    if t.len() == 0 {
        0
    } else {
        let l = t.last();
        assert(t[t.len() - 1] == l);
        lemma_pair_total(k1[l], k2[l], k1[x], k2[x]);
        if key_lt(k1, k2, l, x) {
            assert forall|j: int| 0 <= j < t.len() implies key_lt(k1, k2, #[trigger] t[j], x) by {
                if j < t.len() - 1 {
                    lemma_pair_transitive(k1[t[j]], k2[t[j]], k1[l], k2[l], k1[x], k2[x]);
                }
            }
            t.len() as int
        } else {
            let d = t.drop_last();
            assert forall|a: int, b: int| 0 <= a < b < d.len() implies key_lt(k1, k2, #[trigger] d[a], #[trigger] d[b]) by {
                assert(d[a] == t[a] && d[b] == t[b]);
            }
            let q = lemma_insert_pos(k1, k2, d, x);
            assert forall|j: int| q <= j < t.len() implies key_lt(k1, k2, x, #[trigger] t[j]) by {
                if j < t.len() - 1 {
                    assert(d[j] == t[j]);
                }
            }
            assert forall|j: int| 0 <= j < q implies key_lt(k1, k2, #[trigger] t[j], x) by {
                assert(d[j] == t[j]);
            }
            q
        }
    }
}

proof fn lemma_sorted_prefix_exists(k1: Seq<Seq<char>>, k2: Seq<Seq<char>>, p: spec_fn(int) -> bool, m: int) -> (s: Seq<int>)
    requires
        k1.len() == k2.len(),
        keys_distinct(k1, k2),
        0 <= m <= k1.len(),
    ensures
        sorted_by(k1, k2, s),
        forall|x: int| s.contains(x) <==> (0 <= x < m && p(x)),
        forall|k: int| 0 <= k < s.len() ==> 0 <= #[trigger] s[k] < m,
    decreases m,
{
    if m == 0 {
        seq![]
    } else {
        let t = lemma_sorted_prefix_exists(k1, k2, p, m - 1);
        let x = m - 1;
        if !p(x) {
            assert forall|y: int| t.contains(y) <==> (0 <= y < m && p(y)) by {
                if t.contains(y) {
                    let w = choose|w: int| 0 <= w < t.len() && t[w] == y;
                    assert(t[w] < m - 1);
                }
            }
            t
        } else {
            assert forall|k: int| 0 <= k < t.len() implies 0 <= #[trigger] t[k] < k1.len() && t[k] != x by {}
            let q = lemma_insert_pos(k1, k2, t, x);
            let s = t.insert(q, x);
            assert forall|a: int, b: int| 0 <= a < b < s.len() implies key_lt(k1, k2, #[trigger] s[a], #[trigger] s[b]) by {
                if b < q {
                    assert(s[a] == t[a] && s[b] == t[b]);
                } else if a > q {
                    assert(s[a] == t[a - 1] && s[b] == t[b - 1]);
                } else if a == q {
                    assert(s[b] == t[b - 1]);
                } else if b == q {
                    assert(s[a] == t[a]);
                } else {
                    assert(s[a] == t[a] && s[b] == t[b - 1]);
                }
            }
            assert forall|y: int| s.contains(y) <==> (0 <= y < m && p(y)) by {
                if s.contains(y) {
                    let w = choose|w: int| 0 <= w < s.len() && s[w] == y;
                    if w < q {
                        assert(t[w] == y);
                        assert(t.contains(y));
                    } else if w > q {
                        assert(t[w - 1] == y);
                        assert(t.contains(y));
                    }
                }
                if 0 <= y < m && p(y) {
                    if y < m - 1 {
                        assert(t.contains(y));
                        let w = choose|w: int| 0 <= w < t.len() && t[w] == y;
                        if w < q {
                            assert(s[w] == y);
                        } else {
                            assert(s[w + 1] == y);
                        }
                    } else {
                        assert(s[q] == y);
                    }
                }
            }
            assert forall|k: int| 0 <= k < s.len() implies 0 <= #[trigger] s[k] < m by {
                if k < q {
                    assert(s[k] == t[k]);
                } else if k > q {
                    assert(s[k] == t[k - 1]);
                }
            }
            s
        }
    }
}

/// With distinct keys, an ordered list of the positions satisfying `p` exists.
pub proof fn lemma_sorted_list_exists(k1: Seq<Seq<char>>, k2: Seq<Seq<char>>, p: spec_fn(int) -> bool)
    requires
        k1.len() == k2.len(),
        keys_distinct(k1, k2),
    ensures
        lists_sorted(k1, k2, p, sorted_list(k1, k2, p)),
{
    let s = lemma_sorted_prefix_exists(k1, k2, p, k1.len() as int);
    assert(lists_sorted(k1, k2, p, s));
}

pub open spec fn usize_seq(v: Seq<usize>) -> Seq<int> {
    v.map_values(|x: usize| x as int)
}

pub open spec fn key_views(v: Seq<Vec<char>>) -> Seq<Seq<char>> {
    v.map_values(|x: Vec<char>| x@)
}

/// Orders the positions in `items` by the keys `(k1[i], k2[i])`.
pub fn sort_positions(items: &Vec<usize>, k1: &Vec<Vec<char>>, k2: &Vec<Vec<char>>) -> (r: Vec<usize>)
    requires
        k1@.len() == k2@.len(),
        keys_distinct(key_views(k1@), key_views(k2@)),
        forall|a: int| 0 <= a < items@.len() ==> #[trigger] items@[a] < k1@.len(),
        items@.no_duplicates(),
    ensures
        sorted_by(key_views(k1@), key_views(k2@), usize_seq(r@)),
        forall|x: int| usize_seq(r@).contains(x) <==> usize_seq(items@).contains(x),
        forall|a: int| 0 <= a < r@.len() ==> #[trigger] r@[a] < k1@.len(),
{
    let ghost kv1 = key_views(k1@);
    let ghost kv2 = key_views(k2@);
    let mut r: Vec<usize> = Vec::new();
    let mut i: usize = 0;
    while i < items.len()
        invariant
            i <= items@.len(),
            k1@.len() == k2@.len(),
            kv1 == key_views(k1@),
            kv2 == key_views(k2@),
            keys_distinct(kv1, kv2),
            forall|a: int| 0 <= a < items@.len() ==> #[trigger] items@[a] < k1@.len(),
            items@.no_duplicates(),
            forall|a: int| 0 <= a < r@.len() ==> #[trigger] r@[a] < k1@.len(),
            sorted_by(kv1, kv2, usize_seq(r@)),
            forall|x: int| usize_seq(r@).contains(x) <==> usize_seq(items@.take(i as int)).contains(x),
        decreases items.len() - i,
    {
        let x = items[i];
        let mut p: usize = 0;
        while p < r.len() && !(lex_less(&k1[x], &k1[r[p]]) || (crate::text::chars_eq(&k1[x], &k1[r[p]]) && lex_less(&k2[x], &k2[r[p]])))
            invariant
                p <= r@.len(),
                x < k1@.len(),
                k1@.len() == k2@.len(),
                kv1 == key_views(k1@),
                kv2 == key_views(k2@),
                forall|a: int| 0 <= a < r@.len() ==> #[trigger] r@[a] < k1@.len(),
                forall|q: int| 0 <= q < p ==> !key_lt(kv1, kv2, x as int, #[trigger] usize_seq(r@)[q]),
            decreases r.len() - p,
        {
            assert(kv1[x as int] == k1@[x as int]@);
            assert(kv1[r@[p as int] as int] == k1@[r@[p as int] as int]@);
            assert(kv2[x as int] == k2@[x as int]@);
            assert(kv2[r@[p as int] as int] == k2@[r@[p as int] as int]@);
            p = p + 1;
        }
        proof {
            if p < r@.len() {
                assert(kv1[x as int] == k1@[x as int]@);
                assert(kv1[r@[p as int] as int] == k1@[r@[p as int] as int]@);
                assert(kv2[x as int] == k2@[x as int]@);
                assert(kv2[r@[p as int] as int] == k2@[r@[p as int] as int]@);
                assert(key_lt(kv1, kv2, x as int, usize_seq(r@)[p as int]));
            }
        }
        let ghost old_r = usize_seq(r@);
        proof {
            // x is not yet in r
            assert(!old_r.contains(x as int)) by {
                if old_r.contains(x as int) {
                    let it = usize_seq(items@.take(i as int));
                    assert(it.contains(x as int));
                    let w = choose|w: int| 0 <= w < it.len() && it[w] == x as int;
                    assert(items@[w] == items@[i as int]);
                }
            };
        }
        r.insert(p, x);
        proof {
            let nr = usize_seq(r@);
            assert(nr =~= old_r.insert(p as int, x as int));
            assert forall|a: int, b: int| 0 <= a < b < nr.len() implies key_lt(kv1, kv2, #[trigger] nr[a], #[trigger] nr[b]) by {
                if b < p {
                    assert(nr[a] == old_r[a] && nr[b] == old_r[b]);
                } else if a > p {
                    assert(nr[a] == old_r[a - 1] && nr[b] == old_r[b - 1]);
                } else if a == p {
                    assert(nr[a] == x as int);
                    assert(nr[b] == old_r[b - 1]);
                    if b - 1 > p {
                        assert(key_lt(kv1, kv2, old_r[p as int], old_r[b - 1]));
                        lemma_pair_transitive(kv1[x as int], kv2[x as int], kv1[old_r[p as int]], kv2[old_r[p as int]], kv1[old_r[b - 1]], kv2[old_r[b - 1]]);
                    }
                } else if b == p {
                    assert(nr[b] == x as int);
                    assert(nr[a] == old_r[a]);
                    assert(!key_lt(kv1, kv2, x as int, old_r[a]));
                    lemma_pair_total(kv1[x as int], kv2[x as int], kv1[old_r[a]], kv2[old_r[a]]);
                    if old_r[a] != x as int {
                        assert(!(kv1[x as int] == kv1[old_r[a]] && kv2[x as int] == kv2[old_r[a]]));
                    } else {
                        assert(old_r.contains(x as int));
                    }
                } else {
                    assert(nr[a] == old_r[a]);
                    assert(nr[b] == old_r[b - 1]);
                    assert(key_lt(kv1, kv2, old_r[a], old_r[b - 1]));
                }
            }
            assert(items@.take(i + 1) =~= items@.take(i as int).push(x));
            assert forall|y: int| nr.contains(y) <==> usize_seq(items@.take(i + 1)).contains(y) by {
                let it = usize_seq(items@.take(i as int));
                let it2 = usize_seq(items@.take(i + 1));
                assert(it2 =~= it.push(x as int));
                if nr.contains(y) {
                    let q = choose|q: int| 0 <= q < nr.len() && nr[q] == y;
                    if q < p {
                        assert(old_r[q] == y);
                        assert(old_r.contains(y));
                        let w = choose|w: int| 0 <= w < it.len() && it[w] == y;
                        assert(it2[w] == y);
                    } else if q > p {
                        assert(old_r[q - 1] == y);
                        assert(old_r.contains(y));
                        let w = choose|w: int| 0 <= w < it.len() && it[w] == y;
                        assert(it2[w] == y);
                    } else {
                        assert(it2[it.len() as int] == y);
                    }
                }
                if it2.contains(y) {
                    let w = choose|w: int| 0 <= w < it2.len() && it2[w] == y;
                    if w < it.len() {
                        assert(it[w] == y);
                        assert(it.contains(y));
                        assert(old_r.contains(y));
                        let q = choose|q: int| 0 <= q < old_r.len() && old_r[q] == y;
                        if q < p {
                            assert(nr[q] == y);
                        } else {
                            assert(nr[q + 1] == y);
                        }
                    } else {
                        assert(nr[p as int] == y);
                    }
                }
            }
        }
        i = i + 1;
    }
    assert(items@.take(items.len() as int) =~= items@);
    r
}

} // verus!
