use vstd::prelude::*;

use vstd::arithmetic::div_mod::{lemma_div_is_ordered, lemma_div_multiples_vanish_fancy};
use vstd::arithmetic::mul::lemma_mul_inequality;
use vstd::relations::total_ordering;
use vstd::seq_lib::lemma_sorted_unique;

use crate::driver::sum_outcomes;

verus! {

/// The observations in ascending order.
pub open spec fn sorted_version(s: Seq<usize>) -> Seq<usize> {
    s.sort_by(|a: usize, b: usize| a <= b)
}

/// 0-based index into the sorted observations of the quantile at cut point
/// `(j + 1) / 10`, under the nearest-rank rule: the quantile at cut point
/// `p` over `len` observations is the `ceil(p * len)`-th smallest, so the
/// rank is `ceil((j + 1) * len / 10) - 1`.
pub open spec fn decile_rank(len: int, j: int) -> int {
    ((j + 1) * len + 9) / 10 - 1
}

/// The decile at cut point `(j + 1) / 10` of the observations.
pub open spec fn decile_value(s: Seq<usize>, j: int) -> usize {
    sorted_version(s)[decile_rank(s.len() as int, j)]
}

/// Summary of an observation set: the exact sum and count — whose quotient
/// is the arithmetic mean — and the ten decile values.
pub struct Summary {
    pub sum: u128,
    pub count: usize,
    pub deciles: Vec<usize>,
}

/// Law: every decile rank is a valid index into the sorted observations,
/// and the rank of the last decile (cut point 1.0) is the top index, so
/// that decile is the maximum.
pub proof fn lemma_decile_rank_bounds(len: int, j: int)
    requires
        len >= 1,
        0 <= j <= 9,
    ensures
        0 <= decile_rank(len, j) < len,
        j == 9 ==> decile_rank(len, j) == len - 1,
{
    let q = ((j + 1) * len + 9) / 10;
    assert(len <= (j + 1) * len) by {
        lemma_mul_inequality(1, j + 1, len);
    }
    assert(q >= 1) by {
        lemma_div_is_ordered(10, (j + 1) * len + 9, 10);
    }
    assert((j + 1) * len <= 10 * len) by {
        lemma_mul_inequality(j + 1, 10, len);
    }
    assert((10 * len + 9) / 10 == len) by {
        lemma_div_multiples_vanish_fancy(len, 9, 10);
    }
    assert(q <= len) by {
        lemma_div_is_ordered((j + 1) * len + 9, 10 * len + 9, 10);
    }
}

/// Law: the decile at cut point 1.0 is the maximum observation.
pub proof fn lemma_last_decile_is_max(s: Seq<usize>)
    requires
        s.len() >= 1,
    ensures
        decile_value(s, 9) == crate::histogram::seq_max(s),
{
    broadcast use vstd::seq_lib::group_to_multiset_ensures;

    let leq = |a: usize, b: usize| a <= b;
    assert(total_ordering(leq));
    s.lemma_sort_by_ensures(leq);
    let t = sorted_version(s);
    assert(t.to_multiset() == s.to_multiset());
    assert(t.len() == t.to_multiset().len());
    assert(s.len() == s.to_multiset().len());
    lemma_decile_rank_bounds(s.len() as int, 9);
    let m = crate::histogram::seq_max(s);
    crate::histogram::lemma_max_attained(s);
    let i = choose|i: int| 0 <= i < s.len() && s[i] == m;
    assert(s.contains(m));
    assert(s.to_multiset().count(m) > 0);
    assert(t.contains(m));
    let k = choose|k: int| 0 <= k < t.len() && t[k] == m;
    assert(t[t.len() - 1] >= m) by {
        if k < t.len() - 1 {
            assert(leq(t[k], t[t.len() - 1]));
        }
    }
    crate::histogram::lemma_min_max_bounds(s);
    assert(t[t.len() - 1] <= m) by {
        assert(t.contains(t[t.len() - 1]));
        assert(s.to_multiset().count(t[t.len() - 1]) > 0);
        assert(s.contains(t[t.len() - 1]));
        let w = choose|w: int| 0 <= w < s.len() && s[w] == t[t.len() - 1];
        assert(s[w] <= m);
    }
}

/// Swapping two positions of a sequence keeps its multiset of elements.
proof fn lemma_swap_preserves_multiset(s: Seq<usize>, a: int, b: int)
    requires
        0 <= a < s.len(),
        0 <= b < s.len(),
        a != b,
    ensures
        s.update(a, s[b]).update(b, s[a]).to_multiset() == s.to_multiset(),
{
    broadcast use vstd::seq_lib::to_multiset_update;
    broadcast use vstd::seq_lib::group_to_multiset_ensures;
    broadcast use vstd::multiset::group_multiset_axioms;

    let s1 = s.update(a, s[b]);
    let s2 = s1.update(b, s[a]);
    assert(s1[b] == s[b]);
    assert(s.to_multiset().contains(s[a]));
    assert(s2.to_multiset() =~= s.to_multiset());
}

/// Sorts a copy of the observations into ascending order, by insertion
/// sort, and returns it.
fn sort_vec(v: &Vec<usize>) -> (r: Vec<usize>)
    ensures
        r@ == sorted_version(v@),
        r@.len() == v@.len(),
{
    let mut r: Vec<usize> = Vec::new();
    let mut c: usize = 0;
    while c < v.len()
        invariant
            c <= v@.len(),
            r@ =~= v@.take(c as int),
        decreases v@.len() - c,
    {
        let x = v[c];
        r.push(x);
        proof {
            assert(v@.take(c as int + 1) =~= v@.take(c as int).push(v@[c as int]));
        }
        c = c + 1;
    }
    proof {
        assert(v@.take(v@.len() as int) =~= v@);
    }
    let ghost orig = v@;
    let mut idx: usize = 1;
    while idx < r.len()
        invariant
            idx >= 1,
            idx <= r@.len() || r@.len() <= 1,
            r@.len() == orig.len(),
            r@.to_multiset() == orig.to_multiset(),
            forall|a: int, b: int| 0 <= a < b < idx && b < r@.len() ==> r@[a] <= r@[b],
        decreases r@.len() - idx,
    {
        let mut j: usize = idx;
        while j > 0 && r[j - 1] > r[j]
            invariant
                j <= idx < r@.len(),
                r@.len() == orig.len(),
                r@.to_multiset() == orig.to_multiset(),
                forall|a: int, b: int|
                    0 <= a < b <= idx && a != j && b != j ==> r@[a] <= r@[b],
                forall|b: int| j < b <= idx ==> r@[j as int] <= #[trigger] r@[b],
            decreases j,
        {
            let xa = r[j - 1];
            let xb = r[j];
            let ghost before = r@;
            r.set(j - 1, xb);
            r.set(j, xa);
            proof {
                lemma_swap_preserves_multiset(before, j as int - 1, j as int);
                assert(r@ =~= before.update(j as int - 1, before[j as int]).update(
                    j as int,
                    before[j as int - 1],
                ));
            }
            j = j - 1;
        }
        proof {
            assert forall|a: int, b: int| 0 <= a < b <= idx implies r@[a] <= r@[b] by {
                if b == j {
                    assert(r@[j as int - 1] <= r@[j as int]);
                    if a < j - 1 {
                        assert(r@[a] <= r@[j as int - 1]);
                    }
                }
            }
        }
        idx = idx + 1;
    }
    proof {
        let leq = |a: usize, b: usize| a <= b;
        assert(total_ordering(leq));
        orig.lemma_sort_by_ensures(leq);
        assert(vstd::relations::sorted_by(r@, leq));
        lemma_sorted_unique(r@, orig.sort_by(leq), leq);
        assert(r@ =~= sorted_version(orig));
    }
    r
}

/// Summarizes a non-empty observation set: the exact sum of the values (the
/// mean is `sum / count` in exact arithmetic) and the ten deciles at cut
/// points 0.1 through 1.0, by the nearest-rank rule documented at
/// `decile_rank`; the last decile is the maximum observation.
pub fn summarize(observations: &Vec<usize>) -> (r: Summary)
    requires
        observations@.len() >= 1,
    ensures
        r.count == observations@.len(),
        r.sum as int == sum_outcomes(observations@),
        r.deciles@.len() == 10,
        forall|j: int| 0 <= j < 10 ==> #[trigger] r.deciles@[j] == decile_value(observations@, j),
{
    let mut acc: u128 = 0;
    let mut i: usize = 0;
    while i < observations.len()
        invariant
            i <= observations@.len(),
            acc as int == sum_outcomes(observations@.take(i as int)),
            acc as int <= (i as int) * 0xFFFF_FFFF_FFFF_FFFF,
        decreases observations@.len() - i,
    {
        let v = observations[i];
        proof {
            assert(observations@.take(i as int + 1).drop_last() =~= observations@.take(i as int));
            assert((i as int + 1) * 0xFFFF_FFFF_FFFF_FFFF <= 0xFFFF_FFFF_FFFF_FFFF
                * 0xFFFF_FFFF_FFFF_FFFF) by {
                lemma_mul_inequality(i as int + 1, 0xFFFF_FFFF_FFFF_FFFF, 0xFFFF_FFFF_FFFF_FFFF);
            }
        }
        acc = acc + (v as u128);
        i = i + 1;
    }
    proof {
        assert(observations@.take(observations@.len() as int) =~= observations@);
    }
    let sorted = sort_vec(observations);
    let len = observations.len();
    let mut deciles: Vec<usize> = Vec::new();
    let mut j: usize = 0;
    while j < 10
        invariant
            j <= 10,
            deciles@.len() == j,
            sorted@ == sorted_version(observations@),
            sorted@.len() == observations@.len(),
            len == observations@.len(),
            len >= 1,
            forall|t: int| 0 <= t < j ==> #[trigger] deciles@[t] == decile_value(observations@, t),
        decreases 10 - j,
    {
        proof {
            lemma_decile_rank_bounds(len as int, j as int);
            assert((j as int + 1) * (len as int) <= 10 * (len as int)) by {
                lemma_mul_inequality(j as int + 1, 10, len as int);
            }
        }
        let num: u128 = ((j as u128) + 1) * (len as u128) + 9;
        let rank: u128 = num / 10 - 1;
        proof {
            assert(rank as int == decile_rank(len as int, j as int));
        }
        let d = sorted[rank as usize];
        deciles.push(d);
        j = j + 1;
    }
    Summary { sum: acc, count: len, deciles }
}

} // verus!
