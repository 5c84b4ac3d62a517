use vstd::prelude::*;

use vstd::arithmetic::div_mod::{
    lemma_div_multiples_vanish, lemma_div_pos_is_pos, lemma_multiply_divide_le,
    lemma_multiply_divide_lt,
};
use vstd::arithmetic::mul::{
    lemma_mul_inequality, lemma_mul_nonnegative, lemma_mul_strict_inequality,
    lemma_mul_upper_bound,
};

verus! {

/// Smallest element of a non-empty sequence.
pub open spec fn seq_min(s: Seq<usize>) -> usize
    recommends
        s.len() >= 1,
    decreases s.len(),
{
    if s.len() <= 1 {
        s[0]
    } else {
        let m = seq_min(s.drop_last());
        if s.last() < m {
            s.last()
        } else {
            m
        }
    }
}

/// Largest element of a non-empty sequence.
pub open spec fn seq_max(s: Seq<usize>) -> usize
    recommends
        s.len() >= 1,
    decreases s.len(),
{
    if s.len() <= 1 {
        s[0]
    } else {
        let m = seq_max(s.drop_last());
        if s.last() > m {
            s.last()
        } else {
            m
        }
    }
}

/// The bucket that `v` falls in when `[lo, hi]` is split into `k`
/// equal-width buckets: the floor of `(v - lo) / ((hi - lo) / k)`, written
/// in exact integer arithmetic as `(v - lo) * k / (hi - lo)`. A degenerate
/// range (`lo == hi`) has zero-width buckets; every value is assigned to
/// bucket 0 instead of dividing by zero.
pub open spec fn bucket_index(v: usize, lo: usize, hi: usize, k: u32) -> int {
    if lo == hi {
        0
    } else {
        ((v as int - lo as int) * (k as int)) / (hi as int - lo as int)
    }
}

/// How many elements of `s` fall in bucket `b`.
pub open spec fn count_in_bucket(s: Seq<usize>, lo: usize, hi: usize, k: u32, b: int) -> int
    decreases s.len(),
{
    if s.len() == 0 {
        0
    } else {
        count_in_bucket(s.drop_last(), lo, hi, k, b) + if bucket_index(s.last(), lo, hi, k) == b {
            1int
        } else {
            0int
        }
    }
}

/// How many elements of `s` equal `x`.
pub open spec fn count_eq(s: Seq<usize>, x: usize) -> int
    decreases s.len(),
{
    if s.len() == 0 {
        0
    } else {
        count_eq(s.drop_last(), x) + if s.last() == x {
            1int
        } else {
            0int
        }
    }
}

/// Sum of the first `j` bucket counts.
pub open spec fn sum_counts(s: Seq<usize>, lo: usize, hi: usize, k: u32, j: int) -> int
    decreases j,
{
    if j <= 0 {
        0
    } else {
        sum_counts(s, lo, hi, k, j - 1) + count_in_bucket(s, lo, hi, k, j - 1)
    }
}

proof fn lemma_count_in_bucket_bounds(s: Seq<usize>, lo: usize, hi: usize, k: u32, b: int)
    ensures
        0 <= count_in_bucket(s, lo, hi, k, b) <= s.len(),
    decreases s.len(),
{
    if s.len() > 0 {
        lemma_count_in_bucket_bounds(s.drop_last(), lo, hi, k, b);
    }
}

/// Every element lies between the sequence's minimum and maximum.
pub proof fn lemma_min_max_bounds(s: Seq<usize>)
    requires
        s.len() >= 1,
    ensures
        forall|i: int| 0 <= i < s.len() ==> seq_min(s) <= #[trigger] s[i] <= seq_max(s),
    decreases s.len(),
{
    if s.len() > 1 {
        lemma_min_max_bounds(s.drop_last());
        assert forall|i: int| 0 <= i < s.len() implies seq_min(s) <= #[trigger] s[i] <= seq_max(
            s,
        ) by {
            if i < s.len() - 1 {
                assert(s.drop_last()[i] == s[i]);
            }
        }
    }
}

/// The maximum is attained by some element.
pub proof fn lemma_max_attained(s: Seq<usize>)
    requires
        s.len() >= 1,
    ensures
        exists|i: int| 0 <= i < s.len() && s[i] == seq_max(s),
    decreases s.len(),
{
    if s.len() == 1 {
        assert(s[0] == seq_max(s));
    } else {
        lemma_max_attained(s.drop_last());
        if s.last() > seq_max(s.drop_last()) {
            assert(s[s.len() - 1] == seq_max(s));
        } else {
            let i = choose|i: int|
                0 <= i < s.drop_last().len() && s.drop_last()[i] == seq_max(s.drop_last());
            assert(s[i] == seq_max(s));
        }
    }
}

/// An element that occurs in `s` is counted at least once.
proof fn lemma_count_eq_attained(s: Seq<usize>, x: usize)
    requires
        exists|i: int| 0 <= i < s.len() && s[i] == x,
    ensures
        count_eq(s, x) >= 1,
    decreases s.len(),
{
    let i = choose|i: int| 0 <= i < s.len() && s[i] == x;
    if i < s.len() - 1 {
        assert(s.drop_last()[i] == x);
        lemma_count_eq_attained(s.drop_last(), x);
        lemma_count_eq_nonneg(s, x);
    } else {
        lemma_count_eq_nonneg(s.drop_last(), x);
    }
}

proof fn lemma_count_eq_nonneg(s: Seq<usize>, x: usize)
    ensures
        count_eq(s, x) >= 0,
    decreases s.len(),
{
    if s.len() > 0 {
        lemma_count_eq_nonneg(s.drop_last(), x);
    }
}

/// Where a value within `[lo, hi]` can land: strictly inside the range it
/// gets one of the `k` buckets; on the top edge the floor computation
/// yields exactly `k`, one past the last bucket.
proof fn lemma_bucket_range(v: usize, lo: usize, hi: usize, k: u32)
    requires
        lo <= v <= hi,
        k >= 1,
    ensures
        lo < hi && v < hi ==> 0 <= bucket_index(v, lo, hi, k) < k,
        lo < hi && v == hi ==> bucket_index(v, lo, hi, k) == k,
        lo == hi ==> bucket_index(v, lo, hi, k) == 0,
{
    if lo < hi {
        let a = v as int - lo as int;
        let d = hi as int - lo as int;
        let kk = k as int;
        lemma_mul_nonnegative(a, kk);
        lemma_div_pos_is_pos(a * kk, d);
        if v < hi {
            lemma_mul_strict_inequality(a, d, kk);
            lemma_multiply_divide_lt(a * kk, d, kk);
        } else {
            lemma_div_multiples_vanish(kk, d);
            assert(a * kk == d * kk);
        }
    }
}

proof fn lemma_count_in_bucket_push(s: Seq<usize>, x: usize, lo: usize, hi: usize, k: u32, b: int)
    ensures
        count_in_bucket(s.push(x), lo, hi, k, b) == count_in_bucket(s, lo, hi, k, b) + if bucket_index(x, lo, hi, k) == b {
            1int
        } else {
            0int
        },
{
    assert(s.push(x).drop_last() =~= s);
}

proof fn lemma_sum_counts_push(s: Seq<usize>, x: usize, lo: usize, hi: usize, k: u32, j: int)
    ensures
        sum_counts(s.push(x), lo, hi, k, j) == sum_counts(s, lo, hi, k, j) + if 0 <= bucket_index(
            x,
            lo,
            hi,
            k,
        ) < j {
            1int
        } else {
            0int
        },
    decreases j,
{
    if j > 0 {
        lemma_sum_counts_push(s, x, lo, hi, k, j - 1);
        lemma_count_in_bucket_push(s, x, lo, hi, k, j - 1);
    }
}

/// Accounts for every element of `s`: each one lands in a bucket below `k`
/// except those equal to the top edge `hi`, which land at `k` and are
/// counted by no bucket.
proof fn lemma_sum_counts_all(s: Seq<usize>, lo: usize, hi: usize, k: u32)
    requires
        k >= 1,
        lo <= hi,
        forall|i: int| 0 <= i < s.len() ==> lo <= #[trigger] s[i] <= hi,
    ensures
        lo < hi ==> sum_counts(s, lo, hi, k, k as int) == s.len() - count_eq(s, hi),
        lo == hi ==> sum_counts(s, lo, hi, k, k as int) == s.len(),
    decreases s.len(),
{
    if s.len() == 0 {
        lemma_sum_counts_empty(s, lo, hi, k, k as int);
    } else {
        let t = s.drop_last();
        let x = s.last();
        assert(forall|i: int| 0 <= i < t.len() ==> lo <= #[trigger] t[i] <= hi) by {
            assert(forall|i: int| 0 <= i < t.len() ==> t[i] == s[i]);
        }
        lemma_sum_counts_all(t, lo, hi, k);
        assert(s =~= t.push(x));
        lemma_sum_counts_push(t, x, lo, hi, k, k as int);
        lemma_bucket_range(x, lo, hi, k);
    }
}

proof fn lemma_sum_counts_empty(s: Seq<usize>, lo: usize, hi: usize, k: u32, j: int)
    requires
        s.len() == 0,
    ensures
        sum_counts(s, lo, hi, k, j) == 0,
    decreases j,
{
    if j > 0 {
        lemma_sum_counts_empty(s, lo, hi, k, j - 1);
    }
}

/// Law: under right-open equal-width binning of a non-empty sequence into
/// `k >= 1` buckets, every value below the maximum lands in exactly one
/// bucket, while the maximum itself — always attained — computes to bucket
/// `k` and is dropped. Hence the counts sum to the length minus the number
/// of occurrences of the maximum, which is strictly below the length,
/// whenever `min < max`; in the degenerate all-equal case every value goes
/// to bucket 0 and the counts sum to the full length.
pub proof fn lemma_histogram_sum(s: Seq<usize>, k: u32)
    requires
        s.len() >= 1,
        k >= 1,
    ensures
        seq_min(s) < seq_max(s) ==> sum_counts(s, seq_min(s), seq_max(s), k, k as int) == s.len()
            - count_eq(s, seq_max(s)),
        seq_min(s) < seq_max(s) ==> count_eq(s, seq_max(s)) >= 1,
        seq_min(s) < seq_max(s) ==> sum_counts(s, seq_min(s), seq_max(s), k, k as int) < s.len(),
        seq_min(s) == seq_max(s) ==> sum_counts(s, seq_min(s), seq_max(s), k, k as int) == s.len(),
{
    lemma_min_max_bounds(s);
    assert(seq_min(s) <= s[0] <= seq_max(s));
    lemma_sum_counts_all(s, seq_min(s), seq_max(s), k);
    if seq_min(s) < seq_max(s) {
        lemma_max_attained(s);
        lemma_count_eq_attained(s, seq_max(s));
    }
}

/// Computes the value range of `values` and tallies how many values fall
/// in each of `num_bins` equal-width buckets across that range. A value's
/// bucket is `floor((value - min) * num_bins / (max - min))`; a value equal
/// to `max` computes to bucket `num_bins` and is dropped from the tally
/// (right-open binning). When all values are equal the range is degenerate
/// and every value is tallied in bucket 0.
pub fn create_histogram(values: &Vec<usize>, num_bins: u32) -> (r: (usize, usize, Vec<u32>))
    requires
        values@.len() >= 1,
        values@.len() <= u32::MAX,
        num_bins >= 1,
    ensures
        r.0 == seq_min(values@),
        r.1 == seq_max(values@),
        r.2@.len() == num_bins,
        forall|b: int|
            0 <= b < num_bins ==> #[trigger] r.2@[b] as int == count_in_bucket(
                values@,
                seq_min(values@),
                seq_max(values@),
                num_bins,
                b,
            ),
{
    let mut mn = values[0];
    let mut mx = values[0];
    let mut i: usize = 1;
    while i < values.len()
        invariant
            1 <= i <= values@.len(),
            mn == seq_min(values@.take(i as int)),
            mx == seq_max(values@.take(i as int)),
        decreases values@.len() - i,
    {
        proof {
            assert(values@.take(i as int + 1).drop_last() =~= values@.take(i as int));
        }
        if values[i] < mn {
            mn = values[i];
        }
        if values[i] > mx {
            mx = values[i];
        }
        i = i + 1;
    }
    proof {
        assert(values@.take(values@.len() as int) =~= values@);
    }
    let mut counts: Vec<u32> = Vec::new();
    let mut z: usize = 0;
    while z < num_bins as usize
        invariant
            z <= num_bins as usize,
            counts@.len() == z,
            forall|b: int| 0 <= b < z ==> counts@[b] == 0u32,
        decreases num_bins as usize - z,
    {
        counts.push(0);
        z = z + 1;
    }
    let mut j: usize = 0;
    while j < values.len()
        invariant
            j <= values@.len(),
            values@.len() <= u32::MAX,
            num_bins >= 1,
            counts@.len() == num_bins,
            mn == seq_min(values@),
            mx == seq_max(values@),
            forall|b: int|
                0 <= b < num_bins ==> #[trigger] counts@[b] as int == count_in_bucket(
                    values@.take(j as int),
                    mn,
                    mx,
                    num_bins,
                    b,
                ),
        decreases values@.len() - j,
    {
        let v = values[j];
        proof {
            lemma_min_max_bounds(values@);
            assert(mn <= values@[j as int] <= mx);
            assert(values@.take(j as int + 1) =~= values@.take(j as int).push(values@[j as int]));
            lemma_bucket_range(v, mn, mx, num_bins);
        }
        if mx > mn {
            proof {
                lemma_mul_nonnegative(v as int - mn as int, num_bins as int);
                assert((v as int - mn as int) * (num_bins as int) <= (mx as int - mn as int) * (
                num_bins as int)) by {
                    lemma_mul_inequality(v as int - mn as int, mx as int - mn as int, num_bins as int);
                }
                assert((mx as int - mn as int) * (num_bins as int) <= 0xFFFF_FFFF_FFFF_FFFF
                    * 0xFFFF_FFFF) by {
                    lemma_mul_upper_bound(
                        mx as int - mn as int,
                        0xFFFF_FFFF_FFFF_FFFF,
                        num_bins as int,
                        0xFFFF_FFFF,
                    );
                }
            }
            let num: u128 = ((v - mn) as u128) * (num_bins as u128);
            let den: u128 = (mx - mn) as u128;
            let bidx: u128 = num / den;
            proof {
                assert(bidx == bucket_index(v, mn, mx, num_bins));
                lemma_multiply_divide_le(
                    (v as int - mn as int) * (num_bins as int),
                    mx as int - mn as int,
                    num_bins as int,
                );
            }
            if bidx < num_bins as u128 {
                let b = bidx as usize;
                let c = counts[b];
                proof {
                    lemma_count_in_bucket_bounds(values@.take(j as int), mn, mx, num_bins, b as int);
                    lemma_count_in_bucket_push(
                        values@.take(j as int),
                        v,
                        mn,
                        mx,
                        num_bins,
                        b as int,
                    );
                }
                counts.set(b, c + 1);
                proof {
                    assert(forall|bb: int|
                        0 <= bb < num_bins && bb != b ==> #[trigger] counts@[bb] as int
                            == count_in_bucket(values@.take(j as int), mn, mx, num_bins, bb));
                    assert(forall|bb: int|
                        0 <= bb < num_bins && bb != b ==> count_in_bucket(
                            values@.take(j as int + 1),
                            mn,
                            mx,
                            num_bins,
                            bb,
                        ) == count_in_bucket(values@.take(j as int), mn, mx, num_bins, bb)) by {
                        assert forall|bb: int| 0 <= bb < num_bins && bb != b implies count_in_bucket(
                            values@.take(j as int + 1),
                            mn,
                            mx,
                            num_bins,
                            bb,
                        ) == count_in_bucket(values@.take(j as int), mn, mx, num_bins, bb) by {
                            lemma_count_in_bucket_push(
                                values@.take(j as int),
                                v,
                                mn,
                                mx,
                                num_bins,
                                bb,
                            );
                        }
                    }
                }
            } else {
                proof {
                    assert forall|bb: int| 0 <= bb < num_bins implies count_in_bucket(
                        values@.take(j as int + 1),
                        mn,
                        mx,
                        num_bins,
                        bb,
                    ) == count_in_bucket(values@.take(j as int), mn, mx, num_bins, bb) by {
                        lemma_count_in_bucket_push(values@.take(j as int), v, mn, mx, num_bins, bb);
                    }
                }
            }
        } else {
            let c = counts[0];
            proof {
                lemma_count_in_bucket_bounds(values@.take(j as int), mn, mx, num_bins, 0);
            }
            counts.set(0, c + 1);
            proof {
                assert forall|bb: int| 0 <= bb < num_bins implies count_in_bucket(
                    values@.take(j as int + 1),
                    mn,
                    mx,
                    num_bins,
                    bb,
                ) == count_in_bucket(values@.take(j as int), mn, mx, num_bins, bb) + (if bb == 0 {
                    1int
                } else {
                    0int
                }) by {
                    lemma_count_in_bucket_push(values@.take(j as int), v, mn, mx, num_bins, bb);
                }
            }
        }
        j = j + 1;
    }
    proof {
        assert(values@.take(values@.len() as int) =~= values@);
    }
    (mn, mx, counts)
}

} // verus!
