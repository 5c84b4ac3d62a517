use vstd::prelude::*;

use crate::error::{limit_error, SimError};
use rand::Rng;

verus! {

/// Number of `true` flags in a sequence of booleans.
pub open spec fn count_true(s: Seq<bool>) -> int
    decreases s.len(),
{
    if s.len() == 0 {
        0
    } else {
        count_true(s.drop_last()) + if s.last() {
            1int
        } else {
            0int
        }
    }
}

/// A sequence of all-false flags has no `true` entries.
pub proof fn lemma_count_true_none(s: Seq<bool>)
    requires
        forall|i: int| 0 <= i < s.len() ==> !s[i],
    ensures
        count_true(s) == 0,
    decreases s.len(),
{
    if s.len() > 0 {
        lemma_count_true_none(s.drop_last());
    }
}

/// Setting one flag to `true` raises the count by at most one.
pub proof fn lemma_count_true_update(s: Seq<bool>, j: int)
    requires
        0 <= j < s.len(),
    ensures
        count_true(s.update(j, true)) <= count_true(s) + 1,
    decreases s.len(),
{
    let t = s.update(j, true);
    if j == s.len() - 1 {
        assert(t.drop_last() =~= s.drop_last());
    } else {
        assert(t.drop_last() =~= s.drop_last().update(j, true));
        lemma_count_true_update(s.drop_last(), j);
    }
}

/// When every flag is `true`, the count equals the length.
pub proof fn lemma_count_true_full(s: Seq<bool>)
    requires
        forall|i: int| 0 <= i < s.len() ==> s[i],
    ensures
        count_true(s) == s.len(),
    decreases s.len(),
{
    if s.len() > 0 {
        lemma_count_true_full(s.drop_last());
    }
}

/// True exactly when every flag in the vector is set.
fn all_true(v: &Vec<bool>) -> (r: bool)
    ensures
        r == (forall|i: int| 0 <= i < v@.len() ==> v@[i]),
{
    let mut k: usize = 0;
    while k < v.len()
        invariant
            k <= v@.len(),
            forall|i: int| 0 <= i < k ==> v@[i],
        decreases v@.len() - k,
    {
        if !v[k] {
            return false;
        }
        k = k + 1;
    }
    true
}

/// Relies on rand: `Rng::gen_range(0..n)` on the thread-local generator
/// returns a value drawn uniformly from `[0, n)`; the range is non-empty
/// because `n >= 1`. Nothing beyond the bound is assumed of the draw.
#[verifier::external_body]
fn random_index(n: usize) -> (r: usize)
    requires
        n >= 1,
    ensures
        r < n,
{
    rand::thread_rng().gen_range(0..n)
}

/// One coupon-collector trial: starting from an empty collection of `n`
/// distinct toys, draw a toy uniformly at random, with replacement, until
/// every toy has been seen, and return the 1-based number of draws taken.
///
/// A successful outcome always lies in `[n, iterlimit]`; with a single toy
/// the trial is deterministic and returns exactly 1. If the collection is
/// still incomplete after `iterlimit` draws, the trial fails with the
/// configuration-fatal `IterationLimitExceeded`; a limit below `n` can
/// never suffice, so it fails deterministically.
pub fn buy_meals_until_all_toys(n: usize, iterlimit: usize) -> (r: Result<usize, SimError>)
    requires
        n >= 1,
        iterlimit >= 1,
    ensures
        r is Ok ==> n <= r->Ok_0 <= iterlimit,
        n == 1 ==> r == Ok::<usize, SimError>(1usize),
        r is Err ==> r->Err_0 == limit_error(n, iterlimit),
        iterlimit < n ==> r is Err,
{
    let mut owned_toys: Vec<bool> = Vec::new();
    let mut k: usize = 0;
    while k < n
        invariant
            k <= n,
            owned_toys@.len() == k,
            forall|t: int| 0 <= t < k ==> !owned_toys@[t],
        decreases n - k,
    {
        owned_toys.push(false);
        k = k + 1;
    }
    proof {
        lemma_count_true_none(owned_toys@);
    }
    let mut i: usize = 0;
    while i < iterlimit
        invariant
            n >= 1,
            iterlimit >= 1,
            i <= iterlimit,
            owned_toys@.len() == n,
            count_true(owned_toys@) <= i,
            n == 1 ==> i == 0,
        decreases iterlimit - i,
    {
        let j = random_index(n);
        let ghost before = owned_toys@;
        owned_toys.set(j, true);
        proof {
            lemma_count_true_update(before, j as int);
        }
        if all_true(&owned_toys) {
            proof {
                lemma_count_true_full(owned_toys@);
            }
            return Ok(i + 1);
        }
        proof {
            // With a single toy the draw just set the only flag, so the
            // completeness check above cannot have failed.
            assert(owned_toys@[j as int]);
            assert(n != 1);
        }
        i = i + 1;
    }
    Err(SimError::IterationLimitExceeded { nb_toys: n, iterlimit })
}

} // verus!
