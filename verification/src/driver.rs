use vstd::prelude::*;

use crate::error::{limit_error, SimError};
use crate::sampler::buy_meals_until_all_toys;
use rayon::iter::{IntoParallelIterator, ParallelIterator};

verus! {

/// Sum of a sequence of trial outcomes.
pub open spec fn sum_outcomes(s: Seq<usize>) -> int
    decreases s.len(),
{
    if s.len() == 0 {
        0
    } else {
        sum_outcomes(s.drop_last()) + s.last()
    }
}

proof fn lemma_sum_all_ones(s: Seq<usize>)
    requires
        forall|i: int| 0 <= i < s.len() ==> s[i] == 1usize,
    ensures
        sum_outcomes(s) == s.len(),
    decreases s.len(),
{
    if s.len() > 0 {
        lemma_sum_all_ones(s.drop_last());
    }
}

/// Law: with the deterministic single-toy trial, the aggregate sum of the
/// outcomes depends only on the trial count, so any two runs of the same
/// count — whatever execution mode produced them — agree on it.
pub proof fn lemma_deterministic_modes_agree(r1: Seq<usize>, r2: Seq<usize>, trial_count: int)
    requires
        r1.len() == trial_count,
        r2.len() == trial_count,
        forall|i: int| 0 <= i < r1.len() ==> r1[i] == 1usize,
        forall|i: int| 0 <= i < r2.len() ==> r2[i] == 1usize,
    ensures
        sum_outcomes(r1) == sum_outcomes(r2),
        sum_outcomes(r1) == trial_count,
{
    lemma_sum_all_ones(r1);
    lemma_sum_all_ones(r2);
}

/// Relies on rayon: `(0..nb_iterations).into_par_iter()` is an indexed
/// parallel iterator of length `nb_iterations`; `map` applies the closure
/// once per index and `collect` into a `Vec` keeps one result per index in
/// index order. The closure only calls `buy_meals_until_all_toys`, so every
/// element satisfies that function's verified postconditions, which is all
/// the clauses below restate. Each rayon worker draws from its own
/// thread-local generator, so concurrent trials stay independent.
#[verifier::external_body]
fn run_trials_parallel(nb_iterations: usize, nb_toys: usize, iterlimit: usize) -> (r: Vec<Result<usize, SimError>>)
    requires
        nb_toys >= 1,
        iterlimit >= 1,
    ensures
        r@.len() == nb_iterations,
        forall|i: int| 0 <= i < r@.len() ==> (#[trigger] r@[i]) is Ok ==> nb_toys <= r@[i]->Ok_0 <= iterlimit,
        forall|i: int| 0 <= i < r@.len() ==> (#[trigger] r@[i]) is Err ==> r@[i]->Err_0 == limit_error(nb_toys, iterlimit),
        forall|i: int| 0 <= i < r@.len() && iterlimit < nb_toys ==> (#[trigger] r@[i]) is Err,
        forall|i: int| 0 <= i < r@.len() && nb_toys == 1 ==> (#[trigger] r@[i]) is Ok && r@[i]->Ok_0 == 1usize,
{
    (0..nb_iterations).into_par_iter().map(|_| buy_meals_until_all_toys(nb_toys, iterlimit)).collect()
}

/// Runs `nb_iterations` independent coupon-collector trials of `nb_toys`
/// toys in parallel across the available workers and returns every trial's
/// draw count; order carries no meaning since the outcomes are exchangeable.
///
/// Inputs below 1 are rejected up front; the first trial failure aborts the
/// whole run with its configuration-fatal error, and no partial result is
/// returned.
pub fn mt_simulate_no_progressbar(nb_iterations: usize, nb_toys: usize, iterlimit: usize) -> (r:
    Result<Vec<usize>, SimError>)
    ensures
        r == Err::<Vec<usize>, SimError>(SimError::InvalidInput) <==> (nb_iterations < 1 || nb_toys
            < 1 || iterlimit < 1),
        r is Ok ==> r->Ok_0@.len() == nb_iterations,
        r is Ok ==> forall|i: int|
            0 <= i < nb_iterations ==> nb_toys <= #[trigger] r->Ok_0@[i] <= iterlimit,
        nb_iterations >= 1 && nb_toys == 1 && iterlimit >= 1 ==> r is Ok && forall|i: int|
            0 <= i < nb_iterations ==> #[trigger] r->Ok_0@[i] == 1usize,
        nb_iterations >= 1 && nb_toys >= 1 && iterlimit >= 1 && iterlimit < nb_toys ==> r
            == Err::<Vec<usize>, SimError>(limit_error(nb_toys, iterlimit)),
        r is Err ==> r->Err_0 == SimError::InvalidInput || r->Err_0 == limit_error(
            nb_toys,
            iterlimit,
        ),
{
    if nb_iterations < 1 || nb_toys < 1 || iterlimit < 1 {
        return Err(SimError::InvalidInput);
    }
    let results = run_trials_parallel(nb_iterations, nb_toys, iterlimit);
    proof {
        if iterlimit < nb_toys {
            // The first trial already failed, so the batch cannot be all-Ok.
            assert(results@[0] is Err);
        }
    }
    collect_outcomes(&results, nb_toys, iterlimit)
}

/// Runs the trials one after another on the calling thread: the
/// no-parallelism execution mode, with the same contract as the parallel
/// driver and a distribution-equivalent result.
pub fn simulate_sequential(nb_iterations: usize, nb_toys: usize, iterlimit: usize) -> (r: Result<
    Vec<usize>,
    SimError,
>)
    ensures
        r == Err::<Vec<usize>, SimError>(SimError::InvalidInput) <==> (nb_iterations < 1 || nb_toys
            < 1 || iterlimit < 1),
        r is Ok ==> r->Ok_0@.len() == nb_iterations,
        r is Ok ==> forall|i: int|
            0 <= i < nb_iterations ==> nb_toys <= #[trigger] r->Ok_0@[i] <= iterlimit,
        nb_iterations >= 1 && nb_toys == 1 && iterlimit >= 1 ==> r is Ok && forall|i: int|
            0 <= i < nb_iterations ==> #[trigger] r->Ok_0@[i] == 1usize,
        nb_iterations >= 1 && nb_toys >= 1 && iterlimit >= 1 && iterlimit < nb_toys ==> r
            == Err::<Vec<usize>, SimError>(limit_error(nb_toys, iterlimit)),
        r is Err ==> r->Err_0 == SimError::InvalidInput || r->Err_0 == limit_error(
            nb_toys,
            iterlimit,
        ),
{
    if nb_iterations < 1 || nb_toys < 1 || iterlimit < 1 {
        return Err(SimError::InvalidInput);
    }
    let mut out: Vec<usize> = Vec::new();
    let mut i: usize = 0;
    while i < nb_iterations
        invariant
            nb_toys >= 1,
            iterlimit >= 1,
            i <= nb_iterations,
            out@.len() == i,
            forall|t: int| 0 <= t < i ==> nb_toys <= #[trigger] out@[t] <= iterlimit,
            nb_toys == 1 ==> forall|t: int| 0 <= t < i ==> #[trigger] out@[t] == 1usize,
            i >= 1 ==> nb_toys <= iterlimit,
        decreases nb_iterations - i,
    {
        match buy_meals_until_all_toys(nb_toys, iterlimit) {
            Ok(v) => out.push(v),
            Err(e) => {
                return Err(e);
            },
        }
        i = i + 1;
    }
    Ok(out)
}

/// Splits a batch of per-trial results: all successes yield the outcome
/// list, and the first failure aborts the whole batch with its error.
fn collect_outcomes(results: &Vec<Result<usize, SimError>>, nb_toys: usize, iterlimit: usize) -> (r:
    Result<Vec<usize>, SimError>)
    requires
        forall|i: int|
            0 <= i < results@.len() ==> (#[trigger] results@[i]) is Ok ==> nb_toys
                <= results@[i]->Ok_0 <= iterlimit,
        forall|i: int|
            0 <= i < results@.len() ==> (#[trigger] results@[i]) is Err ==> results@[i]->Err_0
                == limit_error(nb_toys, iterlimit),
    ensures
        (forall|i: int| 0 <= i < results@.len() ==> (#[trigger] results@[i]) is Ok) <==> r is Ok,
        r is Ok ==> r->Ok_0@.len() == results@.len(),
        r is Ok ==> forall|i: int|
            0 <= i < results@.len() ==> #[trigger] r->Ok_0@[i] == results@[i]->Ok_0,
        r is Err ==> r->Err_0 == limit_error(nb_toys, iterlimit),
{
    let mut out: Vec<usize> = Vec::new();
    let mut i: usize = 0;
    while i < results.len()
        invariant
            i <= results@.len(),
            out@.len() == i,
            forall|t: int|
                0 <= t < results@.len() ==> (#[trigger] results@[t]) is Err ==> results@[t]->Err_0
                    == limit_error(nb_toys, iterlimit),
            forall|t: int| 0 <= t < i ==> (#[trigger] results@[t]) is Ok,
            forall|t: int| 0 <= t < i ==> #[trigger] out@[t] == results@[t]->Ok_0,
        decreases results@.len() - i,
    {
        match results[i] {
            Ok(v) => out.push(v),
            Err(e) => {
                return Err(e);
            },
        }
        i = i + 1;
    }
    Ok(out)
}

} // verus!
