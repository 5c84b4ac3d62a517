use vstd::prelude::*;

verus! {

/// A terminal failure of the simulation core. Every fault the core can
/// produce is user-visible and ends the run; nothing is retried.
#[derive(Clone, Copy, Debug, PartialEq, Eq, Structural)]
pub enum SimError {
    /// A trial count, toy count or iteration limit below 1 was supplied.
    InvalidInput,
    /// A trial's collection was still incomplete after `iterlimit` draws:
    /// the configured limit is too small for the requested toy count.
    IterationLimitExceeded { nb_toys: usize, iterlimit: usize },
}

/// The error a trial reports when the iteration limit runs out.
pub open spec fn limit_error(nb_toys: usize, iterlimit: usize) -> SimError {
    SimError::IterationLimitExceeded { nb_toys, iterlimit }
}

} // verus!
