//! Monte Carlo estimation of the coupon-collector process: how many uniform
//! random draws, with replacement, are needed to see every one of `n`
//! distinct items at least once. The crate runs many independent trials and
//! summarizes the resulting draw counts (mean, deciles, histogram).

pub mod driver;
pub mod error;
pub mod histogram;
pub mod sampler;
pub mod stats;

pub use driver::mt_simulate_no_progressbar;
pub use driver::simulate_sequential;
pub use error::SimError;
pub use histogram::create_histogram;
pub use sampler::buy_meals_until_all_toys;
pub use stats::summarize;
pub use stats::Summary;
