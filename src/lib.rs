//! Monte Carlo simulation of a "pity" reward mechanic: rounds are won with a
//! fixed chance, and a run of consecutive losses forces a win once it reaches
//! a limit. Batches of runs are summarised as an equal-width histogram.
pub mod chance;
pub mod experiment;
pub mod histogram;
mod random;
pub mod simulation;

pub use chance::WinChance;
pub use experiment::{run_batch, PityExperimentApp, NUM_BARS};
pub use histogram::{bin, Histogram};
pub use simulation::{pity_experiment, simulate_with_draws};
