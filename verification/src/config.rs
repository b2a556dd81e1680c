//! Diagnostics thresholds, cost, and scoring weights (`kare.toml`).
//!
//! Durations are held in whole microseconds and fractional quantities (the
//! regression factor, the cost per minute) in millionths.

use vstd::prelude::*;

verus! {

#[derive(Debug, Clone, Copy)]
pub struct Config {
    pub thresholds: Thresholds,
    pub cost: Cost,
    pub weights: Weights,
}

#[derive(Debug, Clone, Copy)]
pub struct Thresholds {
    /// A test at least this slow is a slow finding.
    pub slow_us: u64,
    /// Number of most recent runs in which flakiness is looked for.
    pub flaky_window_runs: usize,
    /// Growth factor, in millionths, from which a slowdown is a regression.
    pub regression_factor_millionths: u64,
    /// Least growth, in microseconds, for a slowdown to be a regression.
    pub regression_min_us: u64,
}

#[derive(Debug, Clone, Copy)]
pub struct Cost {
    /// Cost per minute of test time, in millionths. `0` disables cost reporting.
    pub per_min_millionths: u64,
}

#[derive(Debug, Clone, Copy)]
pub struct Weights {
    pub flaky: u32,
    pub flaky_max: u32,
    pub slow: u32,
    pub slow_max: u32,
    pub regression: u32,
    pub regression_max: u32,
}

impl Default for Thresholds {
    fn default() -> (r: Thresholds)
        ensures
            r.slow_us == 1_000_000,
            r.flaky_window_runs == 10,
            r.regression_factor_millionths == 2_000_000,
            r.regression_min_us == 500_000,
    {
        Thresholds {
            slow_us: 1_000_000,
            flaky_window_runs: 10,
            regression_factor_millionths: 2_000_000,
            regression_min_us: 500_000,
        }
    }
}

impl Default for Cost {
    fn default() -> (r: Cost)
        ensures
            r.per_min_millionths == 0,
    {
        Cost { per_min_millionths: 0 }
    }
}

impl Default for Weights {
    fn default() -> (r: Weights)
        ensures
            r.flaky == 8,
            r.flaky_max == 32,
            r.slow == 2,
            r.slow_max == 20,
            r.regression == 4,
            r.regression_max == 16,
    {
        Weights { flaky: 8, flaky_max: 32, slow: 2, slow_max: 20, regression: 4, regression_max: 16 }
    }
}

impl Default for Config {
    fn default() -> (r: Config)
        ensures
            r.thresholds.slow_us == 1_000_000,
            r.thresholds.flaky_window_runs == 10,
            r.thresholds.regression_factor_millionths == 2_000_000,
            r.thresholds.regression_min_us == 500_000,
            r.cost.per_min_millionths == 0,
            r.weights.flaky == 8,
            r.weights.flaky_max == 32,
            r.weights.slow == 2,
            r.weights.slow_max == 20,
            r.weights.regression == 4,
            r.weights.regression_max == 16,
    {
        Config { thresholds: Thresholds::default(), cost: Cost::default(), weights: Weights::default() }
    }
}

} // verus!
