//! Configuration constants of the cutting optimisation system.

use vstd::prelude::*;

verus! {

/// Stock solution generation configuration constants.
pub struct StockConstants;

impl StockConstants {
    /// Minimum number of initial stock solutions to generate before the generation
    /// process counts as started.
    pub const MIN_INIT_STOCK_SOLUTIONS_TO_GENERATE: usize = 10;

    /// Minimum number of stock solutions to generate when an "all fit" solution exists.
    pub const MIN_STOCK_SOLUTIONS_TO_GENERATE_WITH_ALL_FIT_SOLUTION: usize = 100;

    /// Maximum number of iterations allowed in blocking operations.
    pub const MAX_ITERATIONS: u32 = 10000;

    /// Sleep duration in milliseconds when waiting for solutions.
    pub const SOLUTION_WAIT_SLEEP_MS: u64 = 1000;

    /// Sleep duration in milliseconds for retry operations.
    pub const RETRY_SLEEP_MS: u64 = 100;
}

/// Default values of the cutting configuration.
pub struct ConfigurationDefaults;

impl ConfigurationDefaults {
    /// Default accuracy factor for cutting calculations.
    pub const DEFAULT_ACCURACY_FACTOR: i32 = 100;

    /// Default cut thickness (saw kerf) in millimetres.
    pub const DEFAULT_CUT_THICKNESS: i32 = 3;

    /// Default minimum trim dimension in millimetres.
    pub const DEFAULT_MIN_TRIM_DIMENSION: i32 = 10;

    /// Default optimisation factor (1-10 scale).
    pub const DEFAULT_OPTIMIZATION_FACTOR: i32 = 5;

    /// Maximum allowed optimisation factor.
    pub const MAX_OPTIMIZATION_FACTOR: i32 = 10;

    /// Minimum allowed optimisation factor.
    pub const MIN_OPTIMIZATION_FACTOR: i32 = 1;
}

/// Performance and threading configuration constants.
pub struct PerformanceConstants;

impl PerformanceConstants {
    /// Default maximum length of stock solution arrays.
    pub const DEFAULT_MAX_STOCK_SOLUTION_LENGTH: usize = 1000;

    /// How often background threads check for termination, in milliseconds.
    pub const THREAD_CHECK_INTERVAL_MS: u64 = 1000;

    /// How often progress indicators are refreshed, in milliseconds.
    pub const PROGRESS_UPDATE_INTERVAL_MS: u64 = 100;
}

/// Integer conversion constants (the floating-point ones live with the application).
pub struct MathConstants;

impl MathConstants {
    /// Divisor used when printing sub-second precision in timing displays.
    pub const MILLIS_PRECISION_DIVISOR: u32 = 100;
}

} // verus!
