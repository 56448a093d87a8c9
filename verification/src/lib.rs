//! A batch judge for competitive-programming solutions.
//!
//! The crate holds the decisions of a test run: which test cases a listing
//! of input files stands for, when an answer counts as correct, how the
//! outcomes are sorted into a report, and how many tests may run at once.
//! Listing and reading files and running the candidate program are left to
//! the caller, who hands the paths, the bytes and the exit data to the
//! functions here.

pub mod config;
pub mod discovery;
pub mod error;
pub mod executor;
pub mod pattern;
pub mod report;
pub mod scheduler;
pub mod slice_trim_ext;

pub use config::RunConfig;
pub use discovery::{get_tests, glob_pattern, Test};
pub use error::{ConfigError, DiscoveryError, ExecutionError, FatalError};
pub use executor::{
    counts_as_failure, ChildOutput, Execution, Exit, TestResult, TestTimeoutResult,
};
pub use report::{Report, TestStats};
pub use scheduler::Scheduler;
pub use slice_trim_ext::SliceTrimExt;
