//! What can go wrong, before a run and inside one test.

use vstd::prelude::*;

verus! {

/// The configuration cannot be used.
#[derive(Clone, Copy, Debug, PartialEq, Eq, Structural)]
pub enum ConfigError {
    /// The input pattern, with the task name filled in, has no `{test}`
    /// slot, so no test id can be read off a file name.
    MissingTestSlot,
}

/// The listing of input files cannot be turned into test cases.
#[derive(Clone, Copy, Debug, PartialEq, Eq, Structural)]
pub enum DiscoveryError {
    /// The path at `index` of the listing is shorter than the text that
    /// the input pattern has around its `{test}` slot.
    PathTooShort { index: usize },
}

/// An error that ends the run before any test is started.
#[derive(Clone, Copy, Debug, PartialEq, Eq, Structural)]
pub enum FatalError {
    Config(ConfigError),
    Discovery(DiscoveryError),
}

/// Why one test came to no verdict. Such a test is neither passed, failed
/// nor timed out; the other tests of the run are not affected.
#[derive(Clone, Copy, Debug, PartialEq, Eq, Structural)]
pub enum ExecutionError {
    /// The input file could not be read.
    InputUnreadable,
    /// The command could not be started.
    SpawnFailed,
    /// The input could not be written to the child's standard input.
    StdinWriteFailed,
    /// The child's output could not be collected.
    OutputUnreadable,
    /// The file with the expected output is missing or unreadable.
    ExpectedOutputMissing,
}

} // verus!
