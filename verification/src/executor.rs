//! From what a child process did to the outcome of its test.
//!
//! Running the command is the caller's part: it starts the child with the
//! test's input on its standard input, waits for it under the time limit,
//! and reads the expected output once the child has ended. What it saw
//! comes here as an `Execution`, and `Test::run` says what that means for
//! the test.

use crate::config::{RunConfig, RunConfigView};
use crate::discovery::{Test, TestView};
use crate::error::ExecutionError;
use crate::slice_trim_ext::{trimmed, SliceTrimExt};
use core::time::Duration;
use vstd::prelude::*;
use vstd::string::*;

verus! {

/// What a child process left behind when it ended.
#[derive(Debug)]
pub struct ChildOutput {
    /// The exit code; none where a signal ended the child.
    pub status: Option<i32>,
    /// All that the child wrote to its standard output.
    pub stdout: Vec<u8>,
    /// All that was captured of its standard error.
    pub stderr: Vec<u8>,
}

/// A `ChildOutput` as plain values.
pub struct ChildOutputView {
    pub status: Option<i32>,
    pub stdout: Seq<u8>,
    pub stderr: Seq<u8>,
}

impl View for ChildOutput {
    type V = ChildOutputView;

    open spec fn view(&self) -> ChildOutputView {
        ChildOutputView { status: self.status, stdout: self.stdout@, stderr: self.stderr@ }
    }
}

/// A child process that ended by itself within the time limit.
#[derive(Debug)]
pub struct Exit {
    /// The time from the start of the child to its end.
    pub time: Duration,
    /// The bytes that were written to the child's standard input.
    pub stdin: Vec<u8>,
    /// What the child left behind.
    pub output: ChildOutput,
    /// The content of the test's expected-output file; none where the
    /// file is missing or cannot be read.
    pub expected: Option<Vec<u8>>,
}

/// An `Exit` as plain values.
pub struct ExitView {
    pub time: Duration,
    pub stdin: Seq<u8>,
    pub output: ChildOutputView,
    pub expected: Option<Seq<u8>>,
}

impl View for Exit {
    type V = ExitView;

    open spec fn view(&self) -> ExitView {
        ExitView {
            time: self.time,
            stdin: self.stdin@,
            output: self.output@,
            expected: match self.expected {
                Some(e) => Some(e@),
                None => None,
            },
        }
    }
}

/// What became of the attempt to run one test's command.
#[derive(Debug)]
pub enum Execution {
    /// The time limit passed before the child ended, and the child was
    /// killed.
    TimedOut,
    /// The child ended by itself.
    Exited(Exit),
    /// The child could not be run to its end.
    Failed(ExecutionError),
}

/// An `Execution` as plain values.
pub enum ExecutionView {
    TimedOut,
    Exited(ExitView),
    Failed(ExecutionError),
}

impl View for Execution {
    type V = ExecutionView;

    open spec fn view(&self) -> ExecutionView {
        match self {
            Execution::TimedOut => ExecutionView::TimedOut,
            Execution::Exited(x) => ExecutionView::Exited(x@),
            Execution::Failed(e) => ExecutionView::Failed(*e),
        }
    }
}

/// A test whose command ran to its end: whether its answer is right, and
/// the bytes that this was decided on.
#[derive(Debug)]
pub struct TestResult {
    pub name: String,
    pub time: Duration,
    /// Whether the answer is the expected one.
    pub correct: bool,
    pub stdin: Vec<u8>,
    pub output: ChildOutput,
    pub expected: Vec<u8>,
}

/// A `TestResult` as plain values.
pub struct TestResultView {
    pub name: Seq<char>,
    pub time: Duration,
    pub correct: bool,
    pub stdin: Seq<u8>,
    pub output: ChildOutputView,
    pub expected: Seq<u8>,
}

impl View for TestResult {
    type V = TestResultView;

    open spec fn view(&self) -> TestResultView {
        TestResultView {
            name: self.name@,
            time: self.time,
            correct: self.correct,
            stdin: self.stdin@,
            output: self.output@,
            expected: self.expected@,
        }
    }
}

/// The outcome of one test: it ran out of time, or it finished with a
/// right or a wrong answer.
#[derive(Debug)]
pub enum TestTimeoutResult {
    /// The test, by its name, did not end within the time limit.
    TimedOut(String),
    Finished(TestResult),
}

/// A `TestTimeoutResult` as plain values.
pub enum OutcomeView {
    TimedOut(Seq<char>),
    Finished(TestResultView),
}

impl View for TestTimeoutResult {
    type V = OutcomeView;

    open spec fn view(&self) -> OutcomeView {
        match self {
            TestTimeoutResult::TimedOut(name) => OutcomeView::TimedOut(name@),
            TestTimeoutResult::Finished(res) => OutcomeView::Finished(res@),
        }
    }
}

impl OutcomeView {
    /// The name of the test that the outcome belongs to.
    pub open spec fn name(self) -> Seq<char> {
        match self {
            OutcomeView::TimedOut(name) => name,
            OutcomeView::Finished(res) => res.name,
        }
    }
}

/// What one test came to, as plain values: an outcome, or the error that
/// kept it from having one.
pub open spec fn result_view(r: Result<TestTimeoutResult, ExecutionError>) -> Result<
    OutcomeView,
    ExecutionError,
> {
    match r {
        Ok(o) => Ok(o@),
        Err(e) => Err(e),
    }
}

/// An answer is right where it equals the expected one byte for byte once
/// the whitespace at both ends of each is set aside.
pub open spec fn answers_match(actual: Seq<u8>, expected: Seq<u8>) -> bool {
    trimmed(actual) == trimmed(expected)
}

/// What an execution means for the test `t`. A timeout is an outcome, not
/// an error. A child that ended is judged by its standard output alone;
/// without an expected output there is nothing to judge it by, which is an
/// error.
pub open spec fn outcome_of(t: TestView, e: ExecutionView) -> Result<OutcomeView, ExecutionError> {
    match e {
        ExecutionView::TimedOut => Ok(OutcomeView::TimedOut(t.name)),
        ExecutionView::Failed(err) => Err(err),
        ExecutionView::Exited(x) => match x.expected {
            None => Err(ExecutionError::ExpectedOutputMissing),
            Some(expected) => Ok(
                OutcomeView::Finished(
                    TestResultView {
                        name: t.name,
                        time: x.time,
                        correct: answers_match(x.output.stdout, expected),
                        stdin: x.stdin,
                        output: x.output,
                        expected,
                    },
                ),
            ),
        },
    }
}

/// The command of a run: the one that the configuration names, else the
/// task name, with `.exe` behind it on Windows.
pub open spec fn command_of(c: RunConfigView, windows: bool) -> Seq<char> {
    match c.command {
        Some(command) => command,
        None => if windows {
            c.task + seq!['.', 'e', 'x', 'e']
        } else {
            c.task
        },
    }
}

/// Whether two byte strings are the same.
fn bytes_equal(a: &[u8], b: &[u8]) -> (r: bool)
    ensures
        r == (a@ == b@),
{
    if a.len() != b.len() {
        return false;
    }
    let n = a.len();
    let mut i: usize = 0;
    while i < n
        invariant
            n == a@.len(),
            n == b@.len(),
            i <= n,
            forall|j: int| 0 <= j < i ==> a@[j] == b@[j],
        decreases n - i,
    {
        if a[i] != b[i] {
            return false;
        }
        i += 1;
    }
    proof {
        assert(a@ =~= b@);
    }
    true
}

impl RunConfig {
    /// The command to run for each test. `windows` says whether programs
    /// carry the `.exe` suffix on this platform.
    pub fn command(&self, windows: bool) -> (r: String)
        ensures
            r@ == command_of(self@, windows),
    {
        match &self.command {
            Some(command) => command.clone(),
            None => {
                let mut r = self.task.clone();
                if windows {
                    proof {
                        reveal_strlit(".exe");
                        assert(".exe"@ =~= seq!['.', 'e', 'x', 'e']);
                    }
                    r.append(".exe");
                }
                r
            },
        }
    }
}

impl Test {
    /// Whether `actual` is the expected answer: both are compared byte for
    /// byte after the whitespace at their ends is set aside.
    pub fn is_correct(actual: &[u8], expected: &[u8]) -> (r: bool)
        ensures
            r == answers_match(actual@, expected@),
    {
        bytes_equal(actual.trim(), expected.trim())
    }

    /// The outcome of the test, given what became of its command.
    pub fn run(self, execution: Execution) -> (r: Result<TestTimeoutResult, ExecutionError>)
        ensures
            result_view(r) == outcome_of(self@, execution@),
    {
        match execution {
            Execution::TimedOut => Ok(TestTimeoutResult::TimedOut(self.name)),
            Execution::Failed(e) => Err(e),
            Execution::Exited(exit) => match exit.expected {
                None => Err(ExecutionError::ExpectedOutputMissing),
                Some(expected) => {
                    let correct = Test::is_correct(
                        exit.output.stdout.as_slice(),
                        expected.as_slice(),
                    );
                    Ok(
                        TestTimeoutResult::Finished(
                            TestResult {
                                name: self.name,
                                time: exit.time,
                                correct,
                                stdin: exit.stdin,
                                output: exit.output,
                                expected,
                            },
                        ),
                    )
                },
            },
        }
    }
}

/// Whether a finished test counts as failed on the progress display: all
/// but a right answer does, an error too.
pub open spec fn is_failure(r: Result<OutcomeView, ExecutionError>) -> bool {
    match r {
        Ok(OutcomeView::Finished(res)) => !res.correct,
        _ => true,
    }
}

/// Whether a finished test counts as failed on the progress display.
pub fn counts_as_failure(r: &Result<TestTimeoutResult, ExecutionError>) -> (b: bool)
    ensures
        b == is_failure(result_view(*r)),
{
    match r {
        Ok(TestTimeoutResult::Finished(res)) => !res.correct,
        _ => true,
    }
}

} // verus!
