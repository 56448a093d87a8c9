//! The settings of one run.

use vstd::prelude::*;
use vstd::string::*;

verus! {

/// The slot that stands for the task name in a pattern: `{task}`.
pub open spec fn task_slot() -> Seq<char> {
    seq!['{', 't', 'a', 's', 'k', '}']
}

/// The slot that stands for the test id in a pattern: `{test}`.
pub open spec fn test_slot() -> Seq<char> {
    seq!['{', 't', 'e', 's', 't', '}']
}

/// The text `{task}`.
pub fn task_slot_text() -> (r: &'static str)
    ensures
        r@ == task_slot(),
{
    let r = "{task}";
    proof {
        reveal_strlit("{task}");
        assert(r@ =~= task_slot());
    }
    r
}

/// The text `{test}`.
pub fn test_slot_text() -> (r: &'static str)
    ensures
        r@ == test_slot(),
{
    let r = "{test}";
    proof {
        reveal_strlit("{test}");
        assert(r@ =~= test_slot());
    }
    r
}

/// The settings of one run, as the command line gives them.
#[derive(Debug)]
pub struct RunConfig {
    /// The name of the task under test.
    pub task: String,
    /// The command to run; without one, the task name is the command.
    pub command: Option<String>,
    /// Where the input files are: a file name with a `{task}` and a
    /// `{test}` slot.
    pub in_pattern: String,
    /// Where the expected outputs are, with the same two slots.
    pub out_pattern: String,
    /// The time each test may take, in whole seconds.
    pub timeout: u64,
    /// How many tests may run at the same time.
    pub parallel: usize,
}

/// A `RunConfig` as plain values.
pub struct RunConfigView {
    pub task: Seq<char>,
    pub command: Option<Seq<char>>,
    pub in_pattern: Seq<char>,
    pub out_pattern: Seq<char>,
    pub timeout: u64,
    pub parallel: usize,
}

impl View for RunConfig {
    type V = RunConfigView;

    open spec fn view(&self) -> RunConfigView {
        RunConfigView {
            task: self.task@,
            command: match self.command {
                Some(c) => Some(c@),
                None => None,
            },
            in_pattern: self.in_pattern@,
            out_pattern: self.out_pattern@,
            timeout: self.timeout,
            parallel: self.parallel,
        }
    }
}

impl Clone for RunConfig {
    fn clone(&self) -> (r: Self)
        ensures
            r@ == self@,
    {
        RunConfig {
            task: self.task.clone(),
            command: match &self.command {
                Some(command) => Some(command.clone()),
                None => None,
            },
            in_pattern: self.in_pattern.clone(),
            out_pattern: self.out_pattern.clone(),
            timeout: self.timeout,
            parallel: self.parallel,
        }
    }
}

impl RunConfigView {
    /// The settings that hold where the command line names only the
    /// task: the task name is the command, inputs are `in/{task}{test}.in`,
    /// expected outputs are `out/{task}{test}.out`, a test may take five
    /// seconds, and five tests may run at the same time.
    pub open spec fn defaults(task: Seq<char>) -> RunConfigView {
        RunConfigView {
            task,
            command: None,
            in_pattern: seq!['i', 'n', '/'] + task_slot() + test_slot() + seq!['.', 'i', 'n'],
            out_pattern: seq!['o', 'u', 't', '/'] + task_slot() + test_slot() + seq![
                '.',
                'o',
                'u',
                't',
            ],
            timeout: 5,
            parallel: 5,
        }
    }

    /// A run needs room for at least one test at a time, and a timeout
    /// that is not zero.
    pub open spec fn well_formed(self) -> bool {
        self.parallel >= 1 && self.timeout > 0
    }
}

impl RunConfig {
    /// The default settings for `task`.
    pub fn new(task: String) -> (r: Self)
        ensures
            r@ == RunConfigView::defaults(task@),
            r@.well_formed(),
    {
        let in_pattern = "in/{task}{test}.in";
        let out_pattern = "out/{task}{test}.out";
        proof {
            reveal_strlit("in/{task}{test}.in");
            reveal_strlit("out/{task}{test}.out");
            assert(in_pattern@ =~= RunConfigView::defaults(task@).in_pattern);
            assert(out_pattern@ =~= RunConfigView::defaults(task@).out_pattern);
        }
        RunConfig {
            task,
            command: None,
            in_pattern: in_pattern.to_owned(),
            out_pattern: out_pattern.to_owned(),
            timeout: 5,
            parallel: 5,
        }
    }

    /// Whether the settings allow a run: at least one test at a time, and
    /// a timeout that is not zero.
    pub fn is_valid(&self) -> (r: bool)
        ensures
            r == self@.well_formed(),
    {
        self.parallel >= 1 && self.timeout > 0
    }
}

} // verus!
