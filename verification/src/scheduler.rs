//! Admission of tests to a bounded number of slots, and the tally of a run.
//!
//! A test may start only when it holds one of the slots, and it gives the
//! slot back when it has come to an outcome or an error. The scheduler
//! makes these decisions; its caller starts the tests it is handed and
//! reports back each one that has ended.

use crate::discovery::{test_views, Test, TestView};
use crate::error::ExecutionError;
use crate::executor::{counts_as_failure, is_failure, result_view, OutcomeView, TestTimeoutResult};
use crate::report::{
    aggregate, lemma_aggregate_counts_each_once, lemma_aggregate_step, Report, ReportView,
    TestStats, TestStatsView,
};
use vstd::prelude::*;

verus! {

/// What one test came to: an outcome, or the error that kept it from one.
pub type TestEnd = Result<OutcomeView, ExecutionError>;

/// The outcomes among `ends`, in their order. Errors are left out.
pub open spec fn outcomes(ends: Seq<TestEnd>) -> Seq<OutcomeView>
    decreases ends.len(),
{
    if ends.len() == 0 {
        Seq::empty()
    } else {
        match ends.last() {
            Ok(o) => outcomes(ends.drop_last()).push(o),
            Err(_) => outcomes(ends.drop_last()),
        }
    }
}

/// How many of `ends` count as failed: all but the right answers.
pub open spec fn failures(ends: Seq<TestEnd>) -> nat
    decreases ends.len(),
{
    if ends.len() == 0 {
        0
    } else if is_failure(ends.last()) {
        failures(ends.drop_last()) + 1
    } else {
        failures(ends.drop_last())
    }
}

/// How many of `ends` are errors.
pub open spec fn errors(ends: Seq<TestEnd>) -> nat
    decreases ends.len(),
{
    if ends.len() == 0 {
        0
    } else if ends.last() is Err {
        errors(ends.drop_last()) + 1
    } else {
        errors(ends.drop_last())
    }
}

/// What happens in a run: a test takes a slot, or a test ends and gives
/// its slot back.
pub enum Step {
    Start,
    End(TestEnd),
}

/// The state of a run.
pub struct SchedulerView {
    /// The tests of the run, in the order in which they are admitted.
    pub tests: Seq<TestView>,
    /// The number of slots.
    pub limit: nat,
    /// How many tests have been admitted so far.
    pub admitted: nat,
    /// What the tests that have ended came to, in the order of their
    /// ending.
    pub ended: Seq<TestEnd>,
}

impl SchedulerView {
    /// The state before any test is admitted.
    pub open spec fn initial(tests: Seq<TestView>, limit: nat) -> SchedulerView {
        SchedulerView { tests, limit, admitted: 0, ended: Seq::empty() }
    }

    /// How many tests hold a slot.
    pub open spec fn running(self) -> int {
        self.admitted - self.ended.len()
    }

    /// How many tests have ended.
    pub open spec fn finished(self) -> nat {
        self.ended.len()
    }

    /// How many of the tests that have ended count as failed.
    pub open spec fn failed(self) -> nat {
        failures(self.ended)
    }

    /// The names of the tests that have ended with an outcome, by verdict.
    pub open spec fn stats(self) -> TestStatsView {
        aggregate(outcomes(self.ended))
    }

    /// There is at least one slot, no more tests hold a slot than there
    /// are slots, and no more have been admitted than there are tests.
    pub open spec fn well_formed(self) -> bool {
        &&& 1 <= self.limit
        &&& self.admitted <= self.tests.len()
        &&& 0 <= self.running() <= self.limit
    }

    /// A slot is free and a test waits for one.
    pub open spec fn can_start(self) -> bool {
        self.running() < self.limit && self.admitted < self.tests.len()
    }

    /// The state after the next test has taken a slot.
    pub open spec fn start(self) -> SchedulerView {
        SchedulerView { admitted: self.admitted + 1, ..self }
    }

    /// The state after a test has ended with `end` and given its slot
    /// back.
    pub open spec fn complete(self, end: TestEnd) -> SchedulerView {
        SchedulerView { ended: self.ended.push(end), ..self }
    }

    /// Every test has ended.
    pub open spec fn done(self) -> bool {
        self.ended.len() == self.tests.len()
    }

    /// The report of the run as it stands.
    pub open spec fn report(self) -> ReportView {
        ReportView { total: self.tests.len(), stats: self.stats(), errors: errors(self.ended) }
    }

    /// Whether `step` can happen in this state: a test can start while a
    /// slot is free and a test waits, and only a running test can end.
    pub open spec fn allows(self, step: Step) -> bool {
        match step {
            Step::Start => self.can_start(),
            Step::End(_) => self.running() > 0,
        }
    }

    /// The state after `step`.
    pub open spec fn after(self, step: Step) -> SchedulerView {
        match step {
            Step::Start => self.start(),
            Step::End(end) => self.complete(end),
        }
    }

    /// The state after all of `steps`, one after the other; none if one of
    /// them cannot happen in the state that it meets.
    pub open spec fn after_all(self, steps: Seq<Step>) -> Option<SchedulerView>
        decreases steps.len(),
    {
        if steps.len() == 0 {
            Some(self)
        } else {
            match self.after_all(steps.drop_last()) {
                Some(s) => if s.allows(steps.last()) {
                    Some(s.after(steps.last()))
                } else {
                    None
                },
                None => None,
            }
        }
    }
}

/// A run starts in a well-formed state.
pub proof fn lemma_initial_well_formed(tests: Seq<TestView>, limit: nat)
    requires
        limit >= 1,
    ensures
        SchedulerView::initial(tests, limit).well_formed(),
{
}

/// Admission never lets more tests run than there are slots: from a
/// well-formed state in which a test can be admitted, admitting it gives a
/// well-formed state. With one slot, no two tests ever run at once.
pub proof fn lemma_start_keeps_bound(s: SchedulerView)
    requires
        s.well_formed(),
        s.can_start(),
    ensures
        s.start().well_formed(),
        s.start().running() == s.running() + 1,
        s.start().running() <= s.limit,
{
}

/// A test that ends gives back exactly one slot, whatever it came to, and
/// is counted as finished exactly once.
pub proof fn lemma_complete_frees_slot(s: SchedulerView, end: TestEnd)
    requires
        s.well_formed(),
        s.running() > 0,
    ensures
        s.complete(end).well_formed(),
        s.complete(end).running() == s.running() - 1,
        s.complete(end).finished() == s.finished() + 1,
        s.complete(end).failed() == s.failed() + if is_failure(end) {
            1nat
        } else {
            0nat
        },
{
    let next = s.ended.push(end);
    assert(next.drop_last() =~= s.ended);
}

/// At no point of a run do more tests hold a slot than there are slots:
/// every state that a run can come to, by whatever steps and in whatever
/// order the tests end, is well-formed. With one slot, no two tests ever
/// run at the same time.
pub proof fn lemma_never_more_than_limit(tests: Seq<TestView>, limit: nat, steps: Seq<Step>)
    requires
        limit >= 1,
    ensures
        SchedulerView::initial(tests, limit).after_all(steps) matches Some(s) ==> s.well_formed()
            && s.tests == tests && s.limit == limit && s.running() <= limit,
    decreases steps.len(),
{
    let start = SchedulerView::initial(tests, limit);
    if steps.len() > 0 {
        lemma_never_more_than_limit(tests, limit, steps.drop_last());
        match start.after_all(steps.drop_last()) {
            Some(s) => {
                if s.allows(steps.last()) {
                    match steps.last() {
                        Step::Start => lemma_start_keeps_bound(s),
                        Step::End(end) => lemma_complete_frees_slot(s, end),
                    }
                }
            },
            None => {},
        }
    }
}

/// A run cannot get stuck: as long as some test has not ended, one is
/// running or one can be admitted.
pub proof fn lemma_run_goes_on(s: SchedulerView)
    requires
        s.well_formed(),
        !s.done(),
    ensures
        s.running() > 0 || s.can_start(),
{
}

/// Every test that ended is counted once: it has a verdict or it is an
/// error, and it passed or it counts as failed.
pub proof fn lemma_tally(ends: Seq<TestEnd>)
    ensures
        aggregate(outcomes(ends)).total() + errors(ends) == ends.len(),
        aggregate(outcomes(ends)).pass.len() + failures(ends) == ends.len(),
    decreases ends.len(),
{
    lemma_aggregate_counts_each_once(outcomes(ends));
    if ends.len() > 0 {
        let rest = ends.drop_last();
        lemma_tally(rest);
        match ends.last() {
            Ok(o) => {
                lemma_aggregate_step(outcomes(rest), o);
            },
            Err(_) => {},
        }
    }
}

/// The scheduler of one run.
pub struct Scheduler {
    /// The tests that wait for a slot; the last one is next.
    waiting: Vec<Test>,
    limit: usize,
    total: usize,
    running: usize,
    finished: usize,
    failed: usize,
    errors: usize,
    stats: TestStats,
    state: Ghost<SchedulerView>,
}

impl View for Scheduler {
    type V = SchedulerView;

    closed spec fn view(&self) -> SchedulerView {
        self.state@
    }
}

impl Scheduler {
    /// The scheduler's counters and its queue agree with its state, and
    /// the state is well-formed.
    pub closed spec fn wf(&self) -> bool {
        let s = self.state@;
        &&& s.well_formed()
        &&& s.limit == self.limit
        &&& s.tests.len() == self.total
        &&& s.admitted + self.waiting.len() == self.total
        &&& forall|k: int|
            0 <= k < self.waiting.len() ==> (#[trigger] self.waiting[k])@ == s.tests[self.total
                - 1 - k]
        &&& s.running() == self.running
        &&& s.finished() == self.finished
        &&& s.failed() == self.failed
        &&& errors(s.ended) == self.errors
        &&& s.stats() == self.stats@
    }

    /// The state of a well-formed scheduler is well-formed: it has no more
    /// tests running than it has slots.
    pub proof fn lemma_wf_state(&self)
        requires
            self.wf(),
        ensures
            self@.well_formed(),
            self@.running() <= self@.limit,
    {
    }

    /// A scheduler for `tests`, to be admitted in their order, with
    /// `parallel` slots.
    pub fn new(tests: Vec<Test>, parallel: usize) -> (r: Self)
        requires
            parallel >= 1,
        ensures
            r.wf(),
            r@ == SchedulerView::initial(test_views(tests@), parallel as nat),
    {
        let ghost all = test_views(tests@);
        let total = tests.len();
        let mut rest = tests;
        let mut waiting: Vec<Test> = Vec::new();
        while rest.len() > 0
            invariant
                rest.len() + waiting.len() == total,
                total == all.len(),
                forall|k: int| 0 <= k < rest.len() ==> (#[trigger] rest[k])@ == all[k],
                forall|k: int|
                    0 <= k < waiting.len() ==> (#[trigger] waiting[k])@ == all[total - 1 - k],
            decreases rest.len(),
        {
            let t = rest.pop().unwrap();
            waiting.push(t);
        }
        let stats = TestStats::new();
        proof {
            assert(outcomes(Seq::<TestEnd>::empty()) =~= Seq::<OutcomeView>::empty());
        }
        Scheduler {
            waiting,
            limit: parallel,
            total,
            running: 0,
            finished: 0,
            failed: 0,
            errors: 0,
            stats,
            state: Ghost(SchedulerView::initial(all, parallel as nat)),
        }
    }

    /// Hands out the next test if a slot is free for it. The test then
    /// holds the slot until `complete` is called for it.
    pub fn start_next(&mut self) -> (r: Option<Test>)
        requires
            old(self).wf(),
        ensures
            final(self).wf(),
            match r {
                Some(t) => old(self)@.can_start() && t@ == old(self)@.tests[old(
                    self,
                )@.admitted as int] && final(self)@ == old(self)@.start(),
                None => !old(self)@.can_start() && final(self)@ == old(self)@,
            },
    {
        if self.running < self.limit && self.waiting.len() > 0 {
            let t = self.waiting.pop().unwrap();
            self.running = self.running + 1;
            self.state = Ghost(self.state@.start());
            Some(t)
        } else {
            None
        }
    }

    /// Takes note that a test has ended with `end`: its slot is free
    /// again, it is counted as finished and, unless it passed, as failed,
    /// and its outcome, if it has one, goes into the stats.
    pub fn complete(&mut self, end: &Result<TestTimeoutResult, ExecutionError>)
        requires
            old(self).wf(),
            old(self)@.running() > 0,
        ensures
            final(self).wf(),
            final(self)@ == old(self)@.complete(result_view(*end)),
    {
        proof {
            lemma_complete_frees_slot(self.state@, result_view(*end));
            lemma_tally(self.state@.ended);
            let next = self.state@.ended.push(result_view(*end));
            assert(next.drop_last() =~= self.state@.ended);
            if let Ok(o) = end {
                lemma_aggregate_step(outcomes(self.state@.ended), o@);
            }
        }
        self.running = self.running - 1;
        self.finished = self.finished + 1;
        if counts_as_failure(end) {
            self.failed = self.failed + 1;
        }
        match end {
            Ok(outcome) => {
                self.stats.record(outcome);
            },
            Err(_) => {
                self.errors = self.errors + 1;
            },
        }
        self.state = Ghost(self.state@.complete(result_view(*end)));
    }

    /// Whether every test has ended.
    pub fn is_done(&self) -> (r: bool)
        requires
            self.wf(),
        ensures
            r == self@.done(),
    {
        self.finished == self.total
    }

    /// How many tests the run has.
    pub fn total(&self) -> (n: usize)
        requires
            self.wf(),
        ensures
            n == self@.tests.len(),
    {
        self.total
    }

    /// How many tests hold a slot. There are never more than there are
    /// slots.
    pub fn running(&self) -> (n: usize)
        requires
            self.wf(),
        ensures
            n == self@.running(),
            n <= self@.limit,
    {
        self.running
    }

    /// How many tests have ended.
    pub fn finished(&self) -> (n: usize)
        requires
            self.wf(),
        ensures
            n == self@.finished(),
    {
        self.finished
    }

    /// How many of the tests that have ended count as failed.
    pub fn failed(&self) -> (n: usize)
        requires
            self.wf(),
        ensures
            n == self@.failed(),
    {
        self.failed
    }

    /// The names of the tests that have ended with an outcome, by verdict.
    pub fn stats(&self) -> (r: &TestStats)
        requires
            self.wf(),
        ensures
            r@ == self@.stats(),
    {
        &self.stats
    }

    /// The report of the run, once every test has ended. Before that there
    /// is none.
    pub fn report(self) -> (r: Option<Report>)
        requires
            self.wf(),
        ensures
            match r {
                Some(report) => self@.done() && report@ == self@.report() && report@.total
                    == report@.stats.total() + report@.errors,
                None => !self@.done(),
            },
    {
        proof {
            lemma_tally(self.state@.ended);
        }
        if self.finished == self.total {
            Some(Report { total: self.total, stats: self.stats, errors: self.errors })
        } else {
            None
        }
    }
}

} // verus!
