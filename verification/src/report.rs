//! Sorting outcomes into the report of a run.

use crate::executor::{OutcomeView, TestTimeoutResult};
use vstd::prelude::*;

verus! {

/// The three verdicts that a test with an outcome can have.
#[derive(Clone, Copy, Debug, PartialEq, Eq, Structural)]
pub enum Verdict {
    Pass,
    Fail,
    Timeout,
}

/// The verdict of an outcome: a timeout is a timeout; a finished test
/// passes with a right answer and fails with a wrong one.
pub open spec fn verdict(o: OutcomeView) -> Verdict {
    match o {
        OutcomeView::TimedOut(_) => Verdict::Timeout,
        OutcomeView::Finished(res) => if res.correct {
            Verdict::Pass
        } else {
            Verdict::Fail
        },
    }
}

/// The names of the outcomes with verdict `v`, in the order of `outcomes`.
pub open spec fn bucket(outcomes: Seq<OutcomeView>, v: Verdict) -> Seq<Seq<char>>
    decreases outcomes.len(),
{
    if outcomes.len() == 0 {
        Seq::empty()
    } else if verdict(outcomes.last()) == v {
        bucket(outcomes.drop_last(), v).push(outcomes.last().name())
    } else {
        bucket(outcomes.drop_last(), v)
    }
}

/// The names of the tests of a run, by verdict.
#[derive(Debug)]
pub struct TestStats {
    pub pass: Vec<String>,
    pub fail: Vec<String>,
    pub timeout: Vec<String>,
}

/// A `TestStats` as plain values.
pub struct TestStatsView {
    pub pass: Seq<Seq<char>>,
    pub fail: Seq<Seq<char>>,
    pub timeout: Seq<Seq<char>>,
}

/// The views of a vector of names.
pub open spec fn name_views(names: Seq<String>) -> Seq<Seq<char>> {
    Seq::new(names.len(), |i: int| names[i]@)
}

/// The views of a vector of outcomes.
pub open spec fn outcome_views(outcomes: Seq<TestTimeoutResult>) -> Seq<OutcomeView> {
    Seq::new(outcomes.len(), |i: int| outcomes[i]@)
}

impl View for TestStats {
    type V = TestStatsView;

    open spec fn view(&self) -> TestStatsView {
        TestStatsView {
            pass: name_views(self.pass@),
            fail: name_views(self.fail@),
            timeout: name_views(self.timeout@),
        }
    }
}

/// A copy of a vector of names.
fn clone_names(names: &Vec<String>) -> (r: Vec<String>)
    ensures
        name_views(r@) == name_views(names@),
{
    let mut r: Vec<String> = Vec::new();
    let mut i: usize = 0;
    while i < names.len()
        invariant
            i <= names.len(),
            r.len() == i,
            forall|j: int| 0 <= j < i ==> (#[trigger] r[j])@ == names[j]@,
        decreases names.len() - i,
    {
        r.push(names[i].clone());
        i += 1;
    }
    proof {
        assert(name_views(r@) =~= name_views(names@));
    }
    r
}

impl Clone for TestStats {
    fn clone(&self) -> (r: Self)
        ensures
            r@ == self@,
    {
        TestStats {
            pass: clone_names(&self.pass),
            fail: clone_names(&self.fail),
            timeout: clone_names(&self.timeout),
        }
    }
}

impl TestStatsView {
    /// The names with verdict `v`.
    pub open spec fn of(self, v: Verdict) -> Seq<Seq<char>> {
        match v {
            Verdict::Pass => self.pass,
            Verdict::Fail => self.fail,
            Verdict::Timeout => self.timeout,
        }
    }

    /// The number of names in the three buckets together.
    pub open spec fn total(self) -> nat {
        self.pass.len() + self.fail.len() + self.timeout.len()
    }

    /// The stats with the name of `o` added at the end of the bucket of
    /// its verdict.
    pub open spec fn with(self, o: OutcomeView) -> TestStatsView {
        match verdict(o) {
            Verdict::Pass => TestStatsView { pass: self.pass.push(o.name()), ..self },
            Verdict::Fail => TestStatsView { fail: self.fail.push(o.name()), ..self },
            Verdict::Timeout => TestStatsView { timeout: self.timeout.push(o.name()), ..self },
        }
    }
}

/// The stats of a sequence of outcomes.
pub open spec fn aggregate(outcomes: Seq<OutcomeView>) -> TestStatsView {
    TestStatsView {
        pass: bucket(outcomes, Verdict::Pass),
        fail: bucket(outcomes, Verdict::Fail),
        timeout: bucket(outcomes, Verdict::Timeout),
    }
}

impl TestStats {
    /// Stats with no name in them.
    pub fn new() -> (r: Self)
        ensures
            r@ == aggregate(Seq::empty()),
    {
        let r = Self { pass: vec![], fail: vec![], timeout: vec![] };
        proof {
            assert(r@.pass =~= bucket(Seq::empty(), Verdict::Pass));
            assert(r@.fail =~= bucket(Seq::empty(), Verdict::Fail));
            assert(r@.timeout =~= bucket(Seq::empty(), Verdict::Timeout));
        }
        r
    }

    /// Adds one outcome: its name goes to the end of the bucket of its
    /// verdict, and the other two buckets stay as they are.
    pub fn record(&mut self, outcome: &TestTimeoutResult)
        ensures
            final(self)@ == old(self)@.with(outcome@),
    {
        match outcome {
            TestTimeoutResult::TimedOut(name) => {
                self.timeout.push(name.clone());
                proof {
                    assert(name_views(self.timeout@) =~= name_views(old(self).timeout@).push(
                        name@,
                    ));
                }
            },
            TestTimeoutResult::Finished(res) => {
                if res.correct {
                    self.pass.push(res.name.clone());
                    proof {
                        assert(name_views(self.pass@) =~= name_views(old(self).pass@).push(
                            res.name@,
                        ));
                    }
                } else {
                    self.fail.push(res.name.clone());
                    proof {
                        assert(name_views(self.fail@) =~= name_views(old(self).fail@).push(
                            res.name@,
                        ));
                    }
                }
            },
        }
    }

    /// The stats of all of `outcomes`.
    pub fn collect(outcomes: &Vec<TestTimeoutResult>) -> (r: Self)
        ensures
            r@ == aggregate(outcome_views(outcomes@)),
    {
        let mut stats = TestStats::new();
        let ghost all = outcome_views(outcomes@);
        let mut i: usize = 0;
        while i < outcomes.len()
            invariant
                i <= outcomes.len(),
                all == outcome_views(outcomes@),
                stats@ == aggregate(all.take(i as int)),
            decreases outcomes.len() - i,
        {
            proof {
                lemma_aggregate_step(all.take(i as int), all[i as int]);
                assert(all.take(i as int).push(all[i as int]) =~= all.take(i + 1));
            }
            stats.record(&outcomes[i]);
            i += 1;
        }
        proof {
            assert(all.take(outcomes.len() as int) =~= all);
        }
        stats
    }
}

/// The report of a run: how many tests it had, the names of those with a
/// verdict, and how many came to an error and so have none.
#[derive(Debug)]
pub struct Report {
    pub total: usize,
    pub stats: TestStats,
    pub errors: usize,
}

/// A `Report` as plain values.
pub struct ReportView {
    pub total: nat,
    pub stats: TestStatsView,
    pub errors: nat,
}

impl View for Report {
    type V = ReportView;

    open spec fn view(&self) -> ReportView {
        ReportView { total: self.total as nat, stats: self.stats@, errors: self.errors as nat }
    }
}

/// One more outcome adds its name to the stats of those before it.
pub proof fn lemma_aggregate_step(outcomes: Seq<OutcomeView>, o: OutcomeView)
    ensures
        aggregate(outcomes.push(o)) == aggregate(outcomes).with(o),
{
    let next = outcomes.push(o);
    assert(next.drop_last() =~= outcomes);
    assert(next.last() == o);
}

/// Each outcome is counted once: the three buckets together hold as many
/// names as there are outcomes.
pub proof fn lemma_aggregate_counts_each_once(outcomes: Seq<OutcomeView>)
    ensures
        aggregate(outcomes).total() == outcomes.len(),
    decreases outcomes.len(),
{
    if outcomes.len() > 0 {
        lemma_aggregate_counts_each_once(outcomes.drop_last());
    }
}

/// A name is in the bucket of `v` exactly if an outcome of that name has
/// the verdict `v`.
pub proof fn lemma_bucket_members(outcomes: Seq<OutcomeView>, v: Verdict, name: Seq<char>)
    ensures
        bucket(outcomes, v).contains(name) <==> exists|i: int|
            0 <= i < outcomes.len() && verdict(#[trigger] outcomes[i]) == v && outcomes[i].name()
                == name,
    decreases outcomes.len(),
{
    if outcomes.len() > 0 {
        let rest = outcomes.drop_last();
        let last = outcomes.last();
        lemma_bucket_members(rest, v, name);
        if bucket(outcomes, v).contains(name) {
            let k = choose|k: int| 0 <= k < bucket(outcomes, v).len() && bucket(outcomes, v)[k] == name;
            if verdict(last) == v && k == bucket(rest, v).len() {
                assert(verdict(outcomes[outcomes.len() - 1]) == v);
            } else {
                assert(bucket(rest, v)[k] == name);
                assert(bucket(rest, v).contains(name));
                let i = choose|i: int|
                    0 <= i < rest.len() && verdict(#[trigger] rest[i]) == v && rest[i].name()
                        == name;
                assert(outcomes[i] == rest[i]);
            }
        }
        if exists|i: int|
            0 <= i < outcomes.len() && verdict(#[trigger] outcomes[i]) == v && outcomes[i].name()
                == name {
            let i = choose|i: int|
                0 <= i < outcomes.len() && verdict(#[trigger] outcomes[i]) == v
                    && outcomes[i].name() == name;
            if i == outcomes.len() - 1 {
                let b = bucket(outcomes, v);
                assert(b[b.len() - 1] == name);
            } else {
                assert(rest[i] == outcomes[i]);
                assert(bucket(rest, v).contains(name));
                let k = choose|k: int| 0 <= k < bucket(rest, v).len() && bucket(rest, v)[k] == name;
                assert(bucket(outcomes, v)[k] == name);
            }
        }
    }
}

/// No two outcomes of the sequence bear the same name.
pub open spec fn names_distinct(outcomes: Seq<OutcomeView>) -> bool {
    forall|i: int, j: int|
        0 <= i < j < outcomes.len() ==> (#[trigger] outcomes[i]).name() != (
        #[trigger] outcomes[j]).name()
}

/// Where no two outcomes bear the same name, no name stands twice in a
/// bucket.
pub proof fn lemma_bucket_unique(outcomes: Seq<OutcomeView>, v: Verdict)
    requires
        names_distinct(outcomes),
    ensures
        bucket(outcomes, v).no_duplicates(),
    decreases outcomes.len(),
{
    if outcomes.len() > 0 {
        let rest = outcomes.drop_last();
        let last = outcomes.last();
        assert forall|i: int, j: int| 0 <= i < j < rest.len() implies (#[trigger] rest[i]).name()
            != (#[trigger] rest[j]).name() by {
            assert(rest[i] == outcomes[i] && rest[j] == outcomes[j]);
        }
        lemma_bucket_unique(rest, v);
        if verdict(last) == v {
            lemma_bucket_members(rest, v, last.name());
            if bucket(rest, v).contains(last.name()) {
                let i = choose|i: int|
                    0 <= i < rest.len() && verdict(#[trigger] rest[i]) == v && rest[i].name()
                        == last.name();
                assert(outcomes[i] == rest[i]);
                assert(outcomes[outcomes.len() - 1] == last);
            }
            let b = bucket(rest, v);
            assert forall|i: int, j: int|
                0 <= i < b.push(last.name()).len() && 0 <= j < b.push(last.name()).len() && i
                    != j implies b.push(last.name())[i] != b.push(last.name())[j] by {
                if i < b.len() && j < b.len() {
                } else if i < b.len() {
                    assert(b.contains(b[i]));
                } else {
                    assert(b.contains(b[j]));
                }
            }
        }
    }
}

/// Where no two outcomes bear the same name, no name stands in two
/// buckets.
pub proof fn lemma_buckets_disjoint(
    outcomes: Seq<OutcomeView>,
    v: Verdict,
    w: Verdict,
    name: Seq<char>,
)
    requires
        names_distinct(outcomes),
        v != w,
    ensures
        !(bucket(outcomes, v).contains(name) && bucket(outcomes, w).contains(name)),
{
    lemma_bucket_members(outcomes, v, name);
    lemma_bucket_members(outcomes, w, name);
    if bucket(outcomes, v).contains(name) && bucket(outcomes, w).contains(name) {
        let i = choose|i: int|
            0 <= i < outcomes.len() && verdict(#[trigger] outcomes[i]) == v && outcomes[i].name()
                == name;
        let j = choose|j: int|
            0 <= j < outcomes.len() && verdict(#[trigger] outcomes[j]) == w && outcomes[j].name()
                == name;
        if i < j {
            assert(outcomes[i].name() != outcomes[j].name());
        } else if j < i {
            assert(outcomes[j].name() != outcomes[i].name());
        }
    }
}

/// The order in which the tests end does not show in the report: two
/// sequences of the same outcomes give buckets of the same names.
pub proof fn lemma_aggregate_ignores_order(a: Seq<OutcomeView>, b: Seq<OutcomeView>, v: Verdict)
    requires
        a.to_set() == b.to_set(),
    ensures
        bucket(a, v).to_set() == bucket(b, v).to_set(),
{
    assert forall|name: Seq<char>| bucket(a, v).contains(name) <==> bucket(b, v).contains(
        name,
    ) by {
        lemma_bucket_members(a, v, name);
        lemma_bucket_members(b, v, name);
        if bucket(a, v).contains(name) {
            let i = choose|i: int|
                0 <= i < a.len() && verdict(#[trigger] a[i]) == v && a[i].name() == name;
            assert(a.to_set().contains(a[i]));
            assert(b.contains(a[i]));
            let j = choose|j: int| 0 <= j < b.len() && b[j] == a[i];
            assert(verdict(b[j]) == v);
        }
        if bucket(b, v).contains(name) {
            let i = choose|i: int|
                0 <= i < b.len() && verdict(#[trigger] b[i]) == v && b[i].name() == name;
            assert(b.to_set().contains(b[i]));
            assert(a.contains(b[i]));
            let j = choose|j: int| 0 <= j < a.len() && a[j] == b[i];
            assert(verdict(a[j]) == v);
        }
    }
    assert(bucket(a, v).to_set() =~= bucket(b, v).to_set());
}

} // verus!
