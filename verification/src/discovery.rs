//! From a listing of input files to test cases.
//!
//! An input pattern such as `in/{task}{test}.in` names the input files of a
//! task. With the task name filled in, the text before the `{test}` slot
//! and the text after it are fixed; what a file name has between them is
//! the id of its test.

use crate::config::{
    task_slot, task_slot_text, test_slot, test_slot_text, RunConfig, RunConfigView,
};
use crate::error::{ConfigError, DiscoveryError, FatalError};
use crate::pattern::{
    find, first_occurrence, lemma_first_from, occurs_at, substitute, substituted,
};
use vstd::prelude::*;
use vstd::string::*;

verus! {

/// One test case: its id, the file with its input and the file with the
/// output that is expected of it.
#[derive(Debug)]
pub struct Test {
    pub name: String,
    pub in_file: String,
    pub out_file: String,
}

/// A `Test` as plain values.
pub struct TestView {
    pub name: Seq<char>,
    pub in_file: Seq<char>,
    pub out_file: Seq<char>,
}

impl View for Test {
    type V = TestView;

    open spec fn view(&self) -> TestView {
        TestView { name: self.name@, in_file: self.in_file@, out_file: self.out_file@ }
    }
}

impl Clone for Test {
    fn clone(&self) -> (r: Self)
        ensures
            r@ == self@,
    {
        Test {
            name: self.name.clone(),
            in_file: self.in_file.clone(),
            out_file: self.out_file.clone(),
        }
    }
}

/// The wildcard that a listing puts in place of the test id: `*`.
pub open spec fn wildcard() -> Seq<char> {
    seq!['*']
}

/// The input pattern with the task name filled in.
pub open spec fn input_pattern(c: RunConfigView) -> Seq<char> {
    substituted(c.in_pattern, task_slot(), c.task)
}

/// The offset of the `{test}` slot in a pattern, if it has one.
pub open spec fn slot_offset(p: Seq<char>) -> Option<int> {
    first_occurrence(p, test_slot())
}

/// The pattern's fixed text before the slot at `pos`.
pub open spec fn head(p: Seq<char>, pos: int) -> Seq<char> {
    p.subrange(0, pos)
}

/// The pattern's fixed text after the slot at `pos`.
pub open spec fn tail(p: Seq<char>, pos: int) -> Seq<char> {
    p.subrange(pos + test_slot().len(), p.len() as int)
}

/// `path` is long enough to hold the fixed text of `p` around the slot at
/// `pos`.
pub open spec fn path_fits(p: Seq<char>, pos: int, path: Seq<char>) -> bool {
    head(p, pos).len() + tail(p, pos).len() <= path.len()
}

/// The test id that `path` holds: what stands between the offset of the
/// slot and the last `tail(p, pos).len()` characters.
pub open spec fn test_id(p: Seq<char>, pos: int, path: Seq<char>) -> Seq<char> {
    path.subrange(pos, path.len() - tail(p, pos).len())
}

/// The output file of the test `id`: the output pattern with the task name
/// filled in first, and then the id.
pub open spec fn output_path(c: RunConfigView, id: Seq<char>) -> Seq<char> {
    substituted(substituted(c.out_pattern, task_slot(), c.task), test_slot(), id)
}

/// The test case that the input file `path` stands for.
pub open spec fn test_for(c: RunConfigView, pos: int, path: Seq<char>) -> TestView {
    let id = test_id(input_pattern(c), pos, path);
    TestView { name: id, in_file: path, out_file: output_path(c, id) }
}

/// The index of the first path at or after `from` that does not fit the
/// pattern, if there is one.
pub open spec fn first_misfit(p: Seq<char>, pos: int, paths: Seq<Seq<char>>, from: int) -> Option<
    int,
>
    decreases paths.len() - from,
{
    if from < 0 || from >= paths.len() {
        None
    } else if !path_fits(p, pos, paths[from]) {
        Some(from)
    } else {
        first_misfit(p, pos, paths, from + 1)
    }
}

/// What discovery makes of a listing: one test case for each path, in the
/// order of the listing. It fails where the pattern has no `{test}` slot,
/// whatever the listing holds, and at the first path that does not fit.
pub open spec fn discovered(c: RunConfigView, paths: Seq<Seq<char>>) -> Result<
    Seq<TestView>,
    FatalError,
> {
    let p = input_pattern(c);
    match slot_offset(p) {
        None => Err(FatalError::Config(ConfigError::MissingTestSlot)),
        Some(pos) => match first_misfit(p, pos, paths, 0) {
            Some(i) => Err(
                FatalError::Discovery(DiscoveryError::PathTooShort { index: i as usize }),
            ),
            None => Ok(Seq::new(paths.len(), |i: int| test_for(c, pos, paths[i]))),
        },
    }
}

/// The pattern to list the input files with: the input pattern with the
/// task name filled in and `*` in place of the test id.
pub open spec fn listing_pattern(c: RunConfigView) -> Result<Seq<char>, ConfigError> {
    let p = input_pattern(c);
    if slot_offset(p) is Some {
        Ok(substituted(p, test_slot(), wildcard()))
    } else {
        Err(ConfigError::MissingTestSlot)
    }
}

/// The views of a vector of paths.
pub open spec fn path_views(paths: Seq<String>) -> Seq<Seq<char>> {
    Seq::new(paths.len(), |i: int| paths[i]@)
}

/// The views of a vector of test cases.
pub open spec fn test_views(tests: Seq<Test>) -> Seq<TestView> {
    Seq::new(tests.len(), |i: int| tests[i]@)
}

/// The text `*`.
fn wildcard_text() -> (r: &'static str)
    ensures
        r@ == wildcard(),
{
    let r = "*";
    proof {
        reveal_strlit("*");
        assert(r@ =~= wildcard());
    }
    r
}

/// The pattern to list the input files of the task with. It is an error
/// for the input pattern to have no `{test}` slot.
pub fn glob_pattern(config: &RunConfig) -> (r: Result<String, ConfigError>)
    ensures
        match r {
            Ok(g) => listing_pattern(config@) == Ok::<Seq<char>, ConfigError>(g@),
            Err(e) => listing_pattern(config@) == Err::<Seq<char>, ConfigError>(e),
        },
{
    let p = substitute(config.in_pattern.as_str(), task_slot_text(), config.task.as_str());
    match find(p.as_str(), test_slot_text()) {
        None => Err(ConfigError::MissingTestSlot),
        Some(_) => Ok(substitute(p.as_str(), test_slot_text(), wildcard_text())),
    }
}

/// Where no path from `from` up to `upto` is a misfit, the search for one
/// may start at `upto`.
proof fn lemma_first_misfit_skips(
    p: Seq<char>,
    pos: int,
    paths: Seq<Seq<char>>,
    from: int,
    upto: int,
)
    requires
        0 <= from <= upto <= paths.len(),
        forall|j: int| from <= j < upto ==> path_fits(p, pos, #[trigger] paths[j]),
    ensures
        first_misfit(p, pos, paths, from) == first_misfit(p, pos, paths, upto),
    decreases upto - from,
{
    if from < upto {
        assert(path_fits(p, pos, paths[from]));
        lemma_first_misfit_skips(p, pos, paths, from + 1, upto);
    }
}

/// `path` is the pattern `p` with some text in place of the slot at `pos`:
/// it begins with the head of the pattern and ends with its tail, and the
/// two do not overlap.
pub open spec fn matches_pattern(p: Seq<char>, pos: int, path: Seq<char>) -> bool {
    &&& path_fits(p, pos, path)
    &&& path.subrange(0, pos) == head(p, pos)
    &&& path.subrange(path.len() - tail(p, pos).len(), path.len() as int) == tail(p, pos)
}

/// No two paths of the listing are the same.
pub open spec fn paths_distinct(paths: Seq<Seq<char>>) -> bool {
    forall|i: int, j: int|
        0 <= i < j < paths.len() ==> #[trigger] paths[i] != #[trigger] paths[j]
}

/// A pattern that holds no `{test}` slot at any offset is refused, both
/// when the listing pattern is asked for and when tests are to be made of
/// a listing, whatever the listing holds.
pub proof fn lemma_missing_slot_is_refused(c: RunConfigView, paths: Seq<Seq<char>>)
    requires
        forall|i: int| !occurs_at(input_pattern(c), test_slot(), i),
    ensures
        listing_pattern(c) == Err::<Seq<char>, ConfigError>(ConfigError::MissingTestSlot),
        discovered(c, paths) == Err::<Seq<TestView>, FatalError>(
            FatalError::Config(ConfigError::MissingTestSlot),
        ),
{
    lemma_first_from(input_pattern(c), test_slot(), 0);
}

/// A pattern that holds a `{test}` slot is never refused for its
/// configuration.
pub proof fn lemma_slot_is_found(c: RunConfigView, paths: Seq<Seq<char>>, i: int)
    requires
        occurs_at(input_pattern(c), test_slot(), i),
    ensures
        listing_pattern(c) is Ok,
        discovered(c, paths) != Err::<Seq<TestView>, FatalError>(
            FatalError::Config(ConfigError::MissingTestSlot),
        ),
{
    lemma_first_from(input_pattern(c), test_slot(), 0);
}

/// The id is read back from a path that was made of it: the pattern's
/// head, then `id`, then the pattern's tail.
pub proof fn lemma_test_id_recovered(p: Seq<char>, pos: int, id: Seq<char>)
    requires
        slot_offset(p) == Some(pos),
    ensures
        matches_pattern(p, pos, head(p, pos) + id + tail(p, pos)),
        test_id(p, pos, head(p, pos) + id + tail(p, pos)) == id,
{
    lemma_first_from(p, test_slot(), 0);
    let path = head(p, pos) + id + tail(p, pos);
    assert(path.subrange(0, pos) =~= head(p, pos));
    assert(path.subrange(path.len() - tail(p, pos).len(), path.len() as int) =~= tail(p, pos));
    assert(path.subrange(pos, path.len() - tail(p, pos).len()) =~= id);
}

/// Two paths that match the pattern and hold the same id are the same
/// path.
pub proof fn lemma_same_id_same_path(p: Seq<char>, pos: int, a: Seq<char>, b: Seq<char>)
    requires
        slot_offset(p) == Some(pos),
        matches_pattern(p, pos, a),
        matches_pattern(p, pos, b),
        test_id(p, pos, a) == test_id(p, pos, b),
    ensures
        a == b,
{
    lemma_first_from(p, test_slot(), 0);
    let t = tail(p, pos).len() as int;
    assert(a =~= a.subrange(0, pos) + a.subrange(pos, a.len() - t) + a.subrange(
        a.len() - t,
        a.len() as int,
    ));
    assert(b =~= b.subrange(0, pos) + b.subrange(pos, b.len() - t) + b.subrange(
        b.len() - t,
        b.len() as int,
    ));
}

/// A listing of paths that all fit the pattern has no misfit.
proof fn lemma_no_misfit(p: Seq<char>, pos: int, paths: Seq<Seq<char>>, from: int)
    requires
        0 <= from,
        forall|i: int| 0 <= i < paths.len() ==> path_fits(p, pos, #[trigger] paths[i]),
    ensures
        first_misfit(p, pos, paths, from) is None,
    decreases paths.len() - from,
{
    if from < paths.len() {
        assert(path_fits(p, pos, paths[from]));
        lemma_no_misfit(p, pos, paths, from + 1);
    }
}

/// Discovery is one to one: for a pattern with a `{test}` slot and a
/// listing of distinct paths that all match it, there is one test case for
/// each path, and no two of them have the same id.
pub proof fn lemma_discovery_is_one_to_one(c: RunConfigView, pos: int, paths: Seq<Seq<char>>)
    requires
        slot_offset(input_pattern(c)) == Some(pos),
        forall|i: int|
            0 <= i < paths.len() ==> matches_pattern(input_pattern(c), pos, #[trigger] paths[i]),
        paths_distinct(paths),
    ensures
        discovered(c, paths) matches Ok(tests) && tests.len() == paths.len() && (forall|i: int|
            0 <= i < tests.len() ==> (#[trigger] tests[i]).in_file == paths[i]) && (forall|
            i: int,
            j: int,
        |
            0 <= i < j < tests.len() ==> (#[trigger] tests[i]).name != (#[trigger] tests[j]).name),
{
    let p = input_pattern(c);
    lemma_no_misfit(p, pos, paths, 0);
    let tests = discovered(c, paths)->Ok_0;
    assert forall|i: int, j: int| 0 <= i < j < tests.len() implies (#[trigger] tests[i]).name != (
    #[trigger] tests[j]).name by {
        if tests[i].name == tests[j].name {
            lemma_same_id_same_path(p, pos, paths[i], paths[j]);
        }
    }
}

/// The test cases of a listing of input files, one for each path and in
/// the order of the listing.
///
/// The id of a test is what its path holds at the offset of the `{test}`
/// slot, up to the text that the pattern has after the slot. The listing
/// is expected to hold the matches of `glob_pattern`.
pub fn get_tests(config: &RunConfig, paths: &Vec<String>) -> (r: Result<Vec<Test>, FatalError>)
    ensures
        match r {
            Ok(tests) => discovered(config@, path_views(paths@)) == Ok::<
                Seq<TestView>,
                FatalError,
            >(test_views(tests@)),
            Err(e) => discovered(config@, path_views(paths@)) == Err::<Seq<TestView>, FatalError>(
                e,
            ),
        },
{
    let p = substitute(config.in_pattern.as_str(), task_slot_text(), config.task.as_str());
    let pos = match find(p.as_str(), test_slot_text()) {
        None => {
            return Err(FatalError::Config(ConfigError::MissingTestSlot));
        },
        Some(pos) => pos,
    };
    let tail_len = p.as_str().unicode_len() - pos - test_slot_text().unicode_len();
    let fixed_len = pos + tail_len;
    let out_base = substitute(config.out_pattern.as_str(), task_slot_text(), config.task.as_str());
    let ghost views = path_views(paths@);
    let mut tests: Vec<Test> = Vec::new();
    let mut i: usize = 0;
    while i < paths.len()
        invariant
            i <= paths.len(),
            views == path_views(paths@),
            p@ == input_pattern(config@),
            slot_offset(p@) == Some(pos as int),
            pos + test_slot().len() + tail_len == p@.len(),
            fixed_len == pos + tail_len,
            tail_len == tail(p@, pos as int).len(),
            out_base@ == substituted(config@.out_pattern, task_slot(), config@.task),
            tests.len() == i,
            forall|j: int| 0 <= j < i ==> path_fits(p@, pos as int, #[trigger] views[j]),
            forall|j: int| 0 <= j < i ==> (#[trigger] tests[j])@ == test_for(
                config@,
                pos as int,
                views[j],
            ),
        decreases paths.len() - i,
    {
        let path = &paths[i];
        let n = path.as_str().unicode_len();
        assert(path@ == views[i as int]);
        if n < fixed_len {
            proof {
                lemma_first_misfit_skips(p@, pos as int, views, 0, i as int);
            }
            return Err(FatalError::Discovery(DiscoveryError::PathTooShort { index: i }));
        }
        let name = path.as_str().substring_char(pos, n - tail_len).to_owned();
        let out_file = substitute(out_base.as_str(), test_slot_text(), name.as_str());
        tests.push(Test { name, in_file: path.clone(), out_file });
        i += 1;
    }
    proof {
        lemma_first_misfit_skips(p@, pos as int, views, 0, views.len() as int);
        assert(test_views(tests@) =~= Seq::new(
            views.len(),
            |j: int| test_for(config@, pos as int, views[j]),
        ));
    }
    Ok(tests)
}

} // verus!
