//! Edge trimming of byte strings, the basis of answer comparison.

use vstd::prelude::*;
use vstd::slice::slice_subrange;

verus! {

/// The four bytes that count as whitespace: tab, space, line feed and
/// carriage return.
pub open spec fn is_whitespace(c: u8) -> bool {
    c == 9 || c == 32 || c == 10 || c == 13
}

/// `s` without the run of whitespace at its front.
pub open spec fn trim_start(s: Seq<u8>) -> Seq<u8>
    decreases s.len(),
{
    if s.len() > 0 && is_whitespace(s.first()) {
        trim_start(s.drop_first())
    } else {
        s
    }
}

/// `s` without the run of whitespace at its back.
pub open spec fn trim_end(s: Seq<u8>) -> Seq<u8>
    decreases s.len(),
{
    if s.len() > 0 && is_whitespace(s.last()) {
        trim_end(s.drop_last())
    } else {
        s
    }
}

/// `s` without the runs of whitespace at both ends. Whitespace between
/// other bytes stays as it is.
pub open spec fn trimmed(s: Seq<u8>) -> Seq<u8> {
    trim_end(trim_start(s))
}

/// Every byte of `s` from `lo` up to `hi` is whitespace.
pub open spec fn all_whitespace(s: Seq<u8>, lo: int, hi: int) -> bool {
    forall|i: int| lo <= i < hi ==> is_whitespace(#[trigger] s[i])
}

/// Whether one byte is whitespace.
pub fn byte_is_whitespace(c: u8) -> (r: bool)
    ensures
        r == is_whitespace(c),
{
    c == 9 || c == 32 || c == 10 || c == 13
}

/// Dropping `k` leading whitespace bytes does not change what `trim_start`
/// gives.
pub proof fn lemma_trim_start_skips(s: Seq<u8>, k: int)
    requires
        0 <= k <= s.len(),
        all_whitespace(s, 0, k),
    ensures
        trim_start(s) == trim_start(s.subrange(k, s.len() as int)),
    decreases k,
{
    if k == 0 {
        assert(s.subrange(0, s.len() as int) =~= s);
    } else {
        assert(is_whitespace(s[0]));
        let t = s.drop_first();
        assert forall|i: int| 0 <= i < k - 1 implies is_whitespace(#[trigger] t[i]) by {
            assert(t[i] == s[i + 1]);
        }
        lemma_trim_start_skips(t, k - 1);
        assert(t.subrange(k - 1, t.len() as int) =~= s.subrange(k, s.len() as int));
    }
}

/// Dropping `s.len() - k` trailing whitespace bytes does not change what
/// `trim_end` gives.
pub proof fn lemma_trim_end_skips(s: Seq<u8>, k: int)
    requires
        0 <= k <= s.len(),
        all_whitespace(s, k, s.len() as int),
    ensures
        trim_end(s) == trim_end(s.subrange(0, k)),
    decreases s.len() - k,
{
    if k == s.len() {
        assert(s.subrange(0, k) =~= s);
    } else {
        assert(is_whitespace(s[s.len() - 1]));
        let t = s.drop_last();
        assert forall|i: int| k <= i < t.len() implies is_whitespace(#[trigger] t[i]) by {
            assert(t[i] == s[i]);
        }
        lemma_trim_end_skips(t, k);
        assert(t.subrange(0, k) =~= s.subrange(0, k));
    }
}

/// What `trimmed` cuts out of `s`: the range from the first byte that is
/// not whitespace to the last one, or nothing where every byte is
/// whitespace.
pub proof fn lemma_trimmed_is_subrange(s: Seq<u8>, first: int, last: int)
    requires
        0 <= first <= last < s.len(),
        all_whitespace(s, 0, first),
        all_whitespace(s, last + 1, s.len() as int),
        !is_whitespace(s[first]),
        !is_whitespace(s[last]),
    ensures
        trimmed(s) == s.subrange(first, last + 1),
{
    lemma_trim_start_skips(s, first);
    let t = s.subrange(first, s.len() as int);
    assert(t.first() == s[first]);
    assert(trim_start(t) == t);
    assert forall|i: int| last + 1 - first <= i < t.len() implies is_whitespace(#[trigger] t[i]) by {
        assert(t[i] == s[i + first]);
    }
    lemma_trim_end_skips(t, last + 1 - first);
    let u = t.subrange(0, last + 1 - first);
    assert(u =~= s.subrange(first, last + 1));
    assert(u.last() == s[last]);
    assert(trim_end(u) == u);
}

/// A byte string of whitespace alone trims to the empty string.
pub proof fn lemma_trimmed_of_whitespace(s: Seq<u8>)
    requires
        all_whitespace(s, 0, s.len() as int),
    ensures
        trimmed(s) == Seq::<u8>::empty(),
{
    lemma_trim_start_skips(s, s.len() as int);
    assert(s.subrange(s.len() as int, s.len() as int) =~= Seq::<u8>::empty());
}

/// `trim_start` leaves a suffix of `s` that is empty or begins with a byte
/// that is not whitespace.
pub proof fn lemma_trim_start_shape(s: Seq<u8>)
    ensures
        trim_start(s).len() <= s.len(),
        trim_start(s) == s.subrange(s.len() - trim_start(s).len(), s.len() as int),
        trim_start(s).len() == 0 || !is_whitespace(trim_start(s).first()),
    decreases s.len(),
{
    if s.len() > 0 && is_whitespace(s.first()) {
        let t = s.drop_first();
        lemma_trim_start_shape(t);
        let k = trim_start(t).len();
        assert(t.subrange(t.len() - k, t.len() as int) =~= s.subrange(s.len() - k, s.len() as int));
    } else {
        assert(s.subrange(0, s.len() as int) =~= s);
    }
}

/// `trim_end` leaves a prefix of `s` that is empty or ends with a byte that
/// is not whitespace.
pub proof fn lemma_trim_end_shape(s: Seq<u8>)
    ensures
        trim_end(s).len() <= s.len(),
        trim_end(s) == s.subrange(0, trim_end(s).len() as int),
        trim_end(s).len() == 0 || !is_whitespace(trim_end(s).last()),
    decreases s.len(),
{
    if s.len() > 0 && is_whitespace(s.last()) {
        let t = s.drop_last();
        lemma_trim_end_shape(t);
        let k = trim_end(t).len() as int;
        assert(t.subrange(0, k) =~= s.subrange(0, k));
    } else {
        assert(s.subrange(0, s.len() as int) =~= s);
    }
}

/// A trimmed byte string is empty, or both its first and its last byte are
/// not whitespace.
pub proof fn lemma_trimmed_edges(s: Seq<u8>)
    ensures
        trimmed(s).len() <= s.len(),
        trimmed(s).len() == 0 || (!is_whitespace(trimmed(s).first()) && !is_whitespace(
            trimmed(s).last(),
        )),
{
    lemma_trim_start_shape(s);
    lemma_trim_end_shape(trim_start(s));
}

/// Trimming is idempotent: a byte string that has been trimmed is left as
/// it is by trimming it again.
pub proof fn lemma_trim_idempotent(s: Seq<u8>)
    ensures
        trimmed(trimmed(s)) == trimmed(s),
{
    lemma_trimmed_edges(s);
}

/// The bytes that `trim_start` removes are all whitespace.
pub proof fn lemma_trim_start_removes_whitespace(s: Seq<u8>)
    ensures
        trim_start(s).len() <= s.len(),
        all_whitespace(s, 0, s.len() - trim_start(s).len()),
    decreases s.len(),
{
    if s.len() > 0 && is_whitespace(s.first()) {
        let t = s.drop_first();
        lemma_trim_start_removes_whitespace(t);
        assert forall|i: int| 0 <= i < s.len() - trim_start(s).len() implies is_whitespace(
            #[trigger] s[i],
        ) by {
            if i > 0 {
                assert(s[i] == t[i - 1]);
            }
        }
    }
}

/// Where `trim_start` leaves something of `s`, bytes behind `s` do not
/// change what it removes.
pub proof fn lemma_trim_start_before(s: Seq<u8>, back: Seq<u8>)
    requires
        trim_start(s).len() > 0,
    ensures
        trim_start(s + back) == trim_start(s) + back,
    decreases s.len(),
{
    assert((s + back).first() == s.first());
    if is_whitespace(s.first()) {
        assert((s + back).drop_first() =~= s.drop_first() + back);
        lemma_trim_start_before(s.drop_first(), back);
    }
}

/// Whitespace around a byte string does not show after trimming: `s` and
/// `s` between two runs of whitespace trim to the same bytes.
pub proof fn lemma_trim_ignores_padding(front: Seq<u8>, s: Seq<u8>, back: Seq<u8>)
    requires
        all_whitespace(front, 0, front.len() as int),
        all_whitespace(back, 0, back.len() as int),
    ensures
        trimmed(front + s + back) == trimmed(s),
{
    let padded = front + s + back;
    let f = front.len() as int;
    let kept = trim_start(s);
    if kept.len() == 0 {
        // `s` is whitespace throughout, and so is `padded`.
        lemma_trim_start_removes_whitespace(s);
        assert forall|i: int| 0 <= i < padded.len() implies is_whitespace(
            #[trigger] padded[i],
        ) by {
            if i < f {
                assert(padded[i] == front[i]);
            } else if i < f + s.len() {
                assert(padded[i] == s[i - f]);
            } else {
                assert(padded[i] == back[i - f - s.len()]);
            }
        }
        lemma_trimmed_of_whitespace(padded);
    } else {
        assert forall|i: int| 0 <= i < f implies is_whitespace(#[trigger] padded[i]) by {
            assert(padded[i] == front[i]);
        }
        lemma_trim_start_skips(padded, f);
        assert(padded.subrange(f, padded.len() as int) =~= s + back);
        lemma_trim_start_before(s, back);
        let rest = kept + back;
        assert forall|i: int| kept.len() <= i < rest.len() implies is_whitespace(
            #[trigger] rest[i],
        ) by {
            assert(rest[i] == back[i - kept.len()]);
        }
        lemma_trim_end_skips(rest, kept.len() as int);
        assert(rest.subrange(0, kept.len() as int) =~= kept);
    }
}

/// Trimming for byte strings.
pub trait SliceTrimExt {
    /// The part of `self` between its leading and its trailing whitespace.
    fn trim(&self) -> &Self;
}

impl SliceTrimExt for [u8] {
    fn trim(&self) -> (r: &[u8])
        ensures
            r@ == trimmed(self@),
    {
        let n = self.len();
        let mut first: usize = 0;
        while first < n && byte_is_whitespace(self[first])
            invariant
                n == self@.len(),
                first <= n,
                all_whitespace(self@, 0, first as int),
            decreases n - first,
        {
            first += 1;
        }
        if first == n {
            proof {
                lemma_trimmed_of_whitespace(self@);
            }
            return slice_subrange(self, 0, 0);
        }
        let mut last: usize = n - 1;
        while byte_is_whitespace(self[last])
            invariant
                n == self@.len(),
                first <= last < n,
                !is_whitespace(self@[first as int]),
                all_whitespace(self@, last + 1, n as int),
            decreases last,
        {
            last -= 1;
        }
        proof {
            lemma_trimmed_is_subrange(self@, first as int, last as int);
        }
        slice_subrange(self, first, last + 1)
    }
}

} // verus!
