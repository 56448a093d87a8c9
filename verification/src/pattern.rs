//! Searching and substituting in strings, by characters.

use vstd::prelude::*;
use vstd::string::*;

verus! {

/// `pat` stands in `s` at character offset `i`.
pub open spec fn occurs_at(s: Seq<char>, pat: Seq<char>, i: int) -> bool {
    0 <= i && i + pat.len() <= s.len() && s.subrange(i, i + pat.len()) == pat
}

/// The offset of the first occurrence of `pat` in `s` at or after `from`,
/// if there is one.
pub open spec fn first_from(s: Seq<char>, pat: Seq<char>, from: int) -> Option<int>
    decreases s.len() - from,
{
    if from < 0 || from + pat.len() > s.len() {
        None
    } else if occurs_at(s, pat, from) {
        Some(from)
    } else {
        proof {
            // An empty pattern occurs at every offset, so `pat` is not empty here.
            assert(pat.len() == 0 ==> s.subrange(from, from + pat.len()) =~= pat);
        }
        first_from(s, pat, from + 1)
    }
}

/// The offset of the first occurrence of `pat` in `s`, if there is one.
pub open spec fn first_occurrence(s: Seq<char>, pat: Seq<char>) -> Option<int> {
    first_from(s, pat, 0)
}

/// `s` from offset `from` on, with `to` in place of each occurrence of
/// `pat`. Occurrences are taken from left to right and do not overlap. An
/// empty `pat` is taken to occur nowhere.
pub open spec fn substituted_from(s: Seq<char>, pat: Seq<char>, to: Seq<char>, from: int) -> Seq<
    char,
>
    decreases s.len() - from,
{
    if from < 0 || from >= s.len() {
        Seq::empty()
    } else if pat.len() == 0 {
        s.subrange(from, s.len() as int)
    } else if occurs_at(s, pat, from) {
        to + substituted_from(s, pat, to, from + pat.len())
    } else {
        seq![s[from]] + substituted_from(s, pat, to, from + 1)
    }
}

/// `s` with `to` in place of each occurrence of `pat`.
pub open spec fn substituted(s: Seq<char>, pat: Seq<char>, to: Seq<char>) -> Seq<char> {
    substituted_from(s, pat, to, 0)
}

/// What `first_from` finds is an occurrence with none between `from` and
/// it; where it finds nothing, there is none at or after `from`.
pub proof fn lemma_first_from(s: Seq<char>, pat: Seq<char>, from: int)
    requires
        0 <= from,
    ensures
        match first_from(s, pat, from) {
            Some(i) => from <= i && occurs_at(s, pat, i) && forall|j: int|
                from <= j < i ==> !occurs_at(s, pat, j),
            None => forall|j: int| from <= j ==> !occurs_at(s, pat, j),
        },
    decreases s.len() - from,
{
    if from + pat.len() > s.len() {
    } else if occurs_at(s, pat, from) {
    } else {
        assert(pat.len() == 0 ==> s.subrange(from, from + pat.len()) =~= pat);
        lemma_first_from(s, pat, from + 1);
    }
}

/// An offset with an occurrence, and none between `from` and it, is what
/// `first_from` finds.
pub proof fn lemma_first_from_is(s: Seq<char>, pat: Seq<char>, from: int, i: int)
    requires
        0 <= from <= i,
        occurs_at(s, pat, i),
        forall|j: int| from <= j < i ==> !occurs_at(s, pat, j),
    ensures
        first_from(s, pat, from) == Some(i),
    decreases i - from,
{
    if from < i {
        assert(!occurs_at(s, pat, from));
        lemma_first_from_is(s, pat, from + 1, i);
    }
}

/// Where `pat` does not occur between `from` and `upto`, substitution
/// copies that stretch of `s`.
pub proof fn lemma_substituted_copies(
    s: Seq<char>,
    pat: Seq<char>,
    to: Seq<char>,
    from: int,
    upto: int,
)
    requires
        0 <= from <= upto <= s.len(),
        forall|j: int| from <= j < upto ==> !occurs_at(s, pat, j),
    ensures
        substituted_from(s, pat, to, from) == s.subrange(from, upto) + substituted_from(
            s,
            pat,
            to,
            upto,
        ),
    decreases upto - from,
{
    if from == upto {
        assert(s.subrange(from, upto) + substituted_from(s, pat, to, upto) =~= substituted_from(
            s,
            pat,
            to,
            upto,
        ));
    } else if pat.len() == 0 {
        if upto < s.len() {
            assert(s.subrange(from, s.len() as int) =~= s.subrange(from, upto) + s.subrange(
                upto,
                s.len() as int,
            ));
        } else {
            assert(s.subrange(from, upto) + Seq::<char>::empty() =~= s.subrange(from, upto));
        }
    } else {
        assert(!occurs_at(s, pat, from));
        lemma_substituted_copies(s, pat, to, from + 1, upto);
        assert(seq![s[from]] + (s.subrange(from + 1, upto) + substituted_from(s, pat, to, upto))
            =~= s.subrange(from, upto) + substituted_from(s, pat, to, upto));
    }
}

/// The characters of `s`, in a vector.
pub fn chars_of(s: &str) -> (v: Vec<char>)
    ensures
        v@ == s@,
{
    let mut v: Vec<char> = Vec::new();
    for c in it: s.chars()
        invariant
            v@ == it.seq().take(it.index() as int),
            it.seq() == s@,
    {
        v.push(c);
    }
    v
}

/// Whether `pat` stands in `s` at offset `i`.
fn matches_at(s: &Vec<char>, pat: &Vec<char>, i: usize) -> (r: bool)
    requires
        i + pat.len() <= s.len(),
    ensures
        r == occurs_at(s@, pat@, i as int),
{
    let m = pat.len();
    let mut k: usize = 0;
    while k < m
        invariant
            m == pat.len(),
            i + m <= s.len(),
            k <= m,
            forall|j: int| 0 <= j < k ==> s@[i + j] == pat@[j],
        decreases m - k,
    {
        if s[i + k] != pat[k] {
            proof {
                assert(s@.subrange(i as int, i + m)[k as int] == s@[i + k]);
            }
            return false;
        }
        k += 1;
    }
    proof {
        assert(s@.subrange(i as int, i + m) =~= pat@);
    }
    true
}

/// The first occurrence of `pat` in `s` at or after `from`.
fn find_in(s: &Vec<char>, pat: &Vec<char>, from: usize) -> (r: Option<usize>)
    ensures
        match r {
            Some(i) => first_from(s@, pat@, from as int) == Some(i as int) && from <= i && i
                + pat.len() <= s.len(),
            None => first_from(s@, pat@, from as int) is None,
        },
{
    let n = s.len();
    let m = pat.len();
    if m > n {
        return None;
    }
    let mut i: usize = from;
    while i <= n - m
        invariant
            n == s.len(),
            m == pat.len(),
            m <= n,
            from <= i,
            first_from(s@, pat@, from as int) == first_from(s@, pat@, i as int),
        decreases n - i,
    {
        if matches_at(s, pat, i) {
            return Some(i);
        }
        proof {
            assert(m == 0 ==> s@.subrange(i as int, i + m) =~= pat@);
        }
        i += 1;
    }
    None
}

/// The character offset of the first occurrence of `pat` in `s`.
pub fn find(s: &str, pat: &str) -> (r: Option<usize>)
    ensures
        match r {
            Some(i) => first_occurrence(s@, pat@) == Some(i as int) && i + pat@.len() <= s@.len(),
            None => first_occurrence(s@, pat@) is None,
        },
{
    let sc = chars_of(s);
    let pc = chars_of(pat);
    find_in(&sc, &pc, 0)
}

/// `s` with `to` in place of each occurrence of `pat`, taken from left to
/// right. An empty `pat` leaves `s` as it is.
pub fn substitute(s: &str, pat: &str, to: &str) -> (r: String)
    ensures
        r@ == substituted(s@, pat@, to@),
{
    let sc = chars_of(s);
    let pc = chars_of(pat);
    let n = sc.len();
    let m = pc.len();
    let mut out = String::new();
    let mut i: usize = 0;
    while i < n
        invariant
            sc@ == s@,
            pc@ == pat@,
            n == sc.len(),
            m == pc.len(),
            i <= n,
            out@ + substituted_from(s@, pat@, to@, i as int) == substituted(s@, pat@, to@),
        decreases n - i,
    {
        let next = if m == 0 {
            None
        } else {
            find_in(&sc, &pc, i)
        };
        match next {
            None => {
                proof {
                    if m > 0 {
                        lemma_first_from(s@, pat@, i as int);
                        lemma_substituted_copies(s@, pat@, to@, i as int, n as int);
                    }
                    assert(substituted_from(s@, pat@, to@, i as int) =~= s@.subrange(
                        i as int,
                        n as int,
                    ));
                    assert(out@ + s@.subrange(i as int, n as int) + substituted_from(
                        s@,
                        pat@,
                        to@,
                        n as int,
                    ) =~= out@ + s@.subrange(i as int, n as int));
                }
                out.append(s.substring_char(i, n));
                i = n;
            },
            Some(p) => {
                proof {
                    lemma_first_from(s@, pat@, i as int);
                    lemma_substituted_copies(s@, pat@, to@, i as int, p as int);
                    assert(out@ + s@.subrange(i as int, p as int) + to@ + substituted_from(
                        s@,
                        pat@,
                        to@,
                        p + m,
                    ) =~= out@ + (s@.subrange(i as int, p as int) + (to@ + substituted_from(
                        s@,
                        pat@,
                        to@,
                        p + m,
                    ))));
                }
                out.append(s.substring_char(i, p));
                out.append(to);
                i = p + m;
            },
        }
    }
    proof {
        assert(out@ + Seq::<char>::empty() =~= out@);
    }
    out
}

} // verus!
