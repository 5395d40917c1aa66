use vstd::prelude::*;

verus! {

/// `pat` occurs in `s` starting at position `i`.
pub open spec fn match_at(s: Seq<char>, pat: Seq<char>, i: int) -> bool {
    &&& 0 <= i
    &&& i + pat.len() <= s.len()
    &&& s.subrange(i, i + pat.len() as int) == pat
}

/// `pat` occurs somewhere in `s`.
pub open spec fn contains_seq(s: Seq<char>, pat: Seq<char>) -> bool {
    exists|i: int| match_at(s, pat, i)
}

/// The position of the first occurrence of `pat` in `s` at or after `i`,
/// if there is one.
pub open spec fn first_match_from(s: Seq<char>, pat: Seq<char>, i: int) -> Option<int>
    decreases s.len() - i,
{
    if i < 0 || i + pat.len() > s.len() {
        None
    } else if pat.len() == 0 {
        Some(i)
    } else if match_at(s, pat, i) {
        Some(i)
    } else {
        first_match_from(s, pat, i + 1)
    }
}

/// What `first_match_from` returns: the first occurrence at or after `lo`,
/// or nothing when no occurrence starts at or after `lo`.
pub proof fn lemma_first_match_from(s: Seq<char>, pat: Seq<char>, lo: int)
    requires
        lo >= 0,
    ensures
        match first_match_from(s, pat, lo) {
            Some(i) => lo <= i && match_at(s, pat, i)
                && forall|j: int| lo <= j < i ==> !match_at(s, pat, j),
            None => forall|j: int| j >= lo ==> !match_at(s, pat, j),
        },
    decreases s.len() - lo,
{
    if lo + pat.len() > s.len() {
        assert(forall|j: int| j >= lo ==> !match_at(s, pat, j));
    } else if pat.len() == 0 {
        assert(s.subrange(lo, lo) =~= pat);
        assert(match_at(s, pat, lo));
    } else if match_at(s, pat, lo) {
    } else {
        lemma_first_match_from(s, pat, lo + 1);
    }
}

/// If `pat` occurs at `e` and nowhere in `[lo, e)`, then `e` is the first
/// occurrence at or after `lo`.
pub proof fn lemma_first_match_is(s: Seq<char>, pat: Seq<char>, lo: int, e: int)
    requires
        0 <= lo <= e,
        match_at(s, pat, e),
        forall|j: int| lo <= j < e ==> !match_at(s, pat, j),
    ensures
        first_match_from(s, pat, lo) == Some(e),
{
    lemma_first_match_from(s, pat, lo);
    match first_match_from(s, pat, lo) {
        Some(i) => {
            if i < e {
                assert(!match_at(s, pat, i));
            }
            if i > e {
                assert(!match_at(s, pat, e));
            }
        },
        None => {
            assert(!match_at(s, pat, e));
        },
    }
}

/// A character-wise test of whether `pat` occurs in `s` at position `i`.
pub fn match_at_exec(s: &str, pat: &str, i: usize) -> (r: bool)
    ensures
        r == match_at(s@, pat@, i as int),
{
    let n = s.unicode_len();
    let m = pat.unicode_len();
    if m > n || i > n - m {
        assert(!match_at(s@, pat@, i as int));
        return false;
    }
    let mut j: usize = 0;
    while j < m
        invariant
            0 <= j <= m,
            n == s@.len(),
            m == pat@.len(),
            m <= n,
            i <= n - m,
            forall|k: int| 0 <= k < j ==> s@[i + k] == pat@[k],
        decreases m - j,
    {
        let cs = s.get_char(i + j);
        let cp = pat.get_char(j);
        if cs != cp {
            assert(!match_at(s@, pat@, i as int)) by {
                if match_at(s@, pat@, i as int) {
                    assert(s@.subrange(i as int, i + pat@.len() as int)[j as int] == pat@[j as int]);
                }
            }
            return false;
        }
        j = j + 1;
    }
    assert(s@.subrange(i as int, i + pat@.len() as int) =~= pat@);
    true
}

/// The first occurrence of `pat` in `s` at or after `lo`, as `first_match_from`
/// describes it.
pub fn find_from(s: &str, pat: &str, lo: usize) -> (r: Option<usize>)
    ensures
        match r {
            Some(i) => first_match_from(s@, pat@, lo as int) == Some(i as int),
            None => first_match_from(s@, pat@, lo as int) is None,
        },
{
    let n = s.unicode_len();
    let m = pat.unicode_len();
    if m > n || lo > n - m {
        return None;
    }
    let mut i: usize = lo;
    while i <= n - m
        invariant
            lo <= i,
            n == s@.len(),
            m == pat@.len(),
            m <= n,
            i <= n,
            first_match_from(s@, pat@, lo as int) == first_match_from(s@, pat@, i as int),
        decreases n - i,
    {
        if match_at_exec(s, pat, i) {
            return Some(i);
        }
        assert(pat@.len() > 0) by {
            if pat@.len() == 0 {
                assert(s@.subrange(i as int, i as int) =~= pat@);
            }
        }
        i = i + 1;
    }
    assert(first_match_from(s@, pat@, i as int) is None);
    None
}

/// Whether `pat` occurs anywhere in `s`.
pub fn contains_exec(s: &str, pat: &str) -> (r: bool)
    ensures
        r == contains_seq(s@, pat@),
{
    proof {
        lemma_first_match_from(s@, pat@, 0);
    }
    match find_from(s, pat, 0) {
        Some(_) => true,
        None => {
            assert(forall|j: int| match_at(s@, pat@, j) ==> j >= 0);
            false
        },
    }
}

/// Character-wise string equality.
pub fn str_eq(a: &str, b: &str) -> (r: bool)
    ensures
        r == (a@ == b@),
{
    let n = a.unicode_len();
    if n != b.unicode_len() {
        return false;
    }
    let mut i: usize = 0;
    while i < n
        invariant
            0 <= i <= n,
            n == a@.len(),
            n == b@.len(),
            forall|k: int| 0 <= k < i ==> a@[k] == b@[k],
        decreases n - i,
    {
        if a.get_char(i) != b.get_char(i) {
            assert(a@ != b@);
            return false;
        }
        i = i + 1;
    }
    assert(a@ =~= b@);
    true
}

/// Whether `s` begins with `pre`.
pub fn starts_with_exec(s: &str, pre: &str) -> (r: bool)
    ensures
        r == match_at(s@, pre@, 0),
{
    match_at_exec(s, pre, 0)
}

/// The segment of `s` between positions `from` and `to`.
pub fn segment(s: &str, from: usize, to: usize) -> (r: String)
    requires
        from <= to <= s@.len(),
    ensures
        r@ == s@.subrange(from as int, to as int),
{
    let t = s.substring_char(from, to);
    t.to_owned()
}

/// True iff every character of `s` is an ASCII whitespace character, so that a
/// field made only of spaces counts as missing, as `str::trim` would see it.
pub open spec fn spec_blank(s: Seq<char>) -> bool {
    forall|i: int| 0 <= i < s.len() ==> (s[i] == ' ' || s[i] == '\t' || s[i] == '\n' || s[i] == '\r')
}

/// Whether `s` is empty or consists only of ASCII whitespace.
pub fn is_blank(s: &str) -> (r: bool)
    ensures
        r == spec_blank(s@),
{
    let n = s.unicode_len();
    let mut i: usize = 0;
    while i < n
        invariant
            0 <= i <= n,
            n == s@.len(),
            forall|j: int| 0 <= j < i ==> (s@[j] == ' ' || s@[j] == '\t' || s@[j] == '\n' || s@[j] == '\r'),
        decreases n - i,
    {
        let c = s.get_char(i);
        if !(c == ' ' || c == '\t' || c == '\n' || c == '\r') {
            return false;
        }
        i = i + 1;
    }
    true
}

}
