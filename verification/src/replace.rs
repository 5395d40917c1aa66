use vstd::prelude::*;
use crate::text::{match_at, contains_seq};

verus! {

/// Literal replacement of `pat` by `val` in `s`: scan left to right, replace
/// each non-overlapping occurrence, and do not rescan replaced text. An empty
/// pattern replaces nothing.
pub open spec fn spec_replace(s: Seq<char>, pat: Seq<char>, val: Seq<char>) -> Seq<char>
    decreases s.len(),
{
    if pat.len() == 0 || s.len() < pat.len() {
        s
    } else if s.subrange(0, pat.len() as int) == pat {
        val + spec_replace(s.subrange(pat.len() as int, s.len() as int), pat, val)
    } else {
        seq![s[0]] + spec_replace(s.subrange(1, s.len() as int), pat, val)
    }
}

/// Replace every occurrence of `pat` in `s` by `val`, leftmost first,
/// without rescanning replaced text.
pub fn replace_all(s: &str, pat: &str, val: &str) -> (r: String)
    ensures
        r@ == spec_replace(s@, pat@, val@),
{
    let n = s.unicode_len();
    let m = pat.unicode_len();
    if m == 0 {
        return s.to_owned();
    }
    let mut out = String::new();
    let mut i: usize = 0;
    proof {
        assert(s@.subrange(0, n as int) =~= s@);
        assert(Seq::<char>::empty() + spec_replace(s@, pat@, val@) =~= spec_replace(s@, pat@, val@));
    }
    while i < n
        invariant
            0 <= i <= n,
            n == s@.len(),
            m == pat@.len(),
            m >= 1,
            spec_replace(s@, pat@, val@) == out@ + spec_replace(
                s@.subrange(i as int, n as int),
                pat@,
                val@,
            ),
        decreases n - i,
    {
        let ghost sub = s@.subrange(i as int, n as int);
        if crate::text::match_at_exec(s, pat, i) {
            out.append(val);
            proof {
                assert(sub.subrange(0, m as int) =~= s@.subrange(i as int, i + m as int));
                assert(sub.subrange(m as int, sub.len() as int) =~= s@.subrange(
                    i + m as int,
                    n as int,
                ));
                assert(spec_replace(sub, pat@, val@) == val@ + spec_replace(
                    s@.subrange(i + m as int, n as int),
                    pat@,
                    val@,
                ));
            }
            i = i + m;
        } else {
            let piece = s.substring_char(i, i + 1);
            out.append(piece);
            proof {
                assert(sub.len() >= 1);
                if sub.len() >= m {
                    assert(sub.subrange(0, m as int) =~= s@.subrange(i as int, i + m as int));
                    assert(sub.subrange(0, m as int) != pat@);
                }
                assert(sub.subrange(1, sub.len() as int) =~= s@.subrange(i + 1, n as int));
                assert(seq![sub[0]] =~= s@.subrange(i as int, i + 1));
                if sub.len() < m {
                    assert(spec_replace(s@.subrange(i + 1, n as int), pat@, val@) =~= s@.subrange(
                        i + 1,
                        n as int,
                    ));
                    assert(spec_replace(sub, pat@, val@) =~= seq![sub[0]] + spec_replace(
                        s@.subrange(i + 1, n as int),
                        pat@,
                        val@,
                    ));
                } else {
                    assert(spec_replace(sub, pat@, val@) == seq![sub[0]] + spec_replace(
                        s@.subrange(i + 1, n as int),
                        pat@,
                        val@,
                    ));
                }
            }
            i = i + 1;
        }
    }
    proof {
        assert(s@.subrange(i as int, n as int) =~= Seq::<char>::empty());
        assert(spec_replace(s@.subrange(i as int, n as int), pat@, val@) =~= Seq::<char>::empty());
    }
    out
}

/// No character of `a` occurs in `b`.
pub open spec fn char_disjoint(a: Seq<char>, b: Seq<char>) -> bool {
    forall|i: int, j: int| 0 <= i < a.len() && 0 <= j < b.len() ==> a[i] != b[j]
}

/// If the replaced text begins with `piece`, whose characters are disjoint
/// from the inserted value, then the original text already began with `piece`:
/// replacement can only put value characters at the start of new material.
pub proof fn lemma_replace_starts(s: Seq<char>, q: Seq<char>, val: Seq<char>, piece: Seq<char>)
    requires
        q.len() >= 1,
        val.len() >= 1,
        piece.len() >= 1,
        char_disjoint(piece, val),
        match_at(spec_replace(s, q, val), piece, 0),
    ensures
        match_at(s, piece, 0),
    decreases s.len(),
{
    let r = spec_replace(s, q, val);
    let l = piece.len() as int;
    assert(r.subrange(0, l)[0] == piece[0]);
    if s.len() < q.len() {
    } else if s.subrange(0, q.len() as int) == q {
        let rr = spec_replace(s.subrange(q.len() as int, s.len() as int), q, val);
        assert(r == val + rr);
        assert(r[0] == val[0]);
        assert(false);
    } else {
        let t = s.subrange(1, s.len() as int);
        let rr = spec_replace(t, q, val);
        assert(r == seq![s[0]] + rr);
        assert(piece[0] == r[0]);
        assert(r[0] == s[0]);
        if l == 1 {
            assert(s.subrange(0, 1) =~= piece);
        } else {
            let piece2 = piece.subrange(1, l);
            assert(match_at(rr, piece2, 0)) by {
                assert(forall|x: int| 0 <= x < l - 1 ==> #[trigger] rr.subrange(0, l - 1)[x] == r.subrange(0, l)[x + 1]);
                assert(rr.subrange(0, l - 1) =~= piece2);
            }
            assert(char_disjoint(piece2, val)) by {
                assert(forall|i: int, j: int| 0 <= i < piece2.len() && 0 <= j < val.len() ==> #[trigger] piece2[i] != #[trigger] val[j]);
            }
            lemma_replace_starts(t, q, val, piece2);
            assert(t.subrange(0, l - 1) == piece2);
            assert(forall|x: int| 1 <= x < l ==> #[trigger] s.subrange(0, l)[x] == t.subrange(0, l - 1)[x - 1]);
            assert(s.subrange(0, l)[0] == piece[0]);
            assert(s.subrange(0, l) =~= piece);
        }
    }
}

/// After replacing `pat` by a nonempty value that shares no character with
/// `pat`, no occurrence of `pat` remains: every occurrence is substituted and
/// the substitution does not reassemble the pattern.
pub proof fn lemma_replace_removes(s: Seq<char>, pat: Seq<char>, val: Seq<char>)
    requires
        pat.len() >= 1,
        val.len() >= 1,
        char_disjoint(pat, val),
    ensures
        !contains_seq(spec_replace(s, pat, val), pat),
    decreases s.len(),
{
    let r = spec_replace(s, pat, val);
    let m = pat.len() as int;
    let v = val.len() as int;
    if s.len() < pat.len() {
        assert(forall|i: int| !match_at(r, pat, i));
    } else if s.subrange(0, m) == pat {
        let t = s.subrange(m, s.len() as int);
        let rr = spec_replace(t, pat, val);
        lemma_replace_removes(t, pat, val);
        assert(r == val + rr);
        if contains_seq(r, pat) {
            let kk = choose|kk: int| match_at(r, pat, kk);
            assert(r.subrange(kk, kk + m)[0] == pat[0]);
            if kk < v {
                assert(r[kk] == val[kk]);
                assert(false);
            } else {
                assert(match_at(rr, pat, kk - v)) by {
                    assert(forall|x: int| 0 <= x < m ==> #[trigger] rr.subrange(kk - v, kk - v + m)[x] == r.subrange(kk, kk + m)[x]);
                    assert(rr.subrange(kk - v, kk - v + m) =~= pat);
                }
                assert(false);
            }
        }
    } else {
        let t = s.subrange(1, s.len() as int);
        let rr = spec_replace(t, pat, val);
        lemma_replace_removes(t, pat, val);
        assert(r == seq![s[0]] + rr);
        if contains_seq(r, pat) {
            let kk = choose|kk: int| match_at(r, pat, kk);
            if kk >= 1 {
                assert(match_at(rr, pat, kk - 1)) by {
                    assert(forall|x: int| 0 <= x < m ==> #[trigger] rr.subrange(kk - 1, kk - 1 + m)[x] == r.subrange(kk, kk + m)[x]);
                    assert(rr.subrange(kk - 1, kk - 1 + m) =~= pat);
                }
                assert(false);
            } else {
                assert(r.subrange(0, m)[0] == pat[0]);
                assert(r[0] == s[0]);
                if m == 1 {
                    assert(s.subrange(0, 1) =~= pat);
                    assert(false);
                } else {
                    let piece2 = pat.subrange(1, m);
                    assert(match_at(rr, piece2, 0)) by {
                        assert(forall|x: int| 0 <= x < m - 1 ==> #[trigger] rr.subrange(0, m - 1)[x] == r.subrange(0, m)[x + 1]);
                        assert(rr.subrange(0, m - 1) =~= piece2);
                    }
                    assert(char_disjoint(piece2, val)) by {
                        assert(forall|i: int, j: int| 0 <= i < piece2.len() && 0 <= j < val.len() ==> #[trigger] piece2[i] != #[trigger] val[j]);
                    }
                    lemma_replace_starts(t, pat, val, piece2);
                    assert(t.subrange(0, m - 1) == piece2);
                    assert(forall|x: int| 1 <= x < m ==> #[trigger] s.subrange(0, m)[x] == t.subrange(0, m - 1)[x - 1]);
                    assert(s.subrange(0, m)[0] == pat[0]);
                    assert(s.subrange(0, m) =~= pat);
                    assert(false);
                }
            }
        }
    }
}

/// Replacing `q` by a value whose characters are disjoint from an absent
/// pattern `p` cannot introduce an occurrence of `p`.
pub proof fn lemma_replace_preserves_absent(
    s: Seq<char>,
    q: Seq<char>,
    val: Seq<char>,
    p: Seq<char>,
)
    requires
        q.len() >= 1,
        val.len() >= 1,
        p.len() >= 1,
        char_disjoint(p, val),
        !contains_seq(s, p),
    ensures
        !contains_seq(spec_replace(s, q, val), p),
    decreases s.len(),
{
    let r = spec_replace(s, q, val);
    let m = p.len() as int;
    let v = val.len() as int;
    if s.len() < q.len() {
    } else if s.subrange(0, q.len() as int) == q {
        let t = s.subrange(q.len() as int, s.len() as int);
        assert(!contains_seq(t, p)) by {
            if contains_seq(t, p) {
                let w = choose|w: int| match_at(t, p, w);
                assert(match_at(s, p, w + q.len())) by {
                    assert(forall|x: int| 0 <= x < m ==> #[trigger] s.subrange(w + q.len() as int, w + q.len() + m)[x] == t.subrange(w, w + m)[x]);
                    assert(s.subrange(w + q.len(), w + q.len() + m) =~= p);
                }
            }
        }
        let rr = spec_replace(t, q, val);
        lemma_replace_preserves_absent(t, q, val, p);
        assert(r == val + rr);
        if contains_seq(r, p) {
            let kk = choose|kk: int| match_at(r, p, kk);
            assert(r.subrange(kk, kk + m)[0] == p[0]);
            if kk < v {
                assert(r[kk] == val[kk]);
                assert(false);
            } else {
                assert(match_at(rr, p, kk - v)) by {
                    assert(forall|x: int| 0 <= x < m ==> #[trigger] rr.subrange(kk - v, kk - v + m)[x] == r.subrange(kk, kk + m)[x]);
                    assert(rr.subrange(kk - v, kk - v + m) =~= p);
                }
                assert(false);
            }
        }
    } else {
        let t = s.subrange(1, s.len() as int);
        assert(!contains_seq(t, p)) by {
            if contains_seq(t, p) {
                let w = choose|w: int| match_at(t, p, w);
                assert(match_at(s, p, w + 1)) by {
                    assert(forall|x: int| 0 <= x < m ==> #[trigger] s.subrange(w + 1, w + 1 + m)[x] == t.subrange(w, w + m)[x]);
                    assert(s.subrange(w + 1, w + 1 + m) =~= p);
                }
            }
        }
        let rr = spec_replace(t, q, val);
        lemma_replace_preserves_absent(t, q, val, p);
        assert(r == seq![s[0]] + rr);
        if contains_seq(r, p) {
            let kk = choose|kk: int| match_at(r, p, kk);
            if kk >= 1 {
                assert(match_at(rr, p, kk - 1)) by {
                    assert(forall|x: int| 0 <= x < m ==> #[trigger] rr.subrange(kk - 1, kk - 1 + m)[x] == r.subrange(kk, kk + m)[x]);
                    assert(rr.subrange(kk - 1, kk - 1 + m) =~= p);
                }
                assert(false);
            } else {
                assert(r.subrange(0, m)[0] == p[0]);
                assert(r[0] == s[0]);
                if m == 1 {
                    assert(match_at(s, p, 0)) by {
                        assert(s.subrange(0, 1) =~= p);
                    }
                    assert(false);
                } else {
                    let piece2 = p.subrange(1, m);
                    assert(match_at(rr, piece2, 0)) by {
                        assert(forall|x: int| 0 <= x < m - 1 ==> #[trigger] rr.subrange(0, m - 1)[x] == r.subrange(0, m)[x + 1]);
                        assert(rr.subrange(0, m - 1) =~= piece2);
                    }
                    assert(char_disjoint(piece2, val)) by {
                        assert(forall|i: int, j: int| 0 <= i < piece2.len() && 0 <= j < val.len() ==> #[trigger] piece2[i] != #[trigger] val[j]);
                    }
                    lemma_replace_starts(t, q, val, piece2);
                    assert(t.subrange(0, m - 1) == piece2);
                    assert(forall|x: int| 1 <= x < m ==> #[trigger] s.subrange(0, m)[x] == t.subrange(0, m - 1)[x - 1]);
                    assert(s.subrange(0, m)[0] == p[0]);
                    assert(s.subrange(0, m) =~= p);
                    assert(match_at(s, p, 0));
                    assert(false);
                }
            }
        }
    }
}

/// The placeholder/value views of an executable pair list.
pub open spec fn views_of_pairs(ps: Seq<(String, String)>) -> Seq<(Seq<char>, Seq<char>)> {
    ps.map_values(|p: (String, String)| (p.0@, p.1@))
}

/// Apply each `(placeholder, value)` pair of `ps`, from position `i` on, in
/// order, each by literal replacement.
pub open spec fn spec_apply_pairs_from(
    s: Seq<char>,
    ps: Seq<(Seq<char>, Seq<char>)>,
    i: int,
) -> Seq<char>
    decreases ps.len() - i,
{
    if i < 0 || i >= ps.len() {
        s
    } else {
        spec_apply_pairs_from(spec_replace(s, ps[i].0, ps[i].1), ps, i + 1)
    }
}

/// Apply every `(placeholder, value)` pair of `ps`, first to last.
pub open spec fn spec_apply_pairs(s: Seq<char>, ps: Seq<(Seq<char>, Seq<char>)>) -> Seq<char> {
    spec_apply_pairs_from(s, ps, 0)
}

/// Every placeholder and every value in the list is nonempty.
pub open spec fn pairs_nonempty(ps: Seq<(Seq<char>, Seq<char>)>) -> bool {
    forall|i: int| 0 <= i < ps.len() ==> #[trigger] ps[i].0.len() >= 1 && ps[i].1.len() >= 1
}

/// No value in the list shares a character with any placeholder in the list.
pub open spec fn pairs_cross_disjoint(ps: Seq<(Seq<char>, Seq<char>)>) -> bool {
    forall|i: int, j: int|
        0 <= i < ps.len() && 0 <= j < ps.len() ==> char_disjoint(#[trigger] ps[i].0, #[trigger] ps[j].1)
}

/// Applying the pairs from position `i` on leaves no occurrence of the
/// placeholder of pair `k`, provided pair `k` is still to be applied or its
/// placeholder is already absent.
pub proof fn lemma_apply_pairs_from_removes(
    s: Seq<char>,
    ps: Seq<(Seq<char>, Seq<char>)>,
    i: int,
    k: int,
)
    requires
        pairs_nonempty(ps),
        pairs_cross_disjoint(ps),
        0 <= i <= ps.len(),
        0 <= k < ps.len(),
        k < i ==> !contains_seq(s, ps[k].0),
    ensures
        !contains_seq(spec_apply_pairs_from(s, ps, i), ps[k].0),
    decreases ps.len() - i,
{
    if i >= ps.len() {
    } else {
        let s2 = spec_replace(s, ps[i].0, ps[i].1);
        if k == i {
            lemma_replace_removes(s, ps[i].0, ps[i].1);
        } else if k < i {
            lemma_replace_preserves_absent(s, ps[i].0, ps[i].1, ps[k].0);
        }
        lemma_apply_pairs_from_removes(s2, ps, i + 1, k);
    }
}

/// No placeholder of the pair list survives applying all its pairs, when the
/// placeholders are nonempty and no value shares a character with any
/// placeholder of the list.
pub proof fn lemma_apply_pairs_removes_all(s: Seq<char>, ps: Seq<(Seq<char>, Seq<char>)>, k: int)
    requires
        pairs_nonempty(ps),
        pairs_cross_disjoint(ps),
        0 <= k < ps.len(),
    ensures
        !contains_seq(spec_apply_pairs(s, ps), ps[k].0),
{
    lemma_apply_pairs_from_removes(s, ps, 0, k);
}

/// Apply every `(placeholder, value)` pair to `s`, first to last, each by
/// literal replacement of every occurrence.
pub fn apply_pairs(s: &str, pairs: &Vec<(String, String)>) -> (r: String)
    ensures
        r@ == spec_apply_pairs(s@, views_of_pairs(pairs@)),
{
    let ghost ps = views_of_pairs(pairs@);
    let mut cur = s.to_owned();
    let mut i: usize = 0;
    while i < pairs.len()
        invariant
            0 <= i <= pairs@.len(),
            ps == views_of_pairs(pairs@),
            spec_apply_pairs_from(s@, ps, 0) == spec_apply_pairs_from(cur@, ps, i as int),
        decreases pairs@.len() - i,
    {
        let p = &pairs[i];
        proof {
            assert(ps[i as int] == (pairs@[i as int].0@, pairs@[i as int].1@));
        }
        let next = replace_all(cur.as_str(), p.0.as_str(), p.1.as_str());
        cur = next;
        i = i + 1;
    }
    cur
}

}
