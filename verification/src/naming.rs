use vstd::prelude::*;
use crate::text::{match_at, first_match_from, lemma_first_match_from, lemma_first_match_is};

verus! {

/// The object-store prefix that holds a project's working tree:
/// `deployments/<name> (project_id: <id>)/`.
pub open spec fn spec_working_prefix(name: Seq<char>, id: Seq<char>) -> Seq<char> {
    "deployments/"@ + name + " (project_id: "@ + id + ")/"@
}

/// The object-store prefix that holds an immutable template:
/// `terraform/<template>/`.
pub open spec fn spec_template_prefix(template: Seq<char>) -> Seq<char> {
    "terraform/"@ + template + "/"@
}

/// The local working directory for a project, relative to the process root:
/// `terraform-temp/<name> (project_id= <id>)`.
pub open spec fn spec_local_dir(name: Seq<char>, id: Seq<char>) -> Seq<char> {
    "terraform-temp/"@ + name + " (project_id= "@ + id + ")"@
}

/// A project name is well formed when it is nonempty and the separator
/// ` (project_id: ` does not occur in the name followed by the separator
/// earlier than at the name's end. This rules out exactly the names that make
/// the working-prefix notation ambiguous.
pub open spec fn wf_project_name(name: Seq<char>) -> bool {
    &&& name.len() >= 1
    &&& forall|i: int|
        0 <= i < name.len() ==> !match_at(name + " (project_id: "@, " (project_id: "@, i)
}

/// A project id is well formed when it is nonempty and the closing mark `)/`
/// does not occur in the id followed by the mark earlier than at the id's end.
pub open spec fn wf_project_id(id: Seq<char>) -> bool {
    &&& id.len() >= 1
    &&& forall|i: int| 0 <= i < id.len() ==> !match_at(id + ")/"@, ")/"@, i)
}

/// Render the working prefix for `name` and `id`.
pub fn working_prefix(name: &str, id: &str) -> (r: String)
    ensures
        r@ == spec_working_prefix(name@, id@),
{
    let mut s = String::new();
    s.append("deployments/");
    s.append(name);
    s.append(" (project_id: ");
    s.append(id);
    s.append(")/");
    s
}

/// Render the template prefix for `template`.
pub fn template_prefix(template: &str) -> (r: String)
    ensures
        r@ == spec_template_prefix(template@),
{
    let mut s = String::new();
    s.append("terraform/");
    s.append(template);
    s.append("/");
    s
}

/// Render the local working-directory path for `name` and `id`.
pub fn local_dir(name: &str, id: &str) -> (r: String)
    ensures
        r@ == spec_local_dir(name@, id@),
{
    let mut s = String::new();
    s.append("terraform-temp/");
    s.append(name);
    s.append(" (project_id= ");
    s.append(id);
    s.append(")");
    s
}

/// Decide `wf_project_name`.
pub fn check_project_name(name: &str) -> (r: bool)
    ensures
        r == wf_project_name(name@),
{
    let n = name.unicode_len();
    if n == 0 {
        return false;
    }
    let mut buf = String::new();
    buf.append(name);
    buf.append(" (project_id: ");
    proof {
        lemma_first_match_from(buf@, " (project_id: "@, 0);
    }
    match crate::text::find_from(buf.as_str(), " (project_id: ", 0) {
        Some(i) => i >= n,
        None => true,
    }
}

/// Decide `wf_project_id`.
pub fn check_project_id(id: &str) -> (r: bool)
    ensures
        r == wf_project_id(id@),
{
    let n = id.unicode_len();
    if n == 0 {
        return false;
    }
    let mut buf = String::new();
    buf.append(id);
    buf.append(")/");
    proof {
        lemma_first_match_from(buf@, ")/"@, 0);
    }
    match crate::text::find_from(buf.as_str(), ")/", 0) {
        Some(i) => i >= n,
        None => true,
    }
}

/// The working prefix read back into its parts, with the non-greedy reading
/// of the notation: the name ends at the first possible separator after at
/// least one character, the id at the first possible closing mark after at
/// least one character, and the mark must close the prefix.
pub open spec fn spec_parse_working_prefix(s: Seq<char>) -> Option<(Seq<char>, Seq<char>)> {
    let dlen = "deployments/"@.len() as int;
    let seplen = " (project_id: "@.len() as int;
    let cllen = ")/"@.len() as int;
    if !match_at(s, "deployments/"@, 0) {
        None
    } else {
        match first_match_from(s, " (project_id: "@, dlen + 1) {
            None => None,
            Some(p) => match first_match_from(s, ")/"@, p + seplen + 1) {
                None => None,
                Some(q) => if q + cllen == s.len() {
                    Some((s.subrange(dlen, p), s.subrange(p + seplen, q)))
                } else {
                    None
                },
            },
        }
    }
}

/// Recover `(project_name, project_id)` from a working prefix, or nothing
/// when the prefix is not of the expected shape.
pub fn parse_working_prefix(s: &str) -> (r: Option<(String, String)>)
    ensures
        match r {
            Some(pair) => spec_parse_working_prefix(s@) == Some((pair.0@, pair.1@)),
            None => spec_parse_working_prefix(s@) is None,
        },
{
    let n = s.unicode_len();
    if !crate::text::starts_with_exec(s, "deployments/") {
        return None;
    }
    let dlen = "deployments/".unicode_len();
    let seplen = " (project_id: ".unicode_len();
    proof {
        reveal_strlit("deployments/");
        reveal_strlit(" (project_id: ");
        reveal_strlit(")/");
    }
    let p = match crate::text::find_from(s, " (project_id: ", dlen + 1) {
        Some(p) => p,
        None => {
            return None;
        },
    };
    proof {
        lemma_first_match_from(s@, " (project_id: "@, dlen + 1);
    }
    if n - (p + seplen) < 1 {
        proof {
            assert(first_match_from(s@, ")/"@, p + seplen + 1) is None) by {
                lemma_first_match_from(s@, ")/"@, p + seplen + 1);
                if first_match_from(s@, ")/"@, p + seplen + 1) is Some {
                    let q = first_match_from(s@, ")/"@, p + seplen + 1)->0;
                    assert(match_at(s@, ")/"@, q));
                }
            }
        }
        return None;
    }
    let q = match crate::text::find_from(s, ")/", p + seplen + 1) {
        Some(q) => q,
        None => {
            return None;
        },
    };
    proof {
        lemma_first_match_from(s@, ")/"@, p + seplen + 1);
    }
    let cllen = ")/".unicode_len();
    if q + cllen == n {
        let name = crate::text::segment(s, dlen, p);
        let id = crate::text::segment(s, p + seplen, q);
        Some((name, id))
    } else {
        None
    }
}

/// Parsing a rendered working prefix gives back the very name and id it was
/// rendered from, for every well-formed name and id.
pub proof fn lemma_parse_render(name: Seq<char>, id: Seq<char>)
    requires
        wf_project_name(name),
        wf_project_id(id),
    ensures
        spec_parse_working_prefix(spec_working_prefix(name, id)) == Some((name, id)),
{
    let d = "deployments/"@;
    let sep = " (project_id: "@;
    let cl = ")/"@;
    let dlen = d.len() as int;
    let seplen = sep.len() as int;
    let cllen = cl.len() as int;
    let s = spec_working_prefix(name, id);
    let nl = name.len() as int;
    let il = id.len() as int;
    let b = dlen + nl + seplen;
    assert(s.len() == dlen + nl + seplen + il + cllen);

    assert(match_at(s, d, 0)) by {
        assert(forall|x: int| 0 <= x < dlen ==> #[trigger] s.subrange(0, dlen)[x] == d[x]);
        assert(s.subrange(0, dlen) =~= d);
    }

    assert(match_at(s, sep, dlen + nl)) by {
        assert(forall|x: int| 0 <= x < seplen ==> #[trigger] s.subrange(dlen + nl, dlen + nl + seplen)[x]
            == sep[x]);
        assert(s.subrange(dlen + nl, dlen + nl + seplen) =~= sep);
    }
    assert forall|j: int| dlen + 1 <= j < dlen + nl implies !match_at(s, sep, j) by {
        if match_at(s, sep, j) {
            assert(forall|x: int| 0 <= x < seplen ==> #[trigger] (name + sep)[j - dlen + x] == s[j
                + x]);
            assert(match_at(name + sep, sep, j - dlen)) by {
                assert(forall|x: int| 0 <= x < seplen ==> #[trigger] (name + sep).subrange(
                    j - dlen,
                    j - dlen + seplen,
                )[x] == s.subrange(j, j + seplen)[x]);
                assert((name + sep).subrange(j - dlen, j - dlen + seplen) =~= sep);
            }
        }
    }
    lemma_first_match_is(s, sep, dlen + 1, dlen + nl);

    assert(match_at(s, cl, b + il)) by {
        assert(forall|x: int| 0 <= x < cllen ==> #[trigger] s.subrange(b + il, b + il + cllen)[x]
            == cl[x]);
        assert(s.subrange(b + il, b + il + cllen) =~= cl);
    }
    assert forall|j: int| b + 1 <= j < b + il implies !match_at(s, cl, j) by {
        if match_at(s, cl, j) {
            assert(forall|x: int| 0 <= x < cllen ==> #[trigger] (id + cl)[j - b + x] == s[j + x]);
            assert(match_at(id + cl, cl, j - b)) by {
                assert(forall|x: int| 0 <= x < cllen ==> #[trigger] (id + cl).subrange(
                    j - b,
                    j - b + cllen,
                )[x] == s.subrange(j, j + cllen)[x]);
                assert((id + cl).subrange(j - b, j - b + cllen) =~= cl);
            }
        }
    }
    lemma_first_match_is(s, cl, b + 1, b + il);

    assert(s.subrange(dlen, dlen + nl) =~= name);
    assert(s.subrange(b, b + il) =~= id);
}

/// Two well-formed `(name, id)` pairs that render to the same working prefix
/// are the same pair: the prefix determines the project identity.
pub proof fn lemma_working_prefix_injective(
    n1: Seq<char>,
    i1: Seq<char>,
    n2: Seq<char>,
    i2: Seq<char>,
)
    requires
        wf_project_name(n1),
        wf_project_id(i1),
        wf_project_name(n2),
        wf_project_id(i2),
        spec_working_prefix(n1, i1) == spec_working_prefix(n2, i2),
    ensures
        n1 == n2,
        i1 == i2,
{
    lemma_parse_render(n1, i1);
    lemma_parse_render(n2, i2);
}

/// A template prefix never coincides with the start of a working prefix,
/// nor the other way round: one begins with `terraform/`, the other with
/// `deployments/`.
pub proof fn lemma_prefixes_distinct(template: Seq<char>, name: Seq<char>, id: Seq<char>)
    ensures
        !match_at(spec_template_prefix(template), spec_working_prefix(name, id), 0),
        !match_at(spec_working_prefix(name, id), spec_template_prefix(template), 0),
{
    reveal_strlit("terraform/");
    reveal_strlit("deployments/");
    let a = spec_template_prefix(template);
    let b = spec_working_prefix(name, id);
    assert(a[0] == 't');
    assert(b[0] == 'd');
    if match_at(a, b, 0) {
        assert(a.subrange(0, b.len() as int)[0] == b[0]);
    }
    if match_at(b, a, 0) {
        assert(b.subrange(0, a.len() as int)[0] == a[0]);
    }
}

/// A working prefix ends with `)` followed by a single `/`.
pub proof fn lemma_working_prefix_slash(name: Seq<char>, id: Seq<char>)
    ensures
        spec_working_prefix(name, id).len() >= 2,
        spec_working_prefix(name, id)[spec_working_prefix(name, id).len() - 1] == '/',
        spec_working_prefix(name, id)[spec_working_prefix(name, id).len() - 2] == ')',
{
    reveal_strlit(")/");
    let wp = spec_working_prefix(name, id);
    assert(wp[wp.len() - 1] == ")/"@[1]);
    assert(wp[wp.len() - 2] == ")/"@[0]);
}

/// A project id none of whose characters is `)` is well formed once it is
/// nonempty.
pub proof fn lemma_id_without_paren_wf(id: Seq<char>)
    requires
        id.len() >= 1,
        forall|i: int| 0 <= i < id.len() ==> id[i] != ')',
    ensures
        wf_project_id(id),
{
    reveal_strlit(")/");
    assert forall|i: int| 0 <= i < id.len() implies !match_at(id + ")/"@, ")/"@, i) by {
        if match_at(id + ")/"@, ")/"@, i) {
            assert((id + ")/"@).subrange(i, i + 2)[0] == ')');
            assert((id + ")/"@)[i] == ')');
            if i < id.len() {
                assert(id[i] == ')');
            }
        }
    }
}


/// In a rendered working prefix, the first possible separator after the
/// name's first character is at the name's end, and the first possible
/// closing mark after the id's first character is at the id's end.
pub proof fn lemma_render_first_matches(name: Seq<char>, id: Seq<char>)
    requires
        wf_project_name(name),
        wf_project_id(id),
    ensures
        first_match_from(
            spec_working_prefix(name, id),
            " (project_id: "@,
            "deployments/"@.len() as int + 1,
        ) == Some("deployments/"@.len() as int + name.len() as int),
        first_match_from(
            spec_working_prefix(name, id),
            ")/"@,
            "deployments/"@.len() as int + name.len() + " (project_id: "@.len() + 1,
        ) == Some(
            "deployments/"@.len() as int + name.len() + " (project_id: "@.len() + id.len(),
        ),
{
    let d = "deployments/"@;
    let sep = " (project_id: "@;
    let cl = ")/"@;
    let dlen = d.len() as int;
    let seplen = sep.len() as int;
    let cllen = cl.len() as int;
    let s = spec_working_prefix(name, id);
    let nl = name.len() as int;
    let il = id.len() as int;
    let b = dlen + nl + seplen;
    assert(s.len() == dlen + nl + seplen + il + cllen);
    assert(match_at(s, sep, dlen + nl)) by {
        assert(forall|x: int| 0 <= x < seplen ==> #[trigger] s.subrange(dlen + nl, dlen + nl + seplen)[x]
            == sep[x]);
        assert(s.subrange(dlen + nl, dlen + nl + seplen) =~= sep);
    }
    assert forall|j: int| dlen + 1 <= j < dlen + nl implies !match_at(s, sep, j) by {
        if match_at(s, sep, j) {
            assert(forall|x: int| 0 <= x < seplen ==> #[trigger] (name + sep)[j - dlen + x] == s[j
                + x]);
            assert(match_at(name + sep, sep, j - dlen)) by {
                assert(forall|x: int| 0 <= x < seplen ==> #[trigger] (name + sep).subrange(
                    j - dlen,
                    j - dlen + seplen,
                )[x] == s.subrange(j, j + seplen)[x]);
                assert((name + sep).subrange(j - dlen, j - dlen + seplen) =~= sep);
            }
        }
    }
    lemma_first_match_is(s, sep, dlen + 1, dlen + nl);
    assert(match_at(s, cl, b + il)) by {
        assert(forall|x: int| 0 <= x < cllen ==> #[trigger] s.subrange(b + il, b + il + cllen)[x]
            == cl[x]);
        assert(s.subrange(b + il, b + il + cllen) =~= cl);
    }
    assert forall|j: int| b + 1 <= j < b + il implies !match_at(s, cl, j) by {
        if match_at(s, cl, j) {
            assert(forall|x: int| 0 <= x < cllen ==> #[trigger] (id + cl)[j - b + x] == s[j + x]);
            assert(match_at(id + cl, cl, j - b)) by {
                assert(forall|x: int| 0 <= x < cllen ==> #[trigger] (id + cl).subrange(
                    j - b,
                    j - b + cllen,
                )[x] == s.subrange(j, j + cllen)[x]);
                assert((id + cl).subrange(j - b, j - b + cllen) =~= cl);
            }
        }
    }
    lemma_first_match_is(s, cl, b + 1, b + il);
}

/// For well-formed distinct `(name, id)` pairs, one working prefix is never
/// an initial segment of the other: two different projects can never see
/// each other's objects, since a key under both prefixes would make one
/// prefix an initial segment of the other.
pub proof fn lemma_working_prefixes_prefix_free(
    n1: Seq<char>,
    i1: Seq<char>,
    n2: Seq<char>,
    i2: Seq<char>,
)
    requires
        wf_project_name(n1),
        wf_project_id(i1),
        wf_project_name(n2),
        wf_project_id(i2),
        n1 != n2 || i1 != i2,
    ensures
        !match_at(spec_working_prefix(n2, i2), spec_working_prefix(n1, i1), 0),
{
    let d = "deployments/"@;
    let sep = " (project_id: "@;
    let cl = ")/"@;
    let dlen = d.len() as int;
    let seplen = sep.len() as int;
    let cllen = cl.len() as int;
    let w1 = spec_working_prefix(n1, i1);
    let w2 = spec_working_prefix(n2, i2);
    let l1 = n1.len() as int;
    let l2 = n2.len() as int;
    if match_at(w2, w1, 0) {
        assert(forall|x: int| 0 <= x < w1.len() ==> #[trigger] w2[x] == w1[x]) by {
            assert(forall|x: int| 0 <= x < w1.len() ==> #[trigger] w2.subrange(0, w1.len() as int)[x]
                == w1[x]);
        }
        lemma_render_first_matches(n2, i2);
        assert(first_match_from(w2, sep, dlen + 1) == Some(dlen + l2));
        lemma_first_match_from(w2, sep, dlen + 1);
        // the separator of the shorter prefix also occurs in the longer one
        assert(match_at(w2, sep, dlen + l1)) by {
            assert(match_at(w1, sep, dlen + l1)) by {
                assert(w1.subrange(dlen + l1, dlen + l1 + seplen) =~= sep);
            }
            assert(forall|y: int| 0 <= y < seplen ==> #[trigger] w2.subrange(
                dlen + l1,
                dlen + l1 + seplen,
            )[y] == w1[dlen + l1 + y]);
            assert(w2.subrange(dlen + l1, dlen + l1 + seplen) =~= sep);
        }
        assert(l2 <= l1);
        if l2 < l1 {
            // then n1 would contain its own separator: not well formed
            assert(match_at(n1 + sep, sep, l2)) by {
                assert(forall|x: int| 0 <= x < l1 + seplen ==> #[trigger] (n1 + sep)[x] == w2[dlen
                    + x]) by {
                    assert(forall|x: int| 0 <= x < l1 + seplen ==> #[trigger] w1[dlen + x] == (n1
                        + sep)[x]);
                }
                assert(match_at(w2, sep, dlen + l2));
                assert(forall|y: int| 0 <= y < seplen ==> #[trigger] w2.subrange(
                    dlen + l2,
                    dlen + l2 + seplen,
                )[y] == w2[dlen + l2 + y]);
                assert(forall|y: int| 0 <= y < seplen ==> #[trigger] (n1 + sep).subrange(
                    l2,
                    l2 + seplen,
                )[y] == w2[dlen + l2 + y]);
                assert((n1 + sep).subrange(l2, l2 + seplen) =~= sep);
            }
            assert(false);
        }
        // equal name lengths: the names agree
        assert(n1 =~= n2) by {
            assert(forall|x: int| 0 <= x < l1 ==> #[trigger] n1[x] == w1[dlen + x]);
            assert(forall|x: int| 0 <= x < l2 ==> #[trigger] n2[x] == w2[dlen + x]);
        }
        // compare the id segments the same way
        let b = dlen + l1 + seplen;
        let m1 = i1.len() as int;
        let m2 = i2.len() as int;
        assert(first_match_from(w2, cl, dlen + l2 + seplen + 1) == Some(dlen + l2 + seplen
            + m2));
        lemma_first_match_from(w2, cl, b + 1);
        assert(match_at(w2, cl, b + m1)) by {
            assert(match_at(w1, cl, b + m1)) by {
                assert(w1.subrange(b + m1, b + m1 + cllen) =~= cl);
            }
            assert(forall|y: int| 0 <= y < cllen ==> #[trigger] w2.subrange(
                b + m1,
                b + m1 + cllen,
            )[y] == w1[b + m1 + y]);
            assert(w2.subrange(b + m1, b + m1 + cllen) =~= cl);
        }
        assert(m2 <= m1);
        if m2 < m1 {
            assert(match_at(i1 + cl, cl, m2)) by {
                assert(forall|x: int| 0 <= x < m1 + cllen ==> #[trigger] (i1 + cl)[x] == w2[b
                    + x]) by {
                    assert(forall|x: int| 0 <= x < m1 + cllen ==> #[trigger] w1[b + x] == (i1
                        + cl)[x]);
                }
                assert(match_at(w2, cl, b + m2));
                assert(forall|y: int| 0 <= y < cllen ==> #[trigger] w2.subrange(
                    b + m2,
                    b + m2 + cllen,
                )[y] == w2[b + m2 + y]);
                assert(forall|y: int| 0 <= y < cllen ==> #[trigger] (i1 + cl).subrange(
                    m2,
                    m2 + cllen,
                )[y] == w2[b + m2 + y]);
                assert((i1 + cl).subrange(m2, m2 + cllen) =~= cl);
            }
            assert(false);
        }
        assert(i1 =~= i2) by {
            assert(forall|x: int| 0 <= x < m1 ==> #[trigger] i1[x] == w1[b + x]);
            assert(forall|x: int| 0 <= x < m2 ==> #[trigger] i2[x] == w2[b + x]);
        }
        assert(false);
    }
}

/// No object key lies under the working prefixes of two different projects.
pub proof fn lemma_no_shared_working_key(
    k: Seq<char>,
    n1: Seq<char>,
    i1: Seq<char>,
    n2: Seq<char>,
    i2: Seq<char>,
)
    requires
        wf_project_name(n1),
        wf_project_id(i1),
        wf_project_name(n2),
        wf_project_id(i2),
        match_at(k, spec_working_prefix(n1, i1), 0),
        match_at(k, spec_working_prefix(n2, i2), 0),
    ensures
        n1 == n2,
        i1 == i2,
{
    let w1 = spec_working_prefix(n1, i1);
    let w2 = spec_working_prefix(n2, i2);
    if n1 != n2 || i1 != i2 {
        if w1.len() <= w2.len() {
            crate::transform::lemma_prefix_of_prefix(k, w1, w2);
            lemma_working_prefixes_prefix_free(n1, i1, n2, i2);
        } else {
            crate::transform::lemma_prefix_of_prefix(k, w2, w1);
            lemma_working_prefixes_prefix_free(n2, i2, n1, i1);
        }
    }
}

/// A project name is unambiguous in a local directory name when the local
/// separator ` (project_id= ` does not occur in the name followed by that
/// separator earlier than at the name's end.
pub open spec fn wf_local_project_name(name: Seq<char>) -> bool {
    forall|i: int|
        0 <= i < name.len() ==> !match_at(name + " (project_id= "@, " (project_id= "@, i)
}

/// The local directory name determines the project identity: for names that
/// are unambiguous in it, `spec_local_dir` is injective. The ids need no
/// condition, so in particular distinct generated project ids always give
/// distinct local working directories.
pub proof fn lemma_local_dir_injective(
    n1: Seq<char>,
    i1: Seq<char>,
    n2: Seq<char>,
    i2: Seq<char>,
)
    requires
        wf_local_project_name(n1),
        wf_local_project_name(n2),
        spec_local_dir(n1, i1) == spec_local_dir(n2, i2),
    ensures
        n1 == n2,
        i1 == i2,
{
    let t = "terraform-temp/"@;
    let sep = " (project_id= "@;
    let cl = ")"@;
    let tlen = t.len() as int;
    let seplen = sep.len() as int;
    let cllen = cl.len() as int;
    let s = spec_local_dir(n1, i1);
    let l1 = n1.len() as int;
    let l2 = n2.len() as int;
    let m1 = i1.len() as int;
    let m2 = i2.len() as int;
    assert(s.len() == tlen + l1 + seplen + m1 + cllen);
    assert(s.len() == tlen + l2 + seplen + m2 + cllen);

    assert(match_at(s, sep, tlen + l1)) by {
        assert(forall|x: int| 0 <= x < seplen ==> #[trigger] s.subrange(tlen + l1, tlen + l1 + seplen)[x]
            == sep[x]);
        assert(s.subrange(tlen + l1, tlen + l1 + seplen) =~= sep);
    }
    assert(match_at(s, sep, tlen + l2)) by {
        assert(forall|x: int| 0 <= x < seplen ==> #[trigger] s.subrange(tlen + l2, tlen + l2 + seplen)[x]
            == sep[x]);
        assert(s.subrange(tlen + l2, tlen + l2 + seplen) =~= sep);
    }
    if l1 < l2 {
        // the separator of the first name would occur inside the second
        assert(match_at(n2 + sep, sep, l1)) by {
            assert(forall|x: int| 0 <= x < l2 + seplen ==> #[trigger] (n2 + sep)[x] == s[tlen + x]);
            assert(forall|y: int| 0 <= y < seplen ==> #[trigger] (n2 + sep).subrange(
                l1,
                l1 + seplen,
            )[y] == s.subrange(tlen + l1, tlen + l1 + seplen)[y]);
            assert((n2 + sep).subrange(l1, l1 + seplen) =~= sep);
        }
        assert(false);
    }
    if l2 < l1 {
        assert(match_at(n1 + sep, sep, l2)) by {
            assert(forall|x: int| 0 <= x < l1 + seplen ==> #[trigger] (n1 + sep)[x] == s[tlen + x]);
            assert(forall|y: int| 0 <= y < seplen ==> #[trigger] (n1 + sep).subrange(
                l2,
                l2 + seplen,
            )[y] == s.subrange(tlen + l2, tlen + l2 + seplen)[y]);
            assert((n1 + sep).subrange(l2, l2 + seplen) =~= sep);
        }
        assert(false);
    }
    assert(n1 =~= n2) by {
        assert(forall|x: int| 0 <= x < l1 ==> #[trigger] n1[x] == s[tlen + x]);
        assert(forall|x: int| 0 <= x < l2 ==> #[trigger] n2[x] == s[tlen + x]);
    }
    let b = tlen + l1 + seplen;
    assert(i1 =~= i2) by {
        assert(forall|x: int| 0 <= x < m1 ==> #[trigger] i1[x] == s[b + x]);
        assert(forall|x: int| 0 <= x < m2 ==> #[trigger] i2[x] == s[b + x]);
    }
}

}
