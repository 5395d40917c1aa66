use vstd::prelude::*;
use crate::text::{match_at, segment};
use crate::naming::{spec_parse_working_prefix, spec_local_dir, parse_working_prefix, local_dir};
use crate::store::{ObjectStore, key_listed};
use crate::fsmodel::LocalTree;

verus! {

/// `s` with every trailing `/` removed.
pub open spec fn spec_trim_slashes(s: Seq<char>) -> Seq<char>
    decreases s.len(),
{
    if s.len() > 0 && s[s.len() - 1] == '/' {
        spec_trim_slashes(s.subrange(0, s.len() - 1))
    } else {
        s
    }
}

/// The object key an upload writes for a file with suffix `rel`: the prefix
/// without its trailing slashes, a single `/`, then `rel`.
pub open spec fn spec_join(prefix: Seq<char>, rel: Seq<char>) -> Seq<char> {
    spec_trim_slashes(prefix) + "/"@ + rel
}

/// Remove every trailing `/` from `s`.
pub fn trim_slashes(s: &str) -> (r: String)
    ensures
        r@ == spec_trim_slashes(s@),
{
    let mut e = s.unicode_len();
    proof {
        assert(s@.subrange(0, s@.len() as int) =~= s@);
    }
    loop
        invariant_except_break
            0 <= e <= s@.len(),
            spec_trim_slashes(s@) == spec_trim_slashes(s@.subrange(0, e as int)),
        ensures
            0 <= e <= s@.len(),
            spec_trim_slashes(s@) == spec_trim_slashes(s@.subrange(0, e as int)),
            e == 0 || s@[e - 1] != '/',
        decreases e,
    {
        if e == 0 {
            break ;
        }
        let c = s.get_char(e - 1);
        if c != '/' {
            break ;
        }
        proof {
            let sub = s@.subrange(0, e as int);
            assert(sub[e - 1] == '/');
            assert(sub.subrange(0, e - 1) =~= s@.subrange(0, e - 1));
        }
        e = e - 1;
    }
    proof {
        let sub = s@.subrange(0, e as int);
        if e > 0 {
            assert(sub[e - 1] == s@[e - 1]);
        }
        assert(spec_trim_slashes(sub) == sub);
    }
    segment(s, 0, e)
}

/// Join a prefix and a relative suffix with a single `/`.
pub fn join_under_prefix(prefix: &str, rel: &str) -> (r: String)
    ensures
        r@ == spec_join(prefix@, rel@),
{
    let mut out = trim_slashes(prefix);
    out.append("/");
    out.append(rel);
    out
}

/// A string that ends with a single `/` loses exactly that `/`.
pub proof fn lemma_trim_single_slash(s: Seq<char>)
    requires
        s.len() >= 2,
        s[s.len() - 1] == '/',
        s[s.len() - 2] != '/',
    ensures
        spec_trim_slashes(s) == s.subrange(0, s.len() - 1),
{
    let t = s.subrange(0, s.len() - 1);
    assert(t[t.len() - 1] == s[s.len() - 2]);
    assert(spec_trim_slashes(t) == t);
}

/// Joining a suffix under a prefix that ends with a single `/` is plain
/// concatenation.
pub proof fn lemma_join_slashed_prefix(prefix: Seq<char>, rel: Seq<char>)
    requires
        prefix.len() >= 2,
        prefix[prefix.len() - 1] == '/',
        prefix[prefix.len() - 2] != '/',
    ensures
        spec_join(prefix, rel) == prefix + rel,
{
    reveal_strlit("/");
    lemma_trim_single_slash(prefix);
    assert(spec_join(prefix, rel) =~= prefix + rel);
}

/// The local path a materialized object is written to.
pub open spec fn local_path_of(prefix: Seq<char>, dir: Seq<char>, k: Seq<char>) -> Seq<char> {
    dir + "/"@ + k.subrange(prefix.len() as int, k.len() as int)
}

/// `p` is the local path of some object under `prefix`.
pub open spec fn in_materialize_image(
    st: ObjectStore,
    prefix: Seq<char>,
    dir: Seq<char>,
    p: Seq<char>,
) -> bool {
    exists|k: Seq<char>| #[trigger] st.has_key(k) && match_at(k, prefix, 0) && k.len()
        > prefix.len() && p == local_path_of(prefix, dir, k)
}

/// Materialize the working prefix locally: parse the prefix into project
/// name and id (failing when it is malformed), create the corresponding
/// working directory, and write each object under the prefix, except the
/// prefix itself, to the directory under its relative path.
pub fn materialize(store: &ObjectStore, fs: &mut LocalTree, prefix: &str) -> (r: Option<String>)
    requires
        store.wf(),
        old(fs).wf(),
    ensures
        final(fs).wf(),
        match r {
            None => spec_parse_working_prefix(prefix@) is None && *final(fs) == *old(fs),
            Some(d) => {
                &&& spec_parse_working_prefix(prefix@) matches Some(pair) && d@ == spec_local_dir(
                    pair.0,
                    pair.1,
                )
                &&& final(fs).has_dir(d@)
                &&& forall|x: Seq<char>|
                    x != d@ ==> (final(fs).has_dir(x) <==> old(fs).has_dir(x))
                &&& forall|k: Seq<char>|
                    #[trigger] store.has_key(k) && match_at(k, prefix@, 0) && k.len()
                        > prefix@.len() ==> final(fs).has_file(local_path_of(prefix@, d@, k))
                        && final(fs).file_content(local_path_of(prefix@, d@, k))
                        == store.content_of(k)
                &&& forall|p: Seq<char>|
                    !in_materialize_image(*store, prefix@, d@, p) ==> ((final(fs).has_file(p)
                        <==> old(fs).has_file(p)) && (old(fs).has_file(p)
                        ==> final(fs).file_content(p) == old(fs).file_content(p)))
            },
        },
{
    let parsed = match parse_working_prefix(prefix) {
        Some(pair) => pair,
        None => {
            return None;
        },
    };
    let dir = local_dir(parsed.0.as_str(), parsed.1.as_str());
    fs.create_dir(dir.as_str());
    let ghost fs0 = *old(fs);
    let ghost d = dir@;
    let ghost pre = *store;
    let keys = store.list_under(prefix);
    let plen = prefix.unicode_len();
    let n = keys.len();
    let mut i: usize = 0;
    while i < n
        invariant
            0 <= i <= n,
            n == keys@.len(),
            store.wf(),
            *store == pre,
            fs.wf(),
            plen == prefix@.len(),
            d == dir@,
            fs.has_dir(d),
            forall|x: Seq<char>| x != d ==> (fs.has_dir(x) <==> fs0.has_dir(x)),
            forall|t: int|
                0 <= t < n ==> store.has_key(#[trigger] keys@[t]@) && match_at(
                    keys@[t]@,
                    prefix@,
                    0,
                ),
            forall|k: Seq<char>|
                store.has_key(k) && match_at(k, prefix@, 0) ==> key_listed(keys@, k),
            forall|p: Seq<char>|
                !in_materialize_image(*store, prefix@, d, p) ==> ((fs.has_file(p)
                    <==> fs0.has_file(p)) && (fs0.has_file(p) ==> fs.file_content(p)
                    == fs0.file_content(p))),
            forall|t: int|
                0 <= t < i && #[trigger] keys@[t]@.len() > prefix@.len() ==> fs.has_file(
                    local_path_of(prefix@, d, keys@[t]@),
                ) && fs.file_content(local_path_of(prefix@, d, keys@[t]@)) == store.content_of(
                    keys@[t]@,
                ),
        decreases n - i,
    {
        let key = &keys[i];
        let ghost k = key@;
        let keylen = key.as_str().unicode_len();
        if keylen > plen {
            let rel = segment(key.as_str(), plen, keylen);
            let mut path = dir.clone();
            path.append("/");
            path.append(rel.as_str());
            proof {
                reveal_strlit("/");
                assert(path@ == local_path_of(prefix@, d, k));
            }
            let content = match store.get(key.as_str()) {
                Some(c) => c,
                None => {
                    proof {
                        assert(false);
                    }
                    String::new()
                },
            };
            fs.write_file(path.as_str(), content.as_str());
            proof {
                let pk = local_path_of(prefix@, d, k);
                assert(in_materialize_image(*store, prefix@, d, pk)) by {
                    assert(store.has_key(k) && match_at(k, prefix@, 0) && k.len() > prefix@.len()
                        && pk == local_path_of(prefix@, d, k));
                }
                assert forall|p: Seq<char>|
                    !in_materialize_image(*store, prefix@, d, p) implies ((fs.has_file(p)
                    <==> fs0.has_file(p)) && (fs0.has_file(p) ==> fs.file_content(p)
                    == fs0.file_content(p))) by {
                    assert(p != pk);
                }
                assert forall|t: int|
                    0 <= t < i + 1 && #[trigger] keys@[t]@.len() > prefix@.len() implies fs.has_file(
                    local_path_of(prefix@, d, keys@[t]@),
                ) && fs.file_content(local_path_of(prefix@, d, keys@[t]@)) == store.content_of(
                    keys@[t]@,
                ) by {
                    let kt = keys@[t]@;
                    let pt = local_path_of(prefix@, d, kt);
                    if pt == pk {
                        crate::transform::lemma_key_decompose(kt, prefix@);
                        crate::transform::lemma_key_decompose(k, prefix@);
                        assert(kt.subrange(prefix@.len() as int, kt.len() as int) =~= pt.subrange(
                            d.len() as int + 1,
                            pt.len() as int,
                        ));
                        assert(k.subrange(prefix@.len() as int, k.len() as int) =~= pk.subrange(
                            d.len() as int + 1,
                            pk.len() as int,
                        ));
                        assert(kt == k);
                    }
                }
            }
        } else {
            proof {
                assert(forall|t: int|
                    0 <= t < i + 1 && #[trigger] keys@[t]@.len() > prefix@.len() ==> t < i);
            }
        }
        i = i + 1;
    }
    proof {
        reveal_strlit("/");
        assert forall|k: Seq<char>|
            #[trigger] store.has_key(k) && match_at(k, prefix@, 0) && k.len()
                > prefix@.len() implies fs.has_file(local_path_of(prefix@, d, k))
            && fs.file_content(local_path_of(prefix@, d, k)) == store.content_of(k) by {
            assert(key_listed(keys@, k));
            let t = choose|t: int| 0 <= t < keys@.len() && keys@[t]@ == k;
        }
    }
    Some(dir)
}

/// The object key a mirrored file is uploaded to.
pub open spec fn upload_key_of(
    prefix: Seq<char>,
    dir: Seq<char>,
    p: Seq<char>,
) -> Seq<char> {
    spec_join(prefix, p.subrange(dir.len() as int + 1, p.len() as int))
}

/// `k2` is the upload key of some file under `dir`.
pub open spec fn in_mirror_image(
    fs: LocalTree,
    prefix: Seq<char>,
    dir: Seq<char>,
    k2: Seq<char>,
) -> bool {
    exists|p: Seq<char>| #[trigger] fs.has_file(p) && match_at(p, dir + "/"@, 0) && k2
        == upload_key_of(prefix, dir, p)
}

/// Upload every file under `dir` to the store at the prefix joined with the
/// file's relative path; no other object changes.
pub fn mirror_back(fs: &LocalTree, store: &mut ObjectStore, dir: &str, prefix: &str)
    requires
        fs.wf(),
        old(store).wf(),
    ensures
        final(store).wf(),
        forall|p: Seq<char>|
            #[trigger] fs.has_file(p) && match_at(p, dir@ + "/"@, 0) ==> final(store).has_key(
                upload_key_of(prefix@, dir@, p),
            ) && final(store).content_of(upload_key_of(prefix@, dir@, p)) == fs.file_content(p),
        forall|k2: Seq<char>|
            !in_mirror_image(*fs, prefix@, dir@, k2) ==> ((final(store).has_key(k2) <==> old(
                store,
            ).has_key(k2)) && (old(store).has_key(k2) ==> final(store).content_of(k2) == old(
                store,
            ).content_of(k2))),
{
    let mut dslash = dir.to_owned();
    dslash.append("/");
    let paths = fs.files_under(dslash.as_str());
    let base = trim_slashes(prefix);
    let dlen = dir.unicode_len();
    let ghost pre = *store;
    let n = paths.len();
    let mut i: usize = 0;
    while i < n
        invariant
            0 <= i <= n,
            n == paths@.len(),
            store.wf(),
            fs.wf(),
            dlen == dir@.len(),
            dslash@ == dir@ + "/"@,
            base@ == spec_trim_slashes(prefix@),
            forall|t: int|
                0 <= t < n ==> fs.has_file(#[trigger] paths@[t]@) && match_at(
                    paths@[t]@,
                    dir@ + "/"@,
                    0,
                ),
            forall|p: Seq<char>|
                fs.has_file(p) && match_at(p, dir@ + "/"@, 0) ==> key_listed(paths@, p),
            forall|k2: Seq<char>|
                !in_mirror_image(*fs, prefix@, dir@, k2) ==> ((store.has_key(k2) <==> pre.has_key(
                    k2,
                )) && (pre.has_key(k2) ==> store.content_of(k2) == pre.content_of(k2))),
            forall|t: int|
                0 <= t < i ==> store.has_key(#[trigger] upload_key_of(prefix@, dir@, paths@[t]@))
                    && store.content_of(upload_key_of(prefix@, dir@, paths@[t]@))
                    == fs.file_content(paths@[t]@),
        decreases n - i,
    {
        let path = &paths[i];
        let ghost p = path@;
        let pathlen = path.as_str().unicode_len();
        proof {
            reveal_strlit("/");
            assert(p.len() >= dir@.len() + 1);
        }
        let rel = segment(path.as_str(), dlen + 1, pathlen);
        let mut up_key = base.clone();
        up_key.append("/");
        up_key.append(rel.as_str());
        proof {
            assert(up_key@ == upload_key_of(prefix@, dir@, p));
        }
        let content = match fs.read_file(path.as_str()) {
            Some(c) => c,
            None => {
                proof {
                    assert(false);
                }
                String::new()
            },
        };
        store.put(up_key.as_str(), content.as_str());
        proof {
            let uk = upload_key_of(prefix@, dir@, p);
            assert(in_mirror_image(*fs, prefix@, dir@, uk)) by {
                assert(fs.has_file(p) && match_at(p, dir@ + "/"@, 0) && uk == upload_key_of(
                    prefix@,
                    dir@,
                    p,
                ));
            }
            assert forall|k2: Seq<char>|
                !in_mirror_image(*fs, prefix@, dir@, k2) implies ((store.has_key(k2)
                <==> pre.has_key(k2)) && (pre.has_key(k2) ==> store.content_of(k2)
                == pre.content_of(k2))) by {
                assert(k2 != uk);
            }
            assert forall|t: int|
                0 <= t < i + 1 implies store.has_key(
                #[trigger] upload_key_of(prefix@, dir@, paths@[t]@),
            ) && store.content_of(upload_key_of(prefix@, dir@, paths@[t]@)) == fs.file_content(
                paths@[t]@,
            ) by {
                let pt = paths@[t]@;
                let ukt = upload_key_of(prefix@, dir@, pt);
                if ukt == uk {
                    crate::transform::lemma_key_decompose(pt, dir@ + "/"@);
                    crate::transform::lemma_key_decompose(p, dir@ + "/"@);
                    assert(pt.subrange(dir@.len() as int + 1, pt.len() as int) =~= ukt.subrange(
                        spec_trim_slashes(prefix@).len() as int + 1,
                        ukt.len() as int,
                    ));
                    assert(p.subrange(dir@.len() as int + 1, p.len() as int) =~= uk.subrange(
                        spec_trim_slashes(prefix@).len() as int + 1,
                        uk.len() as int,
                    ));
                    assert(pt =~= p);
                }
            }
        }
        i = i + 1;
    }
    proof {
        reveal_strlit("/");
        assert forall|p: Seq<char>|
            #[trigger] fs.has_file(p) && match_at(p, dir@ + "/"@, 0) implies store.has_key(
            upload_key_of(prefix@, dir@, p),
        ) && store.content_of(upload_key_of(prefix@, dir@, p)) == fs.file_content(p) by {
            assert(key_listed(paths@, p));
            let t = choose|t: int| 0 <= t < paths@.len() && paths@[t]@ == p;
        }
    }
}

/// Materialize followed by mirror-back restores every object: if the local
/// tree holds what `materialize` wrote for `store0` under `prefix`, and
/// `store2` holds what `mirror_back` uploads from that tree over any base
/// store, then every object under the prefix, except the prefix itself, is
/// present in `store2` with its original content.
pub proof fn lemma_materialize_mirror_round_trip(
    store0: ObjectStore,
    fs1: LocalTree,
    store2: ObjectStore,
    prefix: Seq<char>,
    dir: Seq<char>,
)
    requires
        prefix.len() >= 2,
        prefix[prefix.len() - 1] == '/',
        prefix[prefix.len() - 2] != '/',
        forall|k: Seq<char>|
            #[trigger] store0.has_key(k) && match_at(k, prefix, 0) && k.len() > prefix.len()
                ==> fs1.has_file(local_path_of(prefix, dir, k)) && fs1.file_content(
                local_path_of(prefix, dir, k),
            ) == store0.content_of(k),
        forall|p: Seq<char>|
            #[trigger] fs1.has_file(p) && match_at(p, dir + "/"@, 0) ==> store2.has_key(
                upload_key_of(prefix, dir, p),
            ) && store2.content_of(upload_key_of(prefix, dir, p)) == fs1.file_content(p),
    ensures
        forall|k: Seq<char>|
            #[trigger] store0.has_key(k) && match_at(k, prefix, 0) && k.len() > prefix.len()
                ==> store2.has_key(k) && store2.content_of(k) == store0.content_of(k),
{
    assert forall|k: Seq<char>|
        #[trigger] store0.has_key(k) && match_at(k, prefix, 0) && k.len()
            > prefix.len() implies store2.has_key(k) && store2.content_of(k) == store0.content_of(
        k,
    ) by {
        reveal_strlit("/");
        let rel = k.subrange(prefix.len() as int, k.len() as int);
        let p = local_path_of(prefix, dir, k);
        assert(match_at(p, dir + "/"@, 0)) by {
            assert(p.subrange(0, dir.len() as int + 1) =~= dir + "/"@);
        }
        assert(p.subrange(dir.len() as int + 1, p.len() as int) =~= rel);
        assert(upload_key_of(prefix, dir, p) == spec_join(prefix, rel));
        lemma_join_slashed_prefix(prefix, rel);
        crate::transform::lemma_key_decompose(k, prefix);
        assert(upload_key_of(prefix, dir, p) == k);
    }
}

}
