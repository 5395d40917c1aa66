use vstd::prelude::*;
use crate::text::{match_at, str_eq, segment, contains_seq};
use crate::replace::{
    spec_apply_pairs, apply_pairs, views_of_pairs, pairs_nonempty, pairs_cross_disjoint,
    lemma_apply_pairs_removes_all,
};
use crate::store::{ObjectStore, key_listed};

verus! {

/// The distro value used in substitution: the given one, or `debian-12`.
pub open spec fn spec_distro_value(distro: Option<&str>) -> Seq<char> {
    match distro {
        Some(d) => d@,
        None => "debian-12"@,
    }
}

/// The substitution applied to `variables.tf`: the given pairs in order,
/// then `__DISTRO__` replaced by the distro value.
pub open spec fn spec_rewrite(
    content: Seq<char>,
    pvs: Seq<(Seq<char>, Seq<char>)>,
    distro_value: Seq<char>,
) -> Seq<char> {
    spec_apply_pairs(content, pvs.push(("__DISTRO__"@, distro_value)))
}

/// The given pairs with the `__DISTRO__` pair appended.
pub fn effective_pairs(pairs: &Vec<(String, String)>, distro: Option<&str>) -> (r: Vec<
    (String, String),
>)
    ensures
        views_of_pairs(r@) == views_of_pairs(pairs@).push(
            ("__DISTRO__"@, spec_distro_value(distro)),
        ),
{
    let mut r: Vec<(String, String)> = Vec::new();
    let mut i: usize = 0;
    while i < pairs.len()
        invariant
            0 <= i <= pairs@.len(),
            r@.len() == i,
            forall|t: int| 0 <= t < i ==> #[trigger] r@[t] == pairs@[t],
        decreases pairs@.len() - i,
    {
        let p = (pairs[i].0.clone(), pairs[i].1.clone());
        proof {
            assert(p == pairs@[i as int]);
        }
        r.push(p);
        i = i + 1;
    }
    let dval = match distro {
        Some(d) => d.to_owned(),
        None => String::from_str("debian-12"),
    };
    r.push((String::from_str("__DISTRO__"), dval));
    proof {
        assert(views_of_pairs(r@) =~= views_of_pairs(pairs@).push(
            ("__DISTRO__"@, spec_distro_value(distro)),
        ));
    }
    r
}

/// Rewrite the content of `variables.tf`: apply every pair, then the distro.
pub fn rewrite_variables(content: &str, pairs: &Vec<(String, String)>, distro: Option<&str>) -> (r:
    String)
    ensures
        r@ == spec_rewrite(content@, views_of_pairs(pairs@), spec_distro_value(distro)),
{
    let eff = effective_pairs(pairs, distro);
    apply_pairs(content, &eff)
}

/// With no pairs and no distro given, the rewrite is exactly the replacement
/// of `__DISTRO__` by `debian-12`.
pub proof fn lemma_rewrite_default(content: Seq<char>)
    ensures
        spec_rewrite(content, Seq::empty(), "debian-12"@) == crate::replace::spec_replace(
            content,
            "__DISTRO__"@,
            "debian-12"@,
        ),
{
    let ps = Seq::<(Seq<char>, Seq<char>)>::empty().push(("__DISTRO__"@, "debian-12"@));
    assert(ps.len() == 1);
    assert(spec_rewrite(content, Seq::empty(), "debian-12"@) == crate::replace::spec_apply_pairs_from(
        crate::replace::spec_replace(content, "__DISTRO__"@, "debian-12"@),
        ps,
        1,
    ));
}

/// After the rewrite, no placeholder of the effective pair list occurs in
/// the result, provided every placeholder and value is nonempty and no value
/// shares a character with any placeholder of the list.
pub proof fn lemma_rewrite_removes_placeholders(
    content: Seq<char>,
    pvs: Seq<(Seq<char>, Seq<char>)>,
    distro_value: Seq<char>,
    k: int,
)
    requires
        pairs_nonempty(pvs.push(("__DISTRO__"@, distro_value))),
        pairs_cross_disjoint(pvs.push(("__DISTRO__"@, distro_value))),
        0 <= k < pvs.len() + 1,
    ensures
        !contains_seq(
            spec_rewrite(content, pvs, distro_value),
            pvs.push(("__DISTRO__"@, distro_value))[k].0,
        ),
{
    lemma_apply_pairs_removes_all(content, pvs.push(("__DISTRO__"@, distro_value)), k);
}

/// The destination key for a source key: the destination prefix followed by
/// the source key's suffix after the source prefix.
pub open spec fn dst_key_of(src: Seq<char>, dst: Seq<char>, k: Seq<char>) -> Seq<char> {
    dst + k.subrange(src.len() as int, k.len() as int)
}

/// `k2` is the destination of some source object.
pub open spec fn in_transform_image(
    st: ObjectStore,
    src: Seq<char>,
    dst: Seq<char>,
    k2: Seq<char>,
) -> bool {
    exists|k: Seq<char>| #[trigger] st.has_key(k) && match_at(k, src, 0) && k2 == dst_key_of(
        src,
        dst,
        k,
    )
}

/// A key that starts with two prefixes starts with the shorter inside the
/// longer.
pub proof fn lemma_prefix_of_prefix(k: Seq<char>, a: Seq<char>, b: Seq<char>)
    requires
        match_at(k, a, 0),
        match_at(k, b, 0),
        a.len() <= b.len(),
    ensures
        match_at(b, a, 0),
{
    assert(b.subrange(0, a.len() as int) =~= a) by {
        assert(forall|x: int| 0 <= x < a.len() ==> #[trigger] b[x] == k[x]);
        assert(forall|x: int| 0 <= x < a.len() ==> #[trigger] a[x] == k[x]);
    }
}

/// A key that starts with `src` is `src` followed by its suffix.
pub proof fn lemma_key_decompose(k: Seq<char>, src: Seq<char>)
    requires
        match_at(k, src, 0),
    ensures
        k == src + k.subrange(src.len() as int, k.len() as int),
{
    assert(k =~= src + k.subrange(src.len() as int, k.len() as int));
}

/// A destination key starts with the destination prefix.
pub proof fn lemma_dst_key_starts(src: Seq<char>, dst: Seq<char>, k: Seq<char>)
    requires
        match_at(k, src, 0),
    ensures
        match_at(dst_key_of(src, dst, k), dst, 0),
{
    assert(dst_key_of(src, dst, k).subrange(0, dst.len() as int) =~= dst);
}

/// Transform every object under `src_prefix` into `dst_prefix`: the object
/// whose suffix is `variables.tf` is rewritten by placeholder substitution,
/// every other object is copied byte-identically; nothing outside the image
/// of the source set changes. With an empty source set nothing is written.
pub fn transform_prefix(
    store: &mut ObjectStore,
    src_prefix: &str,
    dst_prefix: &str,
    pairs: &Vec<(String, String)>,
    distro: Option<&str>,
)
    requires
        old(store).wf(),
        !match_at(src_prefix@, dst_prefix@, 0),
        !match_at(dst_prefix@, src_prefix@, 0),
    ensures
        final(store).wf(),
        forall|k: Seq<char>|
            #[trigger] old(store).has_key(k) && match_at(k, src_prefix@, 0) ==> {
                let rel = k.subrange(src_prefix@.len() as int, k.len() as int);
                let dk = dst_key_of(src_prefix@, dst_prefix@, k);
                &&& (rel != "variables.tf"@ ==> final(store).has_key(dk)
                    && final(store).content_of(dk) == old(store).content_of(k))
                &&& (rel == "variables.tf"@ ==> final(store).has_key(dk)
                    && final(store).content_of(dk) == spec_rewrite(
                    old(store).content_of(k),
                    views_of_pairs(pairs@),
                    spec_distro_value(distro),
                ))
            },
        forall|k2: Seq<char>|
            !in_transform_image(*old(store), src_prefix@, dst_prefix@, k2) ==> ((final(store).has_key(
                k2,
            ) <==> old(store).has_key(k2)) && (old(store).has_key(k2) ==> final(store).content_of(k2)
                == old(store).content_of(k2))),
{
    let keys = store.list_under(src_prefix);
    let srclen = src_prefix.unicode_len();
    let ghost pre = *store;
    let ghost src = src_prefix@;
    let ghost dst = dst_prefix@;
    let n = keys.len();
    let mut i: usize = 0;
    while i < n
        invariant
            0 <= i <= n,
            n == keys@.len(),
            store.wf(),
            pre.wf(),
            srclen == src.len(),
            src == src_prefix@,
            dst == dst_prefix@,
            !match_at(src, dst, 0),
            !match_at(dst, src, 0),
            forall|t: int|
                0 <= t < n ==> pre.has_key(#[trigger] keys@[t]@) && match_at(keys@[t]@, src, 0),
            forall|k: Seq<char>| pre.has_key(k) && match_at(k, src, 0) ==> key_listed(keys@, k),
            forall|k2: Seq<char>|
                !in_transform_image(pre, src, dst, k2) ==> ((store.has_key(k2) <==> pre.has_key(
                    k2,
                )) && (pre.has_key(k2) ==> store.content_of(k2) == pre.content_of(k2))),
            forall|t: int|
                0 <= t < i ==> {
                    let k = #[trigger] keys@[t]@;
                    let rel = k.subrange(src.len() as int, k.len() as int);
                    let dk = dst_key_of(src, dst, k);
                    &&& (rel != "variables.tf"@ ==> store.has_key(dk) && store.content_of(dk)
                        == pre.content_of(k))
                    &&& (rel == "variables.tf"@ ==> store.has_key(dk) && store.content_of(dk)
                        == spec_rewrite(
                        pre.content_of(k),
                        views_of_pairs(pairs@),
                        spec_distro_value(distro),
                    ))
                },
        decreases n - i,
    {
        let key = &keys[i];
        let ghost k = key@;
        proof {
            // the source key is not a destination, so it is unchanged so far
            assert(!in_transform_image(pre, src, dst, k)) by {
                if in_transform_image(pre, src, dst, k) {
                    let k0 = choose|k0: Seq<char>|
                        #[trigger] pre.has_key(k0) && match_at(k0, src, 0) && k == dst_key_of(
                            src,
                            dst,
                            k0,
                        );
                    lemma_dst_key_starts(src, dst, k0);
                    if src.len() <= dst.len() {
                        lemma_prefix_of_prefix(k, src, dst);
                    } else {
                        lemma_prefix_of_prefix(k, dst, src);
                    }
                }
            }
        }
        let keylen = key.as_str().unicode_len();
        let rel = segment(key.as_str(), srclen, keylen);
        let mut dst_key = dst_prefix.to_owned();
        dst_key.append(rel.as_str());
        proof {
            assert(dst_key@ == dst_key_of(src, dst, k));
        }
        if str_eq(rel.as_str(), "variables.tf") {
            let content = match store.get(key.as_str()) {
                Some(c) => c,
                None => {
                    proof {
                        assert(false);
                    }
                    String::new()
                },
            };
            let newc = rewrite_variables(content.as_str(), pairs, distro);
            store.put(dst_key.as_str(), newc.as_str());
        } else {
            let copied = store.copy_object(key.as_str(), dst_key.as_str());
            proof {
                assert(copied);
            }
        }
        proof {
            let dk = dst_key_of(src, dst, k);
            assert(in_transform_image(pre, src, dst, dk)) by {
                assert(pre.has_key(k) && match_at(k, src, 0) && dk == dst_key_of(src, dst, k));
            }
            assert forall|k2: Seq<char>|
                !in_transform_image(pre, src, dst, k2) implies ((store.has_key(k2)
                <==> pre.has_key(k2)) && (pre.has_key(k2) ==> store.content_of(k2)
                == pre.content_of(k2))) by {
                assert(k2 != dk);
            }
            assert forall|t: int| 0 <= t < i + 1 implies {
                let kt = #[trigger] keys@[t]@;
                let relt = kt.subrange(src.len() as int, kt.len() as int);
                let dkt = dst_key_of(src, dst, kt);
                &&& (relt != "variables.tf"@ ==> store.has_key(dkt) && store.content_of(dkt)
                    == pre.content_of(kt))
                &&& (relt == "variables.tf"@ ==> store.has_key(dkt) && store.content_of(dkt)
                    == spec_rewrite(
                    pre.content_of(kt),
                    views_of_pairs(pairs@),
                    spec_distro_value(distro),
                ))
            } by {
                let kt = keys@[t]@;
                let relt = kt.subrange(src.len() as int, kt.len() as int);
                let dkt = dst_key_of(src, dst, kt);
                if dkt == dk {
                    // same destination: the suffixes agree, so the keys agree
                    lemma_key_decompose(kt, src);
                    lemma_key_decompose(k, src);
                    assert(relt =~= dk.subrange(dst.len() as int, dk.len() as int));
                    assert(k.subrange(src.len() as int, k.len() as int) =~= dk.subrange(
                        dst.len() as int,
                        dk.len() as int,
                    ));
                    assert(kt == k);
                } else {
                    if t < i {
                    }
                }
            }
        }
        i = i + 1;
    }
    proof {
        assert forall|k: Seq<char>|
            #[trigger] pre.has_key(k) && match_at(k, src, 0) implies {
            let rel = k.subrange(src.len() as int, k.len() as int);
            let dk = dst_key_of(src, dst, k);
            &&& (rel != "variables.tf"@ ==> store.has_key(dk) && store.content_of(dk)
                == pre.content_of(k))
            &&& (rel == "variables.tf"@ ==> store.has_key(dk) && store.content_of(dk)
                == spec_rewrite(
                pre.content_of(k),
                views_of_pairs(pairs@),
                spec_distro_value(distro),
            ))
        } by {
            assert(key_listed(keys@, k));
            let t = choose|t: int| 0 <= t < keys@.len() && keys@[t]@ == k;
        }
    }
}


/// With nothing under the source prefix the transform has an empty image:
/// it succeeds without writing anything, so the whole store is unchanged by
/// `transform_prefix`'s frame clause.
pub proof fn lemma_empty_source_no_image(
    st: ObjectStore,
    src: Seq<char>,
    dst: Seq<char>,
    k2: Seq<char>,
)
    requires
        !st.some_key_under(src),
    ensures
        !in_transform_image(st, src, dst, k2),
{
    if in_transform_image(st, src, dst, k2) {
        let k = choose|k: Seq<char>|
            #[trigger] st.has_key(k) && match_at(k, src, 0) && k2 == dst_key_of(src, dst, k);
        let i = choose|i: int|
            0 <= i < st.entries().len() && #[trigger] st.entries()[i].0@ == k;
        assert(match_at(st.entries()[i].0@, src, 0));
    }
}

}
