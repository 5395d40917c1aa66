use vstd::prelude::*;
use crate::text::{match_at, str_eq, starts_with_exec};

verus! {

/// A prefix-keyed object store, as the orchestrator sees one: a finite set of
/// keys, each holding text content. This is the model against which the
/// store-facing logic is verified and tested.
pub struct ObjectStore {
    pub objects: Vec<(String, String)>,
}

impl ObjectStore {
    /// The stored (key, content) pairs.
    pub open spec fn entries(self) -> Seq<(String, String)> {
        self.objects@
    }

    /// Keys are pairwise distinct.
    pub open spec fn wf(self) -> bool {
        forall|i: int, j: int|
            0 <= i < j < self.entries().len() ==> #[trigger] self.entries()[i].0@
                != #[trigger] self.entries()[j].0@
    }

    /// An object with key `k` exists.
    pub open spec fn has_key(self, k: Seq<char>) -> bool {
        exists|i: int| 0 <= i < self.entries().len() && #[trigger] self.entries()[i].0@ == k
    }

    /// The index of the object with key `k`.
    pub open spec fn idx_of(self, k: Seq<char>) -> int {
        choose|i: int| 0 <= i < self.entries().len() && #[trigger] self.entries()[i].0@ == k
    }

    /// The content of the object with key `k`.
    pub open spec fn content_of(self, k: Seq<char>) -> Seq<char> {
        self.entries()[self.idx_of(k)].1@
    }

    /// Some object's key starts with `prefix`.
    pub open spec fn some_key_under(self, prefix: Seq<char>) -> bool {
        exists|i: int|
            0 <= i < self.entries().len() && match_at(#[trigger] self.entries()[i].0@, prefix, 0)
    }

    /// In a well-formed store the key determines the entry.
    pub proof fn lemma_key_determines_index(self, i: int)
        requires
            self.wf(),
            0 <= i < self.entries().len(),
        ensures
            self.idx_of(self.entries()[i].0@) == i,
            self.content_of(self.entries()[i].0@) == self.entries()[i].1@,
            self.has_key(self.entries()[i].0@),
    {
        let k = self.entries()[i].0@;
        assert(self.has_key(k));
        let w = self.idx_of(k);
        if w != i {
            if w < i {
                assert(self.entries()[w].0@ != self.entries()[i].0@);
            } else {
                assert(self.entries()[i].0@ != self.entries()[w].0@);
            }
        }
    }

    /// An empty store.
    pub fn new() -> (r: ObjectStore)
        ensures
            r.wf(),
            r.entries().len() == 0,
            forall|k: Seq<char>| !r.has_key(k),
    {
        ObjectStore { objects: Vec::new() }
    }

    /// The content stored under `key`, if any.
    pub fn get(&self, key: &str) -> (r: Option<String>)
        requires
            self.wf(),
        ensures
            match r {
                Some(c) => self.has_key(key@) && c@ == self.content_of(key@),
                None => !self.has_key(key@),
            },
    {
        let n = self.objects.len();
        let mut i: usize = 0;
        while i < n
            invariant
                0 <= i <= n,
                n == self.entries().len(),
                self.wf(),
                forall|j: int| 0 <= j < i ==> #[trigger] self.entries()[j].0@ != key@,
            decreases n - i,
        {
            if str_eq(self.objects[i].0.as_str(), key) {
                proof {
                    self.lemma_key_determines_index(i as int);
                }
                return Some(self.objects[i].1.clone());
            }
            i = i + 1;
        }
        None
    }

    /// The index of `key` among the entries, if present.
    fn find_index(&self, key: &str) -> (r: Option<usize>)
        requires
            self.wf(),
        ensures
            match r {
                Some(i) => i < self.entries().len() && self.entries()[i as int].0@ == key@,
                None => !self.has_key(key@),
            },
    {
        let n = self.objects.len();
        let mut i: usize = 0;
        while i < n
            invariant
                0 <= i <= n,
                n == self.entries().len(),
                forall|j: int| 0 <= j < i ==> #[trigger] self.entries()[j].0@ != key@,
            decreases n - i,
        {
            if str_eq(self.objects[i].0.as_str(), key) {
                return Some(i);
            }
            i = i + 1;
        }
        None
    }

    /// Store `content` under `key`, overwriting any object already there.
    pub fn put(&mut self, key: &str, content: &str)
        requires
            old(self).wf(),
        ensures
            final(self).wf(),
            final(self).has_key(key@),
            final(self).content_of(key@) == content@,
            forall|k: Seq<char>| k != key@ ==> (final(self).has_key(k) <==> old(self).has_key(k)),
            forall|k: Seq<char>|
                k != key@ && old(self).has_key(k) ==> final(self).content_of(k) == old(self).content_of(k),
    {
        let found = self.find_index(key);
        match found {
            Some(i) => {
                let ghost pre = *self;
                self.objects.remove(i);
                proof {
                    assert forall|j: int| 0 <= j < self.entries().len() implies #[trigger] self.entries()[j].0@
                        != key@ by {
                        if j < i {
                            assert(self.entries()[j] == pre.entries()[j]);
                            if pre.entries()[j].0@ == key@ {
                                assert(pre.entries()[j].0@ != pre.entries()[i as int].0@);
                            }
                        } else {
                            assert(self.entries()[j] == pre.entries()[j + 1]);
                            if pre.entries()[j + 1].0@ == key@ {
                                assert(pre.entries()[i as int].0@ != pre.entries()[j + 1].0@);
                            }
                        }
                    }
                    assert forall|k: Seq<char>| k != key@ implies (self.has_key(k) <==> pre.has_key(
                        k,
                    )) by {
                        if self.has_key(k) {
                            let w = choose|w: int|
                                0 <= w < self.entries().len() && #[trigger] self.entries()[w].0@
                                    == k;
                            if w < i {
                                assert(pre.entries()[w].0@ == k);
                            } else {
                                assert(pre.entries()[w + 1].0@ == k);
                            }
                        }
                        if pre.has_key(k) {
                            let w = choose|w: int|
                                0 <= w < pre.entries().len() && #[trigger] pre.entries()[w].0@
                                    == k;
                            if w < i {
                                assert(self.entries()[w].0@ == k);
                            } else {
                                assert(w != i);
                                assert(self.entries()[w - 1].0@ == k);
                            }
                        }
                    }
                    assert forall|k: Seq<char>| k != key@ && pre.has_key(k) implies self.content_of(
                        k,
                    ) == pre.content_of(k) by {
                        let w = choose|w: int|
                            0 <= w < self.entries().len() && #[trigger] self.entries()[w].0@ == k;
                        self.lemma_key_determines_index(w);
                        if w < i {
                            pre.lemma_key_determines_index(w);
                        } else {
                            pre.lemma_key_determines_index(w + 1);
                        }
                    }
                }
                self.push_fresh(key, content);
            },
            None => {
                self.push_fresh(key, content);
            },
        }
    }

    /// Append an object whose key is not yet present.
    fn push_fresh(&mut self, key: &str, content: &str)
        requires
            old(self).wf(),
            !old(self).has_key(key@),
        ensures
            final(self).wf(),
            final(self).has_key(key@),
            final(self).content_of(key@) == content@,
            forall|k: Seq<char>| k != key@ ==> (final(self).has_key(k) <==> old(self).has_key(k)),
            forall|k: Seq<char>|
                k != key@ && old(self).has_key(k) ==> final(self).content_of(k) == old(self).content_of(k),
    {
        let ghost pre = *self;
        let pair = (key.to_owned(), content.to_owned());
        self.objects.push(pair);
        proof {
            let n = pre.entries().len() as int;
            assert(self.entries()[n].0@ == key@);
            assert forall|j: int| 0 <= j < n implies #[trigger] self.entries()[j]
                == pre.entries()[j] by {}
            assert(self.wf()) by {
                assert forall|i: int, j: int|
                    0 <= i < j < self.entries().len() implies #[trigger] self.entries()[i].0@
                    != #[trigger] self.entries()[j].0@ by {
                    if j < n {
                    } else {
                        if pre.entries()[i].0@ == key@ {
                            assert(pre.has_key(key@));
                        }
                    }
                }
            }
            self.lemma_key_determines_index(n);
            assert forall|k: Seq<char>| k != key@ implies (self.has_key(k) <==> pre.has_key(
                k,
            )) by {
                if self.has_key(k) {
                    let w = choose|w: int|
                        0 <= w < self.entries().len() && #[trigger] self.entries()[w].0@ == k;
                    assert(w < n);
                    assert(pre.entries()[w].0@ == k);
                }
                if pre.has_key(k) {
                    let w = choose|w: int|
                        0 <= w < pre.entries().len() && #[trigger] pre.entries()[w].0@ == k;
                    assert(self.entries()[w].0@ == k);
                }
            }
            assert forall|k: Seq<char>| k != key@ && pre.has_key(k) implies self.content_of(k)
                == pre.content_of(k) by {
                let w = choose|w: int|
                    0 <= w < pre.entries().len() && #[trigger] pre.entries()[w].0@ == k;
                pre.lemma_key_determines_index(w);
                self.lemma_key_determines_index(w);
            }
        }
    }

    /// Copy the object at `src` to `dst` within the store, as a server-side
    /// copy would. Fails (returning false, changing nothing) when `src` is
    /// absent.
    pub fn copy_object(&mut self, src: &str, dst: &str) -> (r: bool)
        requires
            old(self).wf(),
        ensures
            final(self).wf(),
            r == old(self).has_key(src@),
            !r ==> *final(self) == *old(self),
            r ==> final(self).has_key(dst@) && final(self).content_of(dst@) == old(self).content_of(src@),
            r ==> forall|k: Seq<char>| k != dst@ ==> (final(self).has_key(k) <==> old(self).has_key(k)),
            r ==> forall|k: Seq<char>|
                k != dst@ && old(self).has_key(k) ==> final(self).content_of(k) == old(self).content_of(k),
    {
        let got = self.get(src);
        match got {
            Some(c) => {
                self.put(dst, c.as_str());
                true
            },
            None => false,
        }
    }

    /// All keys that start with `prefix`.
    pub fn list_under(&self, prefix: &str) -> (r: Vec<String>)
        requires
            self.wf(),
        ensures
            forall|t: int|
                0 <= t < r@.len() ==> self.has_key(#[trigger] r@[t]@) && match_at(
                    r@[t]@,
                    prefix@,
                    0,
                ),
            forall|k: Seq<char>|
                self.has_key(k) && match_at(k, prefix@, 0) ==> key_listed(r@, k),
            r@.len() == 0 ==> !self.some_key_under(prefix@),
    {
        let n = self.objects.len();
        let mut out: Vec<String> = Vec::new();
        let mut i: usize = 0;
        while i < n
            invariant
                0 <= i <= n,
                n == self.entries().len(),
                self.wf(),
                forall|t: int|
                    0 <= t < out@.len() ==> self.has_key(#[trigger] out@[t]@) && match_at(
                        out@[t]@,
                        prefix@,
                        0,
                    ),
                forall|j: int|
                    0 <= j < i && match_at(#[trigger] self.entries()[j].0@, prefix@, 0)
                        ==> key_listed(out@, self.entries()[j].0@),
            decreases n - i,
        {
            if starts_with_exec(self.objects[i].0.as_str(), prefix) {
                let ghost preout = out@;
                out.push(self.objects[i].0.clone());
                proof {
                    self.lemma_key_determines_index(i as int);
                    let last = preout.len() as int;
                    assert(out@[last]@ == self.entries()[i as int].0@);
                    assert(forall|t: int| 0 <= t < last ==> out@[t] == preout[t]);
                    assert(key_listed(out@, self.entries()[i as int].0@));
                    assert forall|j: int|
                        0 <= j < i + 1 && match_at(
                            #[trigger] self.entries()[j].0@,
                            prefix@,
                            0,
                        ) implies key_listed(out@, self.entries()[j].0@) by {
                        if j < i {
                            assert(key_listed(preout, self.entries()[j].0@));
                            let t = choose|t: int|
                                0 <= t < preout.len() && preout[t]@ == self.entries()[j].0@;
                            assert(out@[t]@ == self.entries()[j].0@);
                            assert(key_listed(out@, self.entries()[j].0@));
                        }
                    }
                    assert forall|t: int|
                        0 <= t < out@.len() implies self.has_key(#[trigger] out@[t]@) && match_at(
                            out@[t]@,
                            prefix@,
                            0,
                        ) by {
                        if t < last {
                            assert(out@[t] == preout[t]);
                        }
                    }
                }
            }
            i = i + 1;
        }
        proof {
            if out@.len() == 0 {
                assert forall|j: int|
                    0 <= j < self.entries().len() implies !match_at(
                        #[trigger] self.entries()[j].0@,
                        prefix@,
                        0,
                    ) by {
                    if match_at(self.entries()[j].0@, prefix@, 0) {
                        assert(key_listed(out@, self.entries()[j].0@));
                        let t = choose|t: int|
                            0 <= t < out@.len() && out@[t]@ == self.entries()[j].0@;
                    }
                }
            }
        }
        out
    }

    /// Remove every object whose key is in `keys`; other objects are kept.
    pub fn delete_keys(&mut self, keys: &Vec<String>)
        requires
            old(self).wf(),
        ensures
            final(self).wf(),
            forall|k: Seq<char>|
                #[trigger] final(self).has_key(k) <==> (old(self).has_key(k) && !key_listed(
                    keys@,
                    k,
                )),
            forall|k: Seq<char>|
                final(self).has_key(k) ==> final(self).content_of(k) == old(self).content_of(k),
    {
        let ghost pre = *self;
        let n = self.objects.len();
        let mut kept: Vec<(String, String)> = Vec::new();
        let mut i: usize = 0;
        while i < n
            invariant
                0 <= i <= n,
                pre == *self,
                n == self.entries().len(),
                self.wf(),
                forall|t: int|
                    0 <= t < kept@.len() ==> exists|j: int|
                        0 <= j < i && #[trigger] kept@[t] == self.entries()[j],
                forall|t: int, u: int|
                    0 <= t < u < kept@.len() ==> #[trigger] kept@[t].0@ != #[trigger] kept@[u].0@,
                forall|j: int|
                    #![trigger self.entries()[j]]
                    0 <= j < i ==> (entry_listed(kept@, self.entries()[j].0@) <==> !key_listed(
                        keys@,
                        self.entries()[j].0@,
                    )),
            decreases n - i,
        {
            let mut in_list = false;
            let m = keys.len();
            let mut t: usize = 0;
            while t < m
                invariant
                    0 <= t <= m,
                    m == keys@.len(),
                    n == self.entries().len(),
                    i < n,
                    in_list ==> key_listed(keys@, self.entries()[i as int].0@),
                    !in_list ==> forall|u: int|
                        0 <= u < t ==> #[trigger] keys@[u]@ != self.entries()[i as int].0@,
                decreases m - t,
            {
                if str_eq(keys[t].as_str(), self.objects[i].0.as_str()) {
                    in_list = true;
                    proof {
                        assert(keys@[t as int]@ == self.entries()[i as int].0@);
                        assert(key_listed(keys@, self.entries()[i as int].0@));
                    }
                }
                t = t + 1;
            }
            proof {
                if !in_list && key_listed(keys@, self.entries()[i as int].0@) {
                    let u = choose|u: int|
                        0 <= u < keys@.len() && keys@[u]@ == self.entries()[i as int].0@;
                    assert(false);
                }
            }
            if !in_list {
                let ghost prekept = kept@;
                let pair = (self.objects[i].0.clone(), self.objects[i].1.clone());
                proof {
                    assert(pair.0@ == self.entries()[i as int].0@);
                    assert(pair.1@ == self.entries()[i as int].1@);
                    assert(pair == self.entries()[i as int]);
                }
                kept.push(pair);
                proof {
                    let last = prekept.len() as int;
                    assert(kept@[last] == self.entries()[i as int]);
                    assert(forall|t2: int| 0 <= t2 < last ==> kept@[t2] == prekept[t2]);
                    assert(entry_listed(kept@, self.entries()[i as int].0@));
                    assert forall|t2: int| 0 <= t2 < kept@.len() implies exists|j: int|
                        0 <= j < i + 1 && #[trigger] kept@[t2] == self.entries()[j] by {
                        if t2 < last {
                            let j = choose|j: int|
                                0 <= j < i && #[trigger] prekept[t2] == self.entries()[j];
                            assert(0 <= j < i + 1 && kept@[t2] == self.entries()[j]);
                        } else {
                            assert(0 <= i < i + 1 && kept@[t2] == self.entries()[i as int]);
                        }
                    }
                    assert forall|t2: int, u2: int|
                        0 <= t2 < u2 < kept@.len() implies #[trigger] kept@[t2].0@
                        != #[trigger] kept@[u2].0@ by {
                        if u2 < last {
                        } else {
                            assert(kept@[u2] == self.entries()[i as int]);
                            let j = choose|j: int|
                                0 <= j < i && #[trigger] prekept[t2] == self.entries()[j];
                            assert(self.entries()[j].0@ != self.entries()[i as int].0@);
                        }
                    }
                    assert forall|j: int|
                        #![trigger self.entries()[j]]
                        0 <= j < i + 1 implies (entry_listed(kept@, self.entries()[j].0@)
                        <==> !key_listed(keys@, self.entries()[j].0@)) by {
                        if j < i {
                            if entry_listed(prekept, self.entries()[j].0@) {
                                let t2 = choose|t2: int|
                                    0 <= t2 < prekept.len() && prekept[t2].0@
                                        == self.entries()[j].0@;
                                assert(kept@[t2].0@ == self.entries()[j].0@);
                                assert(entry_listed(kept@, self.entries()[j].0@));
                            }
                            if entry_listed(kept@, self.entries()[j].0@) {
                                let t2 = choose|t2: int|
                                    0 <= t2 < kept@.len() && kept@[t2].0@ == self.entries()[j].0@;
                                if t2 == last {
                                    assert(self.entries()[i as int].0@ != self.entries()[j].0@);
                                    assert(false);
                                } else {
                                    assert(prekept[t2].0@ == self.entries()[j].0@);
                                    assert(entry_listed(prekept, self.entries()[j].0@));
                                }
                            }
                        }
                    }
                }
            } else {
                proof {
                    assert forall|j: int|
                        #![trigger self.entries()[j]]
                        0 <= j < i + 1 implies (entry_listed(kept@, self.entries()[j].0@)
                        <==> !key_listed(keys@, self.entries()[j].0@)) by {
                        if j == i {
                            if entry_listed(kept@, self.entries()[j].0@) {
                                let t2 = choose|t2: int|
                                    0 <= t2 < kept@.len() && kept@[t2].0@ == self.entries()[j].0@;
                                let jj = choose|jj: int|
                                    0 <= jj < i && #[trigger] kept@[t2] == self.entries()[jj];
                                assert(self.entries()[jj].0@ != self.entries()[i as int].0@);
                                assert(false);
                            }
                        }
                    }
                }
            }
            i = i + 1;
        }
        self.objects = kept;
        proof {
            assert forall|k: Seq<char>| #[trigger] self.has_key(k) implies (pre.has_key(k)
                && !key_listed(keys@, k)) by {
                let t = choose|t: int|
                    0 <= t < self.entries().len() && #[trigger] self.entries()[t].0@ == k;
                let j = choose|j: int| 0 <= j < n && #[trigger] self.entries()[t] == pre.entries()[j];
                assert(pre.entries()[j].0@ == k);
                assert(entry_listed(kept@, pre.entries()[j].0@));
            }
            assert forall|k: Seq<char>| pre.has_key(k) && !key_listed(keys@, k) implies self.has_key(
                k,
            ) by {
                let j = choose|j: int|
                    0 <= j < pre.entries().len() && #[trigger] pre.entries()[j].0@ == k;
                assert(entry_listed(kept@, pre.entries()[j].0@));
                let t = choose|t: int| 0 <= t < kept@.len() && kept@[t].0@ == k;
                assert(self.entries()[t].0@ == k);
            }
            assert forall|k: Seq<char>| self.has_key(k) implies self.content_of(k)
                == pre.content_of(k) by {
                let t = self.idx_of(k);
                assert(0 <= t < self.entries().len() && self.entries()[t].0@ == k);
                let j = choose|j: int| 0 <= j < n && #[trigger] self.entries()[t] == pre.entries()[j];
                self.lemma_key_determines_index(t);
                pre.lemma_key_determines_index(j);
            }
        }
    }
}

/// Some position of `out` holds the key `k`.
pub open spec fn key_listed(out: Seq<String>, k: Seq<char>) -> bool {
    exists|t: int| 0 <= t < out.len() && out[t]@ == k
}

/// Some entry of `es` has the key `k`.
pub open spec fn entry_listed(es: Seq<(String, String)>, k: Seq<char>) -> bool {
    exists|t: int| 0 <= t < es.len() && es[t].0@ == k
}

}
