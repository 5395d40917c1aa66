use vstd::prelude::*;
use crate::text::{match_at, str_eq};
use crate::store::{ObjectStore, key_listed};

verus! {

/// The local filesystem as the working-tree manager sees it: a set of
/// directories and a map from file paths to contents, all paths relative to
/// the process root with `/` separators.
pub struct LocalTree {
    pub dirs: Vec<String>,
    pub files: ObjectStore,
}

impl LocalTree {
    /// The directory paths.
    pub open spec fn dir_paths(self) -> Seq<String> {
        self.dirs@
    }

    /// Directories are pairwise distinct and file paths are pairwise
    /// distinct.
    pub open spec fn wf(self) -> bool {
        &&& forall|i: int, j: int|
            0 <= i < j < self.dir_paths().len() ==> #[trigger] self.dir_paths()[i]@
                != #[trigger] self.dir_paths()[j]@
        &&& self.files.wf()
    }

    /// A directory with this path exists.
    pub open spec fn has_dir(self, d: Seq<char>) -> bool {
        exists|i: int| 0 <= i < self.dir_paths().len() && #[trigger] self.dir_paths()[i]@ == d
    }

    /// A file with this path exists.
    pub open spec fn has_file(self, p: Seq<char>) -> bool {
        self.files.has_key(p)
    }

    /// The content of the file at this path.
    pub open spec fn file_content(self, p: Seq<char>) -> Seq<char> {
        self.files.content_of(p)
    }

    /// Some file lies under this path prefix.
    pub open spec fn some_file_under(self, prefix: Seq<char>) -> bool {
        self.files.some_key_under(prefix)
    }

    /// An empty tree.
    pub fn new() -> (r: LocalTree)
        ensures
            r.wf(),
            forall|d: Seq<char>| !r.has_dir(d),
            forall|p: Seq<char>| !r.has_file(p),
    {
        LocalTree { dirs: Vec::new(), files: ObjectStore::new() }
    }

    /// Create the directory at `d`, as `create_dir_all` would.
    pub fn create_dir(&mut self, d: &str)
        requires
            old(self).wf(),
        ensures
            final(self).wf(),
            final(self).has_dir(d@),
            forall|x: Seq<char>| x != d@ ==> (final(self).has_dir(x) <==> old(self).has_dir(x)),
            final(self).files == old(self).files,
    {
        let n = self.dirs.len();
        let mut i: usize = 0;
        while i < n
            invariant
                0 <= i <= n,
                *self == *old(self),
                n == self.dir_paths().len(),
                self.wf(),
                forall|j: int| 0 <= j < i ==> #[trigger] self.dir_paths()[j]@ != d@,
            decreases n - i,
        {
            if str_eq(self.dirs[i].as_str(), d) {
                return ;
            }
            i = i + 1;
        }
        let ghost pre = *self;
        self.dirs.push(d.to_owned());
        proof {
            let last = pre.dir_paths().len() as int;
            assert(self.dir_paths()[last]@ == d@);
            assert(forall|j: int| 0 <= j < last ==> self.dir_paths()[j] == pre.dir_paths()[j]);
            assert forall|x: Seq<char>| x != d@ implies (self.has_dir(x) <==> pre.has_dir(x)) by {
                if self.has_dir(x) {
                    let w = choose|w: int|
                        0 <= w < self.dir_paths().len() && #[trigger] self.dir_paths()[w]@ == x;
                    assert(w < last);
                    assert(pre.dir_paths()[w]@ == x);
                }
                if pre.has_dir(x) {
                    let w = choose|w: int|
                        0 <= w < pre.dir_paths().len() && #[trigger] pre.dir_paths()[w]@ == x;
                    assert(self.dir_paths()[w]@ == x);
                }
            }
        }
    }

    /// Whether the directory at `d` exists.
    pub fn dir_exists(&self, d: &str) -> (r: bool)
        requires
            self.wf(),
        ensures
            r == self.has_dir(d@),
    {
        let n = self.dirs.len();
        let mut i: usize = 0;
        while i < n
            invariant
                0 <= i <= n,
                n == self.dir_paths().len(),
                forall|j: int| 0 <= j < i ==> #[trigger] self.dir_paths()[j]@ != d@,
            decreases n - i,
        {
            if str_eq(self.dirs[i].as_str(), d) {
                return true;
            }
            i = i + 1;
        }
        false
    }

    /// Write `content` to the file at `path`, overwriting it if present.
    pub fn write_file(&mut self, path: &str, content: &str)
        requires
            old(self).wf(),
        ensures
            final(self).wf(),
            final(self).has_file(path@),
            final(self).file_content(path@) == content@,
            forall|p: Seq<char>| p != path@ ==> (final(self).has_file(p) <==> old(self).has_file(p)),
            forall|p: Seq<char>|
                p != path@ && old(self).has_file(p) ==> final(self).file_content(p) == old(
                    self,
                ).file_content(p),
            final(self).dir_paths() == old(self).dir_paths(),
    {
        self.files.put(path, content);
        proof {
            assert(self.dirs@ == old(self).dirs@);
            assert forall|i: int, j: int|
                0 <= i < j < self.dir_paths().len() implies #[trigger] self.dir_paths()[i]@
                != #[trigger] self.dir_paths()[j]@ by {
                assert(old(self).dir_paths()[i]@ != old(self).dir_paths()[j]@);
            }
            assert(self.wf());
        }
    }

    /// The content of the file at `path`, if it exists.
    pub fn read_file(&self, path: &str) -> (r: Option<String>)
        requires
            self.wf(),
        ensures
            match r {
                Some(c) => self.has_file(path@) && c@ == self.file_content(path@),
                None => !self.has_file(path@),
            },
    {
        self.files.get(path)
    }

    /// All file paths under `prefix`.
    pub fn files_under(&self, prefix: &str) -> (r: Vec<String>)
        requires
            self.wf(),
        ensures
            forall|t: int|
                0 <= t < r@.len() ==> self.has_file(#[trigger] r@[t]@) && match_at(
                    r@[t]@,
                    prefix@,
                    0,
                ),
            forall|p: Seq<char>|
                self.has_file(p) && match_at(p, prefix@, 0) ==> key_listed(r@, p),
            r@.len() == 0 ==> !self.some_file_under(prefix@),
    {
        self.files.list_under(prefix)
    }

    /// Remove the directory entry at `d`, leaving files untouched.
    fn remove_dir_entry(&mut self, d: &str)
        requires
            old(self).wf(),
        ensures
            final(self).wf(),
            !final(self).has_dir(d@),
            forall|x: Seq<char>| x != d@ ==> (final(self).has_dir(x) <==> old(self).has_dir(x)),
            final(self).files == old(self).files,
    {
        let n = self.dirs.len();
        let mut i: usize = 0;
        while i < n
            invariant
                0 <= i <= n,
                *self == *old(self),
                n == self.dir_paths().len(),
                self.wf(),
                forall|j: int| 0 <= j < i ==> #[trigger] self.dir_paths()[j]@ != d@,
            decreases n - i,
        {
            if str_eq(self.dirs[i].as_str(), d) {
                let ghost pre = *self;
                self.dirs.remove(i);
                proof {
                    assert forall|j: int|
                        0 <= j < self.dir_paths().len() implies #[trigger] self.dir_paths()[j]@
                        != d@ by {
                        if j < i {
                            assert(self.dir_paths()[j] == pre.dir_paths()[j]);
                            if pre.dir_paths()[j]@ == d@ {
                                assert(pre.dir_paths()[j]@ != pre.dir_paths()[i as int]@);
                            }
                        } else {
                            assert(self.dir_paths()[j] == pre.dir_paths()[j + 1]);
                            if pre.dir_paths()[j + 1]@ == d@ {
                                assert(pre.dir_paths()[i as int]@ != pre.dir_paths()[j + 1]@);
                            }
                        }
                    }
                    assert forall|x: Seq<char>| x != d@ implies (self.has_dir(x) <==> pre.has_dir(
                        x,
                    )) by {
                        if self.has_dir(x) {
                            let w = choose|w: int|
                                0 <= w < self.dir_paths().len()
                                    && #[trigger] self.dir_paths()[w]@ == x;
                            if w < i {
                                assert(pre.dir_paths()[w]@ == x);
                            } else {
                                assert(self.dir_paths()[w] == pre.dir_paths()[w + 1]);
                                assert(pre.dir_paths()[w + 1]@ == x);
                            }
                        }
                        if pre.has_dir(x) {
                            let w = choose|w: int|
                                0 <= w < pre.dir_paths().len()
                                    && #[trigger] pre.dir_paths()[w]@ == x;
                            if w < i {
                                assert(self.dir_paths()[w] == pre.dir_paths()[w]);
                                assert(self.dir_paths()[w]@ == x);
                            } else {
                                assert(w != i);
                                assert(self.dir_paths()[w - 1] == pre.dir_paths()[w]);
                                assert(self.dir_paths()[w - 1]@ == x);
                            }
                        }
                    }
                }
                return ;
            }
            i = i + 1;
        }
    }

    /// Remove the directory at `d` with everything under it, as
    /// `remove_dir_all` would: the directory entry goes away, and so does
    /// every file whose path starts with `d` followed by `/`.
    pub fn remove_tree(&mut self, d: &str)
        requires
            old(self).wf(),
        ensures
            final(self).wf(),
            !final(self).has_dir(d@),
            forall|x: Seq<char>| x != d@ ==> (final(self).has_dir(x) <==> old(self).has_dir(x)),
            forall|p: Seq<char>|
                #[trigger] final(self).has_file(p) <==> (old(self).has_file(p) && !match_at(
                    p,
                    d@ + "/"@,
                    0,
                )),
            forall|p: Seq<char>|
                final(self).has_file(p) ==> final(self).file_content(p) == old(
                    self,
                ).file_content(p),
    {
        self.remove_dir_entry(d);
        let ghost mid = *self;
        let mut prefix = d.to_owned();
        prefix.append("/");
        let doomed = self.files.list_under(prefix.as_str());
        self.files.delete_keys(&doomed);
        proof {
            assert forall|p: Seq<char>| #[trigger] self.files.has_key(p) implies (old(
                self,
            ).files.has_key(p) && !match_at(p, d@ + "/"@, 0)) by {
                if match_at(p, prefix@, 0) {
                    assert(key_listed(doomed@, p));
                }
            }
            assert forall|p: Seq<char>|
                old(self).files.has_key(p) && !match_at(p, d@ + "/"@, 0) implies self.files.has_key(
                p,
            ) by {
                if key_listed(doomed@, p) {
                    let t = choose|t: int| 0 <= t < doomed@.len() && doomed@[t]@ == p;
                    assert(match_at(doomed@[t]@, prefix@, 0));
                }
            }
            assert(self.dirs@ == mid.dirs@);
            assert forall|i: int, j: int|
                0 <= i < j < self.dir_paths().len() implies #[trigger] self.dir_paths()[i]@
                != #[trigger] self.dir_paths()[j]@ by {
                assert(mid.dir_paths()[i]@ != mid.dir_paths()[j]@);
            }
            assert(!self.has_dir(d@)) by {
                if self.has_dir(d@) {
                    let w = choose|w: int|
                        0 <= w < self.dir_paths().len() && #[trigger] self.dir_paths()[w]@ == d@;
                    assert(mid.dir_paths()[w]@ == d@);
                    assert(mid.has_dir(d@));
                }
            }
            assert forall|x: Seq<char>| x != d@ implies (self.has_dir(x) <==> old(self).has_dir(
                x,
            )) by {
                if self.has_dir(x) {
                    let w = choose|w: int|
                        0 <= w < self.dir_paths().len() && #[trigger] self.dir_paths()[w]@ == x;
                    assert(mid.dir_paths()[w]@ == x);
                    assert(mid.has_dir(x));
                }
                if mid.has_dir(x) {
                    let w = choose|w: int|
                        0 <= w < mid.dir_paths().len() && #[trigger] mid.dir_paths()[w]@ == x;
                    assert(self.dir_paths()[w]@ == x);
                }
            }
        }
    }
}

}
