use vstd::prelude::*;
use crate::text::str_eq;
use crate::request::DeploymentRequest;

verus! {

/// A persisted deployment record, one per successfully deployed project.
pub struct DeploymentRecord {
    pub project_id: String,
    pub project_name: String,
    pub selected_service: String,
    pub selected_server: String,
    pub region: String,
    pub volume_size: u32,
    pub ip_option: String,
    pub ssh_key: Option<String>,
    pub terraform_template: String,
    pub status: String,
    pub timestamp: String,
    pub user_id: String,
}

impl DeploymentRecord {
    /// A field-for-field copy.
    pub fn duplicate(&self) -> (r: DeploymentRecord)
        ensures
            r == *self,
    {
        DeploymentRecord {
            project_id: self.project_id.clone(),
            project_name: self.project_name.clone(),
            selected_service: self.selected_service.clone(),
            selected_server: self.selected_server.clone(),
            region: self.region.clone(),
            volume_size: self.volume_size,
            ip_option: self.ip_option.clone(),
            ssh_key: match &self.ssh_key {
                Some(k) => Some(k.clone()),
                None => None,
            },
            terraform_template: self.terraform_template.clone(),
            status: self.status.clone(),
            timestamp: self.timestamp.clone(),
            user_id: self.user_id.clone(),
        }
    }
}

/// The record written for a successful deploy: the request's fields, the
/// chosen project id, the resolved user id, the given timestamp, and the
/// status `initiated`.
pub fn build_record(
    req: &DeploymentRequest,
    project_id: &str,
    user_id: &str,
    timestamp: &str,
) -> (r: DeploymentRecord)
    ensures
        r.project_id@ == project_id@,
        r.project_name@ == req.project_name@,
        r.selected_service@ == req.selected_service@,
        r.selected_server@ == req.selected_server@,
        r.region@ == req.region@,
        r.volume_size == req.volume_size,
        r.ip_option@ == req.ip_option@,
        r.ssh_key == req.ssh_key,
        r.terraform_template@ == req.terraform_template@,
        r.status@ == "initiated"@,
        r.timestamp@ == timestamp@,
        r.user_id@ == user_id@,
{
    DeploymentRecord {
        project_id: project_id.to_owned(),
        project_name: req.project_name.clone(),
        selected_service: req.selected_service.clone(),
        selected_server: req.selected_server.clone(),
        region: req.region.clone(),
        volume_size: req.volume_size,
        ip_option: req.ip_option.clone(),
        ssh_key: match &req.ssh_key {
            Some(k) => Some(k.clone()),
            None => None,
        },
        terraform_template: req.terraform_template.clone(),
        status: String::from_str("initiated"),
        timestamp: timestamp.to_owned(),
        user_id: user_id.to_owned(),
    }
}

/// The deployment metadata catalog: at most one record per project id.
pub struct DeploymentCatalog {
    pub records: Vec<DeploymentRecord>,
}

impl DeploymentCatalog {
    /// The stored records.
    pub open spec fn recs(self) -> Seq<DeploymentRecord> {
        self.records@
    }

    /// Project ids are pairwise distinct.
    pub open spec fn wf(self) -> bool {
        forall|i: int, j: int|
            0 <= i < j < self.recs().len() ==> #[trigger] self.recs()[i].project_id@
                != #[trigger] self.recs()[j].project_id@
    }

    /// A record with this project id exists.
    pub open spec fn has_project(self, pid: Seq<char>) -> bool {
        exists|i: int| 0 <= i < self.recs().len() && #[trigger] self.recs()[i].project_id@ == pid
    }

    /// The index of the record with this project id.
    pub open spec fn idx_of(self, pid: Seq<char>) -> int {
        choose|i: int| 0 <= i < self.recs().len() && #[trigger] self.recs()[i].project_id@ == pid
    }

    /// The record with this project id.
    pub open spec fn record_of(self, pid: Seq<char>) -> DeploymentRecord {
        self.recs()[self.idx_of(pid)]
    }

    /// In a well-formed catalog the project id determines the record.
    pub proof fn lemma_pid_determines_index(self, i: int)
        requires
            self.wf(),
            0 <= i < self.recs().len(),
        ensures
            self.idx_of(self.recs()[i].project_id@) == i,
            self.record_of(self.recs()[i].project_id@) == self.recs()[i],
            self.has_project(self.recs()[i].project_id@),
    {
        let pid = self.recs()[i].project_id@;
        assert(self.has_project(pid));
        let w = self.idx_of(pid);
        if w != i {
            if w < i {
                assert(self.recs()[w].project_id@ != self.recs()[i].project_id@);
            } else {
                assert(self.recs()[i].project_id@ != self.recs()[w].project_id@);
            }
        }
    }

    /// An empty catalog.
    pub fn new() -> (r: DeploymentCatalog)
        ensures
            r.wf(),
            r.recs().len() == 0,
            forall|pid: Seq<char>| !r.has_project(pid),
    {
        DeploymentCatalog { records: Vec::new() }
    }

    /// Whether a record with this project id exists.
    pub fn has_project_exec(&self, project_id: &str) -> (r: bool)
        requires
            self.wf(),
        ensures
            r == self.has_project(project_id@),
    {
        let n = self.records.len();
        let mut i: usize = 0;
        while i < n
            invariant
                0 <= i <= n,
                n == self.recs().len(),
                self.wf(),
                forall|j: int| 0 <= j < i ==> #[trigger] self.recs()[j].project_id@ != project_id@,
            decreases n - i,
        {
            if str_eq(self.records[i].project_id.as_str(), project_id) {
                proof {
                    self.lemma_pid_determines_index(i as int);
                }
                return true;
            }
            i = i + 1;
        }
        false
    }

    /// Insert a record for a fresh project id.
    pub fn insert(&mut self, rec: DeploymentRecord)
        requires
            old(self).wf(),
            !old(self).has_project(rec.project_id@),
        ensures
            final(self).wf(),
            final(self).has_project(rec.project_id@),
            final(self).record_of(rec.project_id@) == rec,
            final(self).recs().len() == old(self).recs().len() + 1,
            forall|p: Seq<char>|
                p != rec.project_id@ ==> (final(self).has_project(p) <==> old(self).has_project(p)),
            forall|p: Seq<char>|
                p != rec.project_id@ && old(self).has_project(p) ==> final(self).record_of(p) == old(self).record_of(p),
    {
        let ghost pre = *self;
        let ghost pid = rec.project_id@;
        self.records.push(rec);
        proof {
            let n = pre.recs().len() as int;
            assert(self.recs()[n].project_id@ == pid);
            assert(self.wf()) by {
                assert forall|a: int, b: int|
                    0 <= a < b < self.recs().len() implies #[trigger] self.recs()[a].project_id@
                    != #[trigger] self.recs()[b].project_id@ by {
                    if b < n {
                    } else {
                        if pre.recs()[a].project_id@ == pid {
                            assert(pre.has_project(pid));
                        }
                    }
                }
            }
            self.lemma_pid_determines_index(n);
            assert forall|p: Seq<char>| p != pid implies (self.has_project(p) <==> pre.has_project(
                p,
            )) by {
                if self.has_project(p) {
                    let w = choose|w: int|
                        0 <= w < self.recs().len() && #[trigger] self.recs()[w].project_id@ == p;
                    assert(w < n);
                    assert(pre.recs()[w].project_id@ == p);
                }
                if pre.has_project(p) {
                    let w = choose|w: int|
                        0 <= w < pre.recs().len() && #[trigger] pre.recs()[w].project_id@ == p;
                    assert(self.recs()[w].project_id@ == p);
                }
            }
            assert forall|p: Seq<char>| p != pid && pre.has_project(p) implies self.record_of(p)
                == pre.record_of(p) by {
                let w = choose|w: int|
                    0 <= w < pre.recs().len() && #[trigger] pre.recs()[w].project_id@ == p;
                pre.lemma_pid_determines_index(w);
                self.lemma_pid_determines_index(w);
            }
        }
    }

    /// Delete the record with this project id when it belongs to this user.
    /// Returns whether a record was deleted; nothing changes otherwise.
    pub fn delete(&mut self, user_id: &str, project_id: &str) -> (r: bool)
        requires
            old(self).wf(),
        ensures
            final(self).wf(),
            r == (old(self).has_project(project_id@) && old(self).record_of(
                project_id@,
            ).user_id@ == user_id@),
            !r ==> *final(self) == *old(self),
            r ==> !final(self).has_project(project_id@),
            r ==> forall|p: Seq<char>|
                p != project_id@ ==> (final(self).has_project(p) <==> old(self).has_project(p)),
            r ==> forall|p: Seq<char>|
                p != project_id@ && old(self).has_project(p) ==> final(self).record_of(p) == old(self).record_of(p),
    {
        let n = self.records.len();
        let mut i: usize = 0;
        while i < n
            invariant
                0 <= i <= n,
                *self == *old(self),
                n == self.recs().len(),
                self.wf(),
                forall|j: int| 0 <= j < i ==> #[trigger] self.recs()[j].project_id@ != project_id@,
            decreases n - i,
        {
            if str_eq(self.records[i].project_id.as_str(), project_id) {
                proof {
                    self.lemma_pid_determines_index(i as int);
                }
                if str_eq(self.records[i].user_id.as_str(), user_id) {
                    let ghost pre = *self;
                    self.records.remove(i);
                    proof {
                        assert forall|j: int|
                            0 <= j < self.recs().len() implies #[trigger] self.recs()[j].project_id@
                            != project_id@ by {
                            if j < i {
                                assert(self.recs()[j] == pre.recs()[j]);
                                if pre.recs()[j].project_id@ == project_id@ {
                                    assert(pre.recs()[j].project_id@ != pre.recs()[i as int].project_id@);
                                }
                            } else {
                                assert(self.recs()[j] == pre.recs()[j + 1]);
                                if pre.recs()[j + 1].project_id@ == project_id@ {
                                    assert(pre.recs()[i as int].project_id@ != pre.recs()[j
                                        + 1].project_id@);
                                }
                            }
                        }
                        assert forall|p: Seq<char>| p != project_id@ implies (self.has_project(p)
                            <==> pre.has_project(p)) by {
                            if self.has_project(p) {
                                let w = choose|w: int|
                                    0 <= w < self.recs().len()
                                        && #[trigger] self.recs()[w].project_id@ == p;
                                if w < i {
                                    assert(pre.recs()[w].project_id@ == p);
                                } else {
                                    assert(pre.recs()[w + 1].project_id@ == p);
                                }
                            }
                            if pre.has_project(p) {
                                let w = choose|w: int|
                                    0 <= w < pre.recs().len()
                                        && #[trigger] pre.recs()[w].project_id@ == p;
                                if w < i {
                                    assert(self.recs()[w].project_id@ == p);
                                } else {
                                    assert(w != i);
                                    assert(self.recs()[w - 1].project_id@ == p);
                                }
                            }
                        }
                        assert forall|p: Seq<char>|
                            p != project_id@ && pre.has_project(p) implies self.record_of(p)
                            == pre.record_of(p) by {
                            let w = choose|w: int|
                                0 <= w < self.recs().len() && #[trigger] self.recs()[w].project_id@
                                    == p;
                            self.lemma_pid_determines_index(w);
                            if w < i {
                                pre.lemma_pid_determines_index(w);
                                assert(self.recs()[w] == pre.recs()[w]);
                            } else {
                                pre.lemma_pid_determines_index(w + 1);
                                assert(self.recs()[w] == pre.recs()[w + 1]);
                            }
                        }
                    }
                    return true;
                } else {
                    return false;
                }
            }
            i = i + 1;
        }
        false
    }

    /// Copies of all records that belong to `user_id`, in stored order.
    pub fn records_for_user(&self, user_id: &str) -> (r: Vec<DeploymentRecord>)
        requires
            self.wf(),
        ensures
            forall|t: int|
                0 <= t < r@.len() ==> rec_stored(*self, #[trigger] r@[t]) && r@[t].user_id@
                    == user_id@,
            forall|j: int|
                0 <= j < self.recs().len() && #[trigger] self.recs()[j].user_id@ == user_id@
                    ==> rec_listed(r@, self.recs()[j]),
    {
        let n = self.records.len();
        let mut out: Vec<DeploymentRecord> = Vec::new();
        let mut i: usize = 0;
        while i < n
            invariant
                0 <= i <= n,
                n == self.recs().len(),
                self.wf(),
                forall|t: int|
                    0 <= t < out@.len() ==> rec_stored(*self, #[trigger] out@[t]) && out@[t].user_id@
                        == user_id@,
                forall|j: int|
                    0 <= j < i && #[trigger] self.recs()[j].user_id@ == user_id@ ==> rec_listed(
                        out@,
                        self.recs()[j],
                    ),
            decreases n - i,
        {
            if str_eq(self.records[i].user_id.as_str(), user_id) {
                let ghost preout = out@;
                let copy = self.records[i].duplicate();
                out.push(copy);
                proof {
                    let last = preout.len() as int;
                    assert(out@[last] == self.recs()[i as int]);
                    assert(forall|t: int| 0 <= t < last ==> out@[t] == preout[t]);
                    assert(rec_stored(*self, out@[last]));
                    assert(rec_listed(out@, self.recs()[i as int]));
                    assert forall|j: int|
                        0 <= j < i + 1 && #[trigger] self.recs()[j].user_id@
                            == user_id@ implies rec_listed(out@, self.recs()[j]) by {
                        if j < i {
                            assert(rec_listed(preout, self.recs()[j]));
                            let t = choose|t: int| 0 <= t < preout.len() && preout[t] == self.recs()[j];
                            assert(out@[t] == self.recs()[j]);
                            assert(rec_listed(out@, self.recs()[j]));
                        }
                    }
                    assert forall|t: int|
                        0 <= t < out@.len() implies rec_stored(*self, #[trigger] out@[t])
                        && out@[t].user_id@ == user_id@ by {
                        if t < last {
                            assert(out@[t] == preout[t]);
                        }
                    }
                }
            }
            i = i + 1;
        }
        out
    }
}

/// `rec` is one of the catalog's stored records.
pub open spec fn rec_stored(c: DeploymentCatalog, rec: DeploymentRecord) -> bool {
    exists|j: int| 0 <= j < c.recs().len() && c.recs()[j] == rec
}

/// Some position of `out` holds the record `rec`.
pub open spec fn rec_listed(out: Seq<DeploymentRecord>, rec: DeploymentRecord) -> bool {
    exists|t: int| 0 <= t < out.len() && out[t] == rec
}

}
