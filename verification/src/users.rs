use vstd::prelude::*;
use crate::text::str_eq;

verus! {

/// A user record, as the orchestrator reads it: an email, the user's
/// identifier, and an optional stored cloud-provider credential.
pub struct UserAccount {
    pub email: String,
    pub user_id: String,
    pub provider_key: Option<String>,
}

/// The user catalog the orchestrator resolves emails against. It never
/// creates users; signup is an outside collaborator.
pub struct UserCatalog {
    pub users: Vec<UserAccount>,
}

/// What a provider lookup can find.
pub enum ProviderLookup {
    NoUser,
    Unset,
    Key(String),
}

impl UserCatalog {
    /// The stored accounts.
    pub open spec fn accounts(self) -> Seq<UserAccount> {
        self.users@
    }

    /// Emails are pairwise distinct.
    pub open spec fn wf(self) -> bool {
        forall|i: int, j: int|
            0 <= i < j < self.accounts().len() ==> #[trigger] self.accounts()[i].email@
                != #[trigger] self.accounts()[j].email@
    }

    /// A user with this email exists.
    pub open spec fn has_email(self, e: Seq<char>) -> bool {
        exists|i: int| 0 <= i < self.accounts().len() && #[trigger] self.accounts()[i].email@ == e
    }

    /// The index of the user with this email.
    pub open spec fn idx_of(self, e: Seq<char>) -> int {
        choose|i: int| 0 <= i < self.accounts().len() && #[trigger] self.accounts()[i].email@ == e
    }

    /// The account of the user with this email.
    pub open spec fn account_of(self, e: Seq<char>) -> UserAccount {
        self.accounts()[self.idx_of(e)]
    }

    /// The stored credential of the user with this email, if set.
    pub open spec fn provider_of(self, e: Seq<char>) -> Option<Seq<char>> {
        match self.account_of(e).provider_key {
            Some(k) => Some(k@),
            None => None,
        }
    }

    /// In a well-formed catalog the email determines the account.
    pub proof fn lemma_email_determines_index(self, i: int)
        requires
            self.wf(),
            0 <= i < self.accounts().len(),
        ensures
            self.idx_of(self.accounts()[i].email@) == i,
            self.account_of(self.accounts()[i].email@) == self.accounts()[i],
            self.has_email(self.accounts()[i].email@),
    {
        let e = self.accounts()[i].email@;
        assert(self.has_email(e));
        let w = self.idx_of(e);
        if w != i {
            if w < i {
                assert(self.accounts()[w].email@ != self.accounts()[i].email@);
            } else {
                assert(self.accounts()[i].email@ != self.accounts()[w].email@);
            }
        }
    }

    /// An empty catalog.
    pub fn new() -> (r: UserCatalog)
        ensures
            r.wf(),
            r.accounts().len() == 0,
            forall|e: Seq<char>| !r.has_email(e),
    {
        UserCatalog { users: Vec::new() }
    }

    /// The index of the user with `email`, if present.
    fn find_index(&self, email: &str) -> (r: Option<usize>)
        requires
            self.wf(),
        ensures
            match r {
                Some(i) => i < self.accounts().len() && self.accounts()[i as int].email@ == email@
                    && self.idx_of(email@) == i && self.has_email(email@),
                None => !self.has_email(email@),
            },
    {
        let n = self.users.len();
        let mut i: usize = 0;
        while i < n
            invariant
                0 <= i <= n,
                n == self.accounts().len(),
                self.wf(),
                forall|j: int| 0 <= j < i ==> #[trigger] self.accounts()[j].email@ != email@,
            decreases n - i,
        {
            if str_eq(self.users[i].email.as_str(), email) {
                proof {
                    self.lemma_email_determines_index(i as int);
                }
                return Some(i);
            }
            i = i + 1;
        }
        None
    }

    /// The user id recorded for `email`, when such a user exists. This is the
    /// resolution step of both sagas.
    pub fn user_id_for(&self, email: &str) -> (r: Option<String>)
        requires
            self.wf(),
        ensures
            match r {
                Some(u) => self.has_email(email@) && u@ == self.account_of(email@).user_id@,
                None => !self.has_email(email@),
            },
    {
        match self.find_index(email) {
            Some(i) => Some(self.users[i].user_id.clone()),
            None => None,
        }
    }

    /// The stored cloud credential for `email`: missing user, unset
    /// credential, or the key.
    pub fn provider_for(&self, email: &str) -> (r: ProviderLookup)
        requires
            self.wf(),
        ensures
            match r {
                ProviderLookup::NoUser => !self.has_email(email@),
                ProviderLookup::Unset => self.has_email(email@) && self.provider_of(email@)
                    is None,
                ProviderLookup::Key(k) => self.has_email(email@) && self.provider_of(email@)
                    == Some(k@),
            },
    {
        match self.find_index(email) {
            Some(i) => match &self.users[i].provider_key {
                Some(k) => ProviderLookup::Key(k.clone()),
                None => ProviderLookup::Unset,
            },
            None => ProviderLookup::NoUser,
        }
    }

    /// Record `key` as the cloud credential of the user with `email`.
    /// Returns whether such a user exists; nothing changes when none does.
    pub fn set_provider(&mut self, email: &str, key: &str) -> (r: bool)
        requires
            old(self).wf(),
        ensures
            final(self).wf(),
            r == old(self).has_email(email@),
            !r ==> *final(self) == *old(self),
            r ==> final(self).has_email(email@) && final(self).provider_of(email@) == Some(key@)
                && final(self).account_of(email@).user_id@ == old(self).account_of(email@).user_id@,
            r ==> forall|e: Seq<char>|
                e != email@ ==> (final(self).has_email(e) <==> old(self).has_email(e)),
            r ==> forall|e: Seq<char>|
                e != email@ && old(self).has_email(e) ==> final(self).account_of(e) == old(self).account_of(e),
    {
        let found = self.find_index(email);
        match found {
            Some(i) => {
                let ghost pre = *self;
                let account = self.users.remove(i);
                let updated = UserAccount {
                    email: account.email,
                    user_id: account.user_id,
                    provider_key: Some(key.to_owned()),
                };
                proof {
                    assert forall|j: int| 0 <= j < self.accounts().len() implies #[trigger] self.accounts()[j].email@
                        != email@ by {
                        if j < i {
                            assert(self.accounts()[j] == pre.accounts()[j]);
                            if pre.accounts()[j].email@ == email@ {
                                assert(pre.accounts()[j].email@ != pre.accounts()[i as int].email@);
                            }
                        } else {
                            assert(self.accounts()[j] == pre.accounts()[j + 1]);
                            if pre.accounts()[j + 1].email@ == email@ {
                                assert(pre.accounts()[i as int].email@ != pre.accounts()[j
                                    + 1].email@);
                            }
                        }
                    }
                }
                let ghost mid = *self;
                self.users.push(updated);
                proof {
                    let n = mid.accounts().len() as int;
                    assert(self.accounts()[n].email@ == email@);
                    assert(self.wf()) by {
                        assert forall|a: int, b: int|
                            0 <= a < b < self.accounts().len() implies #[trigger] self.accounts()[a].email@
                            != #[trigger] self.accounts()[b].email@ by {
                            if b < n {
                                assert(self.accounts()[a] == mid.accounts()[a]);
                                assert(self.accounts()[b] == mid.accounts()[b]);
                                if a < i {
                                    assert(mid.accounts()[a] == pre.accounts()[a]);
                                } else {
                                    assert(mid.accounts()[a] == pre.accounts()[a + 1]);
                                }
                                if b < i {
                                    assert(mid.accounts()[b] == pre.accounts()[b]);
                                } else {
                                    assert(mid.accounts()[b] == pre.accounts()[b + 1]);
                                }
                            }
                        }
                    }
                    self.lemma_email_determines_index(n);
                    assert forall|e: Seq<char>| e != email@ implies (self.has_email(e)
                        <==> pre.has_email(e)) by {
                        if self.has_email(e) {
                            let w = choose|w: int|
                                0 <= w < self.accounts().len()
                                    && #[trigger] self.accounts()[w].email@ == e;
                            assert(w < n);
                            if w < i {
                                assert(pre.accounts()[w].email@ == e);
                            } else {
                                assert(pre.accounts()[w + 1].email@ == e);
                            }
                        }
                        if pre.has_email(e) {
                            let w = choose|w: int|
                                0 <= w < pre.accounts().len()
                                    && #[trigger] pre.accounts()[w].email@ == e;
                            if w < i {
                                assert(self.accounts()[w].email@ == e);
                            } else {
                                assert(w != i);
                                assert(self.accounts()[w - 1].email@ == e);
                            }
                        }
                    }
                    assert forall|e: Seq<char>| e != email@ && pre.has_email(e) implies self.account_of(
                        e,
                    ) == pre.account_of(e) by {
                        let w = choose|w: int|
                            0 <= w < self.accounts().len() && #[trigger] self.accounts()[w].email@
                                == e;
                        self.lemma_email_determines_index(w);
                        if w < i {
                            pre.lemma_email_determines_index(w);
                            assert(self.accounts()[w] == pre.accounts()[w]);
                        } else {
                            pre.lemma_email_determines_index(w + 1);
                            assert(self.accounts()[w] == pre.accounts()[w + 1]);
                        }
                    }
                }
                true
            },
            None => false,
        }
    }
}

}
