//! A backend that keeps everything in memory, for tests and short-lived
//! vaults.
use vstd::prelude::*;

use super::{credential_views, lists_exactly, MasterRecord, MasterRecordView, VaultStorage};
use crate::error::VaultError;
use crate::models::{EncryptedCredential, EncryptedCredentialView};
use crate::text::{
    lemma_text_less_asymmetric, lemma_text_less_irreflexive, lemma_text_less_total,
    lemma_text_less_transitive, owned, text_eq, text_less, text_less_exec,
};

verus! {

/// The credentials are kept in a vector ordered by service name.
pub struct MemoryStorage {
    master: Option<MasterRecord>,
    credentials: Vec<EncryptedCredential>,
}

pub open spec fn sorted_by_service(s: Seq<EncryptedCredentialView>) -> bool {
    forall|i: int, j: int|
        0 <= i < j < s.len() ==> text_less(#[trigger] s[i].service, #[trigger] s[j].service)
}

/// `s` and `m` hold the same credentials.
pub open spec fn represents(s: Seq<EncryptedCredentialView>, m: Map<Seq<char>, EncryptedCredentialView>) -> bool {
    &&& forall|i: int|
        0 <= i < s.len() ==> m.contains_key(#[trigger] s[i].service) && m[s[i].service] == s[i]
    &&& forall|k: Seq<char>|
        m.contains_key(k) ==> exists|i: int| 0 <= i < s.len() && #[trigger] s[i].service == k
}

/// The map from service name to credential that a vector of credentials with
/// distinct service names stands for.
pub open spec fn entries_map(s: Seq<EncryptedCredentialView>) -> Map<Seq<char>, EncryptedCredentialView> {
    Map::new(
        |k: Seq<char>| exists|i: int| 0 <= i < s.len() && #[trigger] s[i].service == k,
        |k: Seq<char>| s[choose|i: int| 0 <= i < s.len() && #[trigger] s[i].service == k],
    )
}

proof fn lemma_sorted_represents(s: Seq<EncryptedCredentialView>)
    requires
        sorted_by_service(s),
    ensures
        represents(s, entries_map(s)),
{
    let m = entries_map(s);
    assert forall|i: int| 0 <= i < s.len() implies m.contains_key(#[trigger] s[i].service)
        && m[s[i].service] == s[i] by {
        let k = s[i].service;
        assert(m.contains_key(k));
        let j = choose|j: int| 0 <= j < s.len() && #[trigger] s[j].service == k;
        if j < i {
            lemma_less_distinct(s[j].service, s[i].service);
        } else if j > i {
            lemma_less_distinct(s[i].service, s[j].service);
        }
    }
}

proof fn lemma_represents_map(s: Seq<EncryptedCredentialView>, m: Map<Seq<char>, EncryptedCredentialView>)
    requires
        sorted_by_service(s),
        represents(s, m),
    ensures
        entries_map(s) == m,
{
    lemma_sorted_represents(s);
    let e = entries_map(s);
    assert forall|k: Seq<char>| e.contains_key(k) <==> m.contains_key(k) by {
        if e.contains_key(k) {
            let i = choose|i: int| 0 <= i < s.len() && #[trigger] s[i].service == k;
            assert(m.contains_key(s[i].service));
        }
        if m.contains_key(k) {
            let i = choose|i: int| 0 <= i < s.len() && #[trigger] s[i].service == k;
            assert(e.contains_key(s[i].service));
        }
    }
    assert forall|k: Seq<char>| e.contains_key(k) implies e[k] == m[k] by {
        let i = choose|i: int| 0 <= i < s.len() && #[trigger] s[i].service == k;
        assert(e[s[i].service] == s[i]);
        assert(m[s[i].service] == s[i]);
    }
    assert(e =~= m);
}

impl MemoryStorage {
    #[verifier::type_invariant]
    spec fn well_formed(self) -> bool {
        sorted_by_service(credential_views(self.credentials@))
    }

    /// An empty backend: no master record, no credentials.
    pub fn new() -> (s: Self)
        ensures
            s.stored_master() is None,
            s.stored_credentials() == Map::<Seq<char>, EncryptedCredentialView>::empty(),
    {
        let s = MemoryStorage { master: None, credentials: Vec::new() };
        assert(credential_views(s.credentials@) =~= Seq::<EncryptedCredentialView>::empty());
        assert(entries_map(credential_views(s.credentials@)) =~= Map::<
            Seq<char>,
            EncryptedCredentialView,
        >::empty());
        s
    }

    /// The position of `service`, if it is held.
    fn find(&self, service: &str) -> (r: Option<usize>)
        ensures
            match r {
                Some(i) => i < self.credentials@.len() && self.credentials@[i as int].service@
                    == service@ && self.stored_credentials().contains_key(service@),
                None => !self.stored_credentials().contains_key(service@),
            },
    {
        proof {
            use_type_invariant(self);
        }
        let ghost views = credential_views(self.credentials@);
        proof {
            lemma_sorted_represents(views);
        }
        let mut i: usize = 0;
        while i < self.credentials.len()
            invariant
                0 <= i <= self.credentials@.len(),
                views == credential_views(self.credentials@),
                forall|j: int| 0 <= j < i ==> views[j].service != service@,
            decreases self.credentials@.len() - i,
        {
            if text_eq(self.credentials[i].service.as_str(), service) {
                assert(views[i as int].service == service@);
                return Some(i);
            }
            i = i + 1;
        }
        None
    }
}

proof fn lemma_less_distinct(a: Seq<char>, b: Seq<char>)
    requires
        text_less(a, b),
    ensures
        a != b,
{
    lemma_text_less_irreflexive(a);
}

impl VaultStorage for MemoryStorage {
    closed spec fn stored_master(&self) -> Option<MasterRecordView> {
        match self.master {
            Some(m) => Some(m@),
            None => None,
        }
    }

    closed spec fn stored_credentials(&self) -> Map<Seq<char>, EncryptedCredentialView> {
        entries_map(credential_views(self.credentials@))
    }

    /// Nothing to create: it never fails.
    fn init(&mut self) -> (r: Result<(), VaultError>)
        ensures
            r is Ok,
    {
        Ok(())
    }

    /// Never fails.
    fn save_master_record(&mut self, record: &MasterRecord) -> (r: Result<(), VaultError>)
        ensures
            r is Ok,
    {
        proof {
            use_type_invariant(&*self);
        }
        self.master = Some(record.duplicate());
        Ok(())
    }

    /// Never fails.
    fn load_master_record(&self) -> (r: Result<Option<MasterRecord>, VaultError>)
        ensures
            r is Ok,
    {
        match &self.master {
            Some(m) => Ok(Some(m.duplicate())),
            None => Ok(None),
        }
    }

    /// Fails only on a service that is already there.
    fn add_credential(&mut self, credential: &EncryptedCredential) -> (r: Result<(), VaultError>)
        ensures
            r is Ok <==> !old(self).stored_credentials().contains_key(credential.service@),
            r is Err ==> r matches Err(VaultError::CredentialAlreadyExists(_)),
    {
        proof {
            use_type_invariant(&*self);
        }
        let ghost views = credential_views(self.credentials@);
        let ghost model = entries_map(views);
        proof {
            lemma_sorted_represents(views);
        }
        let ghost key = credential.service@;
        let mut p: usize = 0;
        while p < self.credentials.len() && text_less_exec(
            self.credentials[p].service.as_str(),
            credential.service.as_str(),
        )
            invariant
                0 <= p <= self.credentials@.len(),
                views == credential_views(self.credentials@),
                key == credential.service@,
                forall|j: int| 0 <= j < p ==> text_less(#[trigger] views[j].service, key),
            decreases self.credentials@.len() - p,
        {
            p = p + 1;
        }
        if p < self.credentials.len() && text_eq(
            self.credentials[p].service.as_str(),
            credential.service.as_str(),
        ) {
            proof {
                assert(views[p as int].service == key);
            }
            return Err(VaultError::CredentialAlreadyExists(owned(credential.service.as_str())));
        }
        proof {
            // everything from position p on comes after the new service
            if p < views.len() {
                lemma_text_less_total(views[p as int].service, key);
                assert(text_less(key, views[p as int].service));
            }
            assert forall|j: int| p <= j < views.len() implies text_less(key, #[trigger] views[j].service) by {
                if j > p {
                    lemma_text_less_transitive(key, views[p as int].service, views[j].service);
                }
            }
            assert(!model.contains_key(key)) by {
                if model.contains_key(key) {
                    let i = choose|i: int| 0 <= i < views.len() && #[trigger] views[i].service == key;
                    if i < p {
                        lemma_less_distinct(views[i].service, key);
                    } else {
                        lemma_less_distinct(key, views[i].service);
                    }
                }
            }
        }
        let item = credential.duplicate();
        let ghost new_model = model.insert(key, credential@);
        let mut creds: Vec<EncryptedCredential> = Vec::new();
        std::mem::swap(&mut creds, &mut self.credentials);
        creds.insert(p, item);
        let ghost nv = credential_views(creds@);
        proof {
            assert(nv =~= views.insert(p as int, credential@));
            assert forall|i: int, j: int| 0 <= i < j < nv.len() implies text_less(
                #[trigger] nv[i].service,
                #[trigger] nv[j].service,
            ) by {
                if j < p {
                } else if j == p {
                } else if i < p {
                    lemma_text_less_transitive(views[i].service, key, views[j - 1].service);
                } else if i == p {
                } else {
                }
            }
            assert forall|i: int| 0 <= i < nv.len() implies new_model.contains_key(
                #[trigger] nv[i].service,
            ) && new_model[nv[i].service] == nv[i] by {
                if i < p {
                    lemma_less_distinct(views[i].service, key);
                } else if i > p {
                    lemma_less_distinct(key, views[i - 1].service);
                }
            }
            assert forall|k: Seq<char>| new_model.contains_key(k) implies exists|i: int|
                0 <= i < nv.len() && #[trigger] nv[i].service == k by {
                if k == key {
                    assert(nv[p as int].service == k);
                } else {
                    let i = choose|i: int| 0 <= i < views.len() && #[trigger] views[i].service == k;
                    if i < p {
                        assert(nv[i].service == k);
                    } else {
                        assert(nv[i + 1].service == k);
                    }
                }
            }
            lemma_represents_map(nv, new_model);
        }
        self.credentials = creds;
        Ok(())
    }

    /// Fails only on a service that is not there.
    fn get_credential(&self, service: &str) -> (r: Result<EncryptedCredential, VaultError>)
        ensures
            r is Ok <==> self.stored_credentials().contains_key(service@),
            r is Err ==> r matches Err(VaultError::CredentialNotFound(_)),
    {
        proof {
            use_type_invariant(self);
        }
        match self.find(service) {
            Some(i) => {
                let ghost views = credential_views(self.credentials@);
                proof {
                    lemma_sorted_represents(views);
                }
                assert(views[i as int].service == service@);
                Ok(self.credentials[i].duplicate())
            },
            None => Err(VaultError::CredentialNotFound(owned(service))),
        }
    }

    /// Never fails.
    fn list_credentials(&self) -> (r: Result<Vec<EncryptedCredential>, VaultError>)
        ensures
            r is Ok,
    {
        proof {
            use_type_invariant(self);
        }
        let ghost views = credential_views(self.credentials@);
        let mut out: Vec<EncryptedCredential> = Vec::new();
        let mut i: usize = 0;
        while i < self.credentials.len()
            invariant
                0 <= i <= self.credentials@.len(),
                views == credential_views(self.credentials@),
                credential_views(out@) == views.subrange(0, i as int),
                out@.len() == i,
            decreases self.credentials@.len() - i,
        {
            let item = self.credentials[i].duplicate();
            let ghost before = out@;
            out.push(item);
            proof {
                assert(out@ == before.push(item));
                assert forall|j: int| 0 <= j < i + 1 implies #[trigger] credential_views(out@)[j]
                    == views[j] by {
                    if j < i {
                        assert(out@[j] == before[j]);
                        assert(credential_views(before)[j] == views[j]);
                    }
                }
            }
            i = i + 1;
            assert(credential_views(out@) =~= views.subrange(0, i as int));
        }
        assert(credential_views(out@) =~= views);
        proof {
            lemma_sorted_represents(views);
        }
        Ok(out)
    }

    /// Fails only on a service that is not there.
    fn update_credential(&mut self, credential: &EncryptedCredential) -> (r: Result<(), VaultError>)
        ensures
            r is Ok <==> old(self).stored_credentials().contains_key(credential.service@),
            r is Err ==> r matches Err(VaultError::CredentialNotFound(_)),
    {
        proof {
            use_type_invariant(&*self);
        }
        match self.find(credential.service.as_str()) {
            None => Err(VaultError::CredentialNotFound(owned(credential.service.as_str()))),
            Some(p) => {
                let ghost views = credential_views(self.credentials@);
                let ghost model = entries_map(views);
                proof {
                    lemma_sorted_represents(views);
                }
                let ghost key = credential.service@;
                assert(views[p as int].service == key);
                let item = credential.duplicate();
                let ghost new_model = model.insert(key, credential@);
                let mut creds: Vec<EncryptedCredential> = Vec::new();
                std::mem::swap(&mut creds, &mut self.credentials);
                creds.set(p, item);
                let ghost nv = credential_views(creds@);
                proof {
                    assert(nv =~= views.update(p as int, credential@));
                    assert forall|i: int, j: int| 0 <= i < j < nv.len() implies text_less(
                        #[trigger] nv[i].service,
                        #[trigger] nv[j].service,
                    ) by {
                        assert(views[i].service == nv[i].service);
                        assert(views[j].service == nv[j].service);
                    }
                    assert forall|i: int| 0 <= i < nv.len() implies new_model.contains_key(
                        #[trigger] nv[i].service,
                    ) && new_model[nv[i].service] == nv[i] by {
                        if i < p {
                            lemma_less_distinct(views[i].service, key);
                        } else if i > p {
                            lemma_less_distinct(key, views[i].service);
                        }
                    }
                    assert forall|k: Seq<char>| new_model.contains_key(k) implies exists|i: int|
                        0 <= i < nv.len() && #[trigger] nv[i].service == k by {
                        if k == key {
                            assert(nv[p as int].service == k);
                        } else {
                            let i = choose|i: int| 0 <= i < views.len() && #[trigger] views[i].service == k;
                            assert(nv[i].service == k);
                        }
                    }
                    lemma_represents_map(nv, new_model);
                }
                self.credentials = creds;
                Ok(())
            },
        }
    }

    /// Fails only on a service that is not there.
    fn delete_credential(&mut self, service: &str) -> (r: Result<(), VaultError>)
        ensures
            r is Ok <==> old(self).stored_credentials().contains_key(service@),
            r is Err ==> r matches Err(VaultError::CredentialNotFound(_)),
    {
        proof {
            use_type_invariant(&*self);
        }
        match self.find(service) {
            None => Err(VaultError::CredentialNotFound(owned(service))),
            Some(p) => {
                let ghost views = credential_views(self.credentials@);
                let ghost model = entries_map(views);
                proof {
                    lemma_sorted_represents(views);
                }
                let ghost key = service@;
                assert(views[p as int].service == key);
                let ghost new_model = model.remove(key);
                let mut creds: Vec<EncryptedCredential> = Vec::new();
                std::mem::swap(&mut creds, &mut self.credentials);
                let _removed = creds.remove(p);
                let ghost nv = credential_views(creds@);
                proof {
                    assert(nv =~= views.remove(p as int));
                    assert forall|i: int, j: int| 0 <= i < j < nv.len() implies text_less(
                        #[trigger] nv[i].service,
                        #[trigger] nv[j].service,
                    ) by {
                        if i < p && j >= p {
                            assert(nv[j].service == views[j + 1].service);
                        } else if i >= p {
                            assert(nv[i].service == views[i + 1].service);
                            assert(nv[j].service == views[j + 1].service);
                        }
                    }
                    assert forall|i: int| 0 <= i < nv.len() implies new_model.contains_key(
                        #[trigger] nv[i].service,
                    ) && new_model[nv[i].service] == nv[i] by {
                        if i < p {
                            lemma_less_distinct(views[i].service, key);
                        } else {
                            assert(nv[i] == views[i + 1]);
                            lemma_less_distinct(key, views[i + 1].service);
                        }
                    }
                    assert forall|k: Seq<char>| new_model.contains_key(k) implies exists|i: int|
                        0 <= i < nv.len() && #[trigger] nv[i].service == k by {
                        let i = choose|i: int| 0 <= i < views.len() && #[trigger] views[i].service == k;
                        assert(i != p);
                        if i < p {
                            assert(nv[i].service == k);
                        } else {
                            assert(nv[i - 1].service == k);
                        }
                    }
                    lemma_represents_map(nv, new_model);
                }
                self.credentials = creds;
                Ok(())
            },
        }
    }
}

} // verus!
