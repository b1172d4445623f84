//! The vault store: persistence of encrypted vaults addressed by name.
//!
//! [`VaultManagerTrait`] is the store interface the session manager works
//! against: a map from vault names to persisted records, plus the listing
//! order. [`VaultManager`] keeps the records in memory and meets every
//! contract; a host that keeps vaults on disk moves whole records in and
//! out through [`VaultManager::insert_record`] and
//! [`VaultManager::get_record`] and does its reading and writing at the
//! process edge.

use vstd::prelude::*;
use crate::codec::vault_fits;
use crate::crypto::{decrypt_vault, encrypt_vault, password_fits};
use crate::entry::{EntryView, Vault};
use crate::secret::Secret;
use crate::text::str_eq;
use crate::vault_file::{file_encrypts, VaultFile, VaultFileView};

verus! {

/// After a successful save, `post` is `pre` with the record under `name`
/// replaced by some fresh encryption of `vault` under `password`.
pub open spec fn saved_encryption(
    pre: Map<Seq<char>, VaultFileView>,
    post: Map<Seq<char>, VaultFileView>,
    name: Seq<char>,
    password: Seq<char>,
    vault: Seq<EntryView>,
) -> bool {
    exists|f: VaultFileView|
        {
            &&& #[trigger] file_encrypts(f, password, vault)
            &&& post == pre.insert(name, f)
        }
}

/// The capability set of a vault store. Every operation may surface an I/O
/// failure as `Err`; what each promises on success is stated over the
/// store's map of persisted records and its listing order.
pub trait VaultManagerTrait: Sized {
    /// The persisted records, by vault name.
    spec fn vaults(&self) -> Map<Seq<char>, VaultFileView>;

    /// The names in listing order.
    spec fn names(&self) -> Seq<Seq<char>>;

    /// The store's internal well-formedness.
    spec fn inv(&self) -> bool;

    /// A well-formed store lists each name once, and lists exactly the
    /// names it holds records for.
    proof fn names_agree(&self)
        requires
            self.inv(),
        ensures
            self.names().no_duplicates(),
            forall|n: Seq<char>|
                self.vaults().contains_key(n) <==> #[trigger] self.names().contains(n),
    ;

    /// Persists a fresh empty vault under `name`. Never overwrites: an
    /// existing record fails the call and leaves the store as it was.
    fn create(&mut self, name: &str, password: &Secret) -> (r: Result<(), String>)
        requires
            old(self).inv(),
            password_fits(password@),
        ensures
            final(self).inv(),
            old(self).vaults().contains_key(name@) ==> r is Err && final(self).vaults() == old(
                self,
            ).vaults() && final(self).names() == old(self).names(),
            r is Ok ==> !old(self).vaults().contains_key(name@),
            r is Ok ==> exists|f: VaultFileView|
                {
                    &&& #[trigger] file_encrypts(f, password@, Seq::<EntryView>::empty())
                    &&& final(self).vaults() == old(self).vaults().insert(name@, f)
                    &&& final(self).names() == old(self).names().push(name@)
                },
    ;

    /// Re-encrypts the whole vault with a fresh salt and nonce and replaces
    /// the record under `name`, adding it when absent.
    fn save(&mut self, name: &str, password: &Secret, vault: &Vault) -> (r: Result<(), String>)
        requires
            old(self).inv(),
            password_fits(password@),
            vault_fits(vault@),
        ensures
            final(self).inv(),
            r is Ok ==> saved_encryption(
                old(self).vaults(),
                final(self).vaults(),
                name@,
                password@,
                vault@,
            ),
            r is Ok ==> final(self).names() == if old(self).vaults().contains_key(name@) {
                old(self).names()
            } else {
                old(self).names().push(name@)
            },
    ;

    /// Reads the record under `name` and decrypts it. A vault it returns is
    /// what the stored record encrypts under this password; a missing name
    /// never succeeds.
    fn load(&self, name: &str, password: &Secret) -> (r: Result<Vault, String>)
        requires
            self.inv(),
            password_fits(password@),
        ensures
            r matches Ok(v) ==> self.vaults().contains_key(name@) && file_encrypts(
                self.vaults()[name@],
                password@,
                v@,
            ),
            !self.vaults().contains_key(name@) ==> r is Err,
    ;

    /// The stored names, in listing order.
    fn list(&self) -> (r: Result<Vec<String>, String>)
        requires
            self.inv(),
        ensures
            r matches Ok(v) ==> v@.map_values(|s: String| s@) == self.names(),
    ;

    /// Removes the record under `name`; a missing name fails.
    fn delete(&mut self, name: &str) -> (r: Result<(), String>)
        requires
            old(self).inv(),
        ensures
            final(self).inv(),
            r is Ok ==> old(self).vaults().contains_key(name@) && final(self).vaults() == old(
                self,
            ).vaults().remove(name@),
            r is Ok ==> exists|i: int|
                {
                    &&& 0 <= i < old(self).names().len()
                    &&& old(self).names()[i] == name@
                    &&& final(self).names() == #[trigger] old(self).names().remove(i)
                },
    ;

    /// Whether a record is stored under `name`.
    fn contains(&self, name: &str) -> (r: Result<bool, String>)
        requires
            self.inv(),
        ensures
            r matches Ok(b) ==> b == self.vaults().contains_key(name@),
    ;
}

/// The association map of parallel name and record sequences, later pairs
/// shadowing earlier ones.
pub open spec fn assoc_map(names: Seq<Seq<char>>, files: Seq<VaultFileView>) -> Map<
    Seq<char>,
    VaultFileView,
>
    decreases names.len(),
{
    if names.len() == 0 || names.len() != files.len() {
        Map::empty()
    } else {
        assoc_map(names.drop_last(), files.drop_last()).insert(names.last(), files.last())
    }
}

proof fn lemma_assoc_contains(names: Seq<Seq<char>>, files: Seq<VaultFileView>)
    requires
        names.len() == files.len(),
    ensures
        forall|n: Seq<char>| assoc_map(names, files).contains_key(n) <==> names.contains(n),
    decreases names.len(),
{
    if names.len() > 0 {
        lemma_assoc_contains(names.drop_last(), files.drop_last());
        assert forall|n: Seq<char>| assoc_map(names, files).contains_key(n) <==> names.contains(
            n,
        ) by {
            if names.contains(n) {
                let i = choose|i: int| 0 <= i < names.len() && names[i] == n;
                if i < names.len() - 1 {
                    assert(names.drop_last().contains(n)) by {
                        assert(names.drop_last()[i] == n);
                    }
                }
            }
            if names.drop_last().contains(n) {
                let i = choose|i: int| 0 <= i < names.len() - 1 && names.drop_last()[i] == n;
                assert(names[i] == n);
            }
        }
    }
}

proof fn lemma_assoc_lookup(names: Seq<Seq<char>>, files: Seq<VaultFileView>, i: int)
    requires
        names.len() == files.len(),
        names.no_duplicates(),
        0 <= i < names.len(),
    ensures
        assoc_map(names, files).contains_key(names[i]),
        assoc_map(names, files)[names[i]] == files[i],
    decreases names.len(),
{
    if i == names.len() - 1 {
    } else {
        lemma_assoc_lookup(names.drop_last(), files.drop_last(), i);
        assert(names.drop_last()[i] == names[i]);
        assert(names[i] != names.last());
    }
}

proof fn lemma_assoc_update(names: Seq<Seq<char>>, files: Seq<VaultFileView>, i: int, f: VaultFileView)
    requires
        names.len() == files.len(),
        names.no_duplicates(),
        0 <= i < names.len(),
    ensures
        assoc_map(names, files.update(i, f)) == assoc_map(names, files).insert(names[i], f),
    decreases names.len(),
{
    let updated = files.update(i, f);
    if i == names.len() - 1 {
        assert(updated.drop_last() =~= files.drop_last());
        assert(updated.last() == f);
        assert(assoc_map(names, updated) =~= assoc_map(names, files).insert(names[i], f));
    } else {
        lemma_assoc_update(names.drop_last(), files.drop_last(), i, f);
        assert(updated.drop_last() =~= files.drop_last().update(i, f));
        assert(updated.last() == files.last());
        assert(names.drop_last()[i] == names[i]);
        assert(names[i] != names.last());
        assert(assoc_map(names, updated) =~= assoc_map(names, files).insert(names[i], f));
    }
}

proof fn lemma_assoc_push(names: Seq<Seq<char>>, files: Seq<VaultFileView>, n: Seq<char>, f: VaultFileView)
    requires
        names.len() == files.len(),
    ensures
        assoc_map(names.push(n), files.push(f)) == assoc_map(names, files).insert(n, f),
{
    assert(names.push(n).drop_last() =~= names);
    assert(files.push(f).drop_last() =~= files);
}

proof fn lemma_assoc_remove(names: Seq<Seq<char>>, files: Seq<VaultFileView>, i: int)
    requires
        names.len() == files.len(),
        names.no_duplicates(),
        0 <= i < names.len(),
    ensures
        assoc_map(names.remove(i), files.remove(i)) == assoc_map(names, files).remove(names[i]),
    decreases names.len(),
{
    lemma_assoc_contains(names, files);
    lemma_assoc_contains(names.remove(i), files.remove(i));
    if i == names.len() - 1 {
        assert(names.remove(i) =~= names.drop_last());
        assert(files.remove(i) =~= files.drop_last());
        assert(!names.drop_last().contains(names[i])) by {
            if names.drop_last().contains(names[i]) {
                let j = choose|j: int|
                    0 <= j < names.len() - 1 && names.drop_last()[j] == names[i];
                assert(names[j] == names[i]);
            }
        }
        lemma_assoc_contains(names.drop_last(), files.drop_last());
        assert(assoc_map(names.remove(i), files.remove(i)) =~= assoc_map(names, files).remove(
            names[i],
        ));
    } else {
        lemma_assoc_remove(names.drop_last(), files.drop_last(), i);
        assert(names.remove(i).drop_last() =~= names.drop_last().remove(i));
        assert(files.remove(i).drop_last() =~= files.drop_last().remove(i));
        assert(names.remove(i).last() == names.last());
        assert(files.remove(i).last() == files.last());
        assert(names.drop_last()[i] == names[i]);
        assert(names[i] != names.last());
        assert(assoc_map(names.remove(i), files.remove(i)) =~= assoc_map(names, files).remove(
            names[i],
        ));
    }
}

/// An in-memory vault store: parallel sequences of names and records.
pub struct VaultManager {
    names: Vec<String>,
    files: Vec<VaultFile>,
}

impl VaultManager {
    /// An empty store.
    pub fn new() -> (r: VaultManager)
        ensures
            r.inv(),
            r.vaults() == Map::<Seq<char>, VaultFileView>::empty(),
            r.names() == Seq::<Seq<char>>::empty(),
    {
        let r = VaultManager { names: Vec::new(), files: Vec::new() };
        proof {
            assert(r.names() =~= Seq::<Seq<char>>::empty());
            assert(r.vaults() =~= Map::<Seq<char>, VaultFileView>::empty());
        }
        r
    }

    /// Installs a record that arrived from outside storage under `name`,
    /// replacing any present one. No claim is made of what the record
    /// encrypts.
    pub fn insert_record(&mut self, name: &str, file: VaultFile)
        requires
            old(self).inv(),
        ensures
            final(self).inv(),
            final(self).vaults() == old(self).vaults().insert(name@, file@),
    {
        proof {
            self.names_agree();
        }
        let ghost fv = file@;
        match self.find(name) {
            Some(i) => {
                proof {
                    lemma_assoc_update(
                        self.names@.map_values(|s: String| s@),
                        self.files@.map_values(|f: VaultFile| f@),
                        i as int,
                        fv,
                    );
                }
                self.files.set(i, file);
                proof {
                    assert(self.files@.map_values(|f: VaultFile| f@) =~= old(
                        self,
                    ).files@.map_values(|f: VaultFile| f@).update(i as int, fv));
                    assert(self.vaults() == old(self).vaults().insert(name@, fv));
                }
            },
            None => {
                proof {
                    lemma_assoc_push(
                        self.names@.map_values(|s: String| s@),
                        self.files@.map_values(|f: VaultFile| f@),
                        name@,
                        fv,
                    );
                }
                self.names.push(name.to_owned());
                self.files.push(file);
                proof {
                    assert(self.names@.map_values(|s: String| s@) =~= old(
                        self,
                    ).names().push(name@));
                    assert(self.files@.map_values(|f: VaultFile| f@) =~= old(
                        self,
                    ).files@.map_values(|f: VaultFile| f@).push(fv));
                    assert(self.vaults() == old(self).vaults().insert(name@, fv));
                }
            },
        }
    }

    /// The record stored under `name`, to hand outward for persisting.
    pub fn get_record(&self, name: &str) -> (r: Option<&VaultFile>)
        requires
            self.inv(),
        ensures
            match r {
                Some(f) => self.vaults().contains_key(name@) && f@ == self.vaults()[name@],
                None => !self.vaults().contains_key(name@),
            },
    {
        proof {
            self.names_agree();
        }
        match self.find(name) {
            Some(i) => {
                proof {
                    lemma_assoc_lookup(
                        self.names@.map_values(|s: String| s@),
                        self.files@.map_values(|f: VaultFile| f@),
                        i as int,
                    );
                }
                Some(&self.files[i])
            },
            None => {
                proof {
                    lemma_assoc_contains(
                        self.names@.map_values(|s: String| s@),
                        self.files@.map_values(|f: VaultFile| f@),
                    );
                }
                None
            },
        }
    }

    /// The index holding `name`, when one does.
    fn find(&self, name: &str) -> (r: Option<usize>)
        requires
            self.inv(),
        ensures
            match r {
                Some(i) => i < self.names().len() && self.names()[i as int] == name@,
                None => !self.names().contains(name@),
            },
    {
        let mut i: usize = 0;
        while i < self.names.len()
            invariant
                self.inv(),
                i <= self.names.len(),
                forall|j: int| 0 <= j < i ==> self.names()[j] != name@,
            decreases self.names.len() - i,
        {
            if str_eq(self.names[i].as_str(), name) {
                return Some(i);
            }
            i = i + 1;
        }
        proof {
            if self.names().contains(name@) {
                let j = choose|j: int| 0 <= j < self.names().len() && self.names()[j] == name@;
            }
        }
        None
    }
}

impl VaultManagerTrait for VaultManager {
    closed spec fn vaults(&self) -> Map<Seq<char>, VaultFileView> {
        assoc_map(
            self.names@.map_values(|s: String| s@),
            self.files@.map_values(|f: VaultFile| f@),
        )
    }

    closed spec fn names(&self) -> Seq<Seq<char>> {
        self.names@.map_values(|s: String| s@)
    }

    closed spec fn inv(&self) -> bool {
        &&& self.names@.len() == self.files@.len()
        &&& self.names@.map_values(|s: String| s@).no_duplicates()
    }

    proof fn names_agree(&self) {
        lemma_assoc_contains(
            self.names@.map_values(|s: String| s@),
            self.files@.map_values(|f: VaultFile| f@),
        );
    }

    fn create(&mut self, name: &str, password: &Secret) -> (r: Result<(), String>)
        ensures
            r is Ok <==> !old(self).vaults().contains_key(name@),
    {
        proof {
            self.names_agree();
        }
        match self.find(name) {
            Some(i) => {
                proof {
                    assert(old(self).names().contains(name@)) by {
                        assert(old(self).names()[i as int] == name@);
                    }
                }
                Err("Vault already exists".to_owned())
            },
            None => {
                let vault = Vault::new();
                proof {
                    crate::codec::lemma_empty_vault_fits();
                }
                let (salt, nonce, ciphertext) = encrypt_vault(&vault, password);
                let file = VaultFile::new(salt, nonce, ciphertext);
                let ghost fv = file@;
                proof {
                    lemma_assoc_push(
                        self.names@.map_values(|s: String| s@),
                        self.files@.map_values(|f: VaultFile| f@),
                        name@,
                        fv,
                    );
                }
                self.names.push(name.to_owned());
                self.files.push(file);
                proof {
                    assert(self.names@.map_values(|s: String| s@) =~= old(
                        self,
                    ).names().push(name@));
                    assert(self.files@.map_values(|f: VaultFile| f@) =~= old(
                        self,
                    ).files@.map_values(|f: VaultFile| f@).push(fv));
                    assert(file_encrypts(fv, password@, Seq::<EntryView>::empty()));
                }
                Ok(())
            },
        }
    }

    fn save(&mut self, name: &str, password: &Secret, vault: &Vault) -> (r: Result<(), String>)
        ensures
            r is Ok,
    {
        proof {
            self.names_agree();
        }
        let (salt, nonce, ciphertext) = encrypt_vault(vault, password);
        let file = VaultFile::new(salt, nonce, ciphertext);
        let ghost fv = file@;
        match self.find(name) {
            Some(i) => {
                proof {
                    lemma_assoc_update(
                        self.names@.map_values(|s: String| s@),
                        self.files@.map_values(|f: VaultFile| f@),
                        i as int,
                        fv,
                    );
                    lemma_assoc_contains(
                        self.names@.map_values(|s: String| s@),
                        self.files@.map_values(|f: VaultFile| f@),
                    );
                }
                self.files.set(i, file);
                proof {
                    assert(old(self).names().contains(name@)) by {
                        assert(old(self).names()[i as int] == name@);
                    }
                    assert(old(self).vaults().contains_key(name@));
                    assert(self.files@.map_values(|f: VaultFile| f@) =~= old(
                        self,
                    ).files@.map_values(|f: VaultFile| f@).update(i as int, fv));
                    assert(self.vaults() == old(self).vaults().insert(name@, fv));
                    assert(file_encrypts(fv, password@, vault@));
                    assert(saved_encryption(
                        old(self).vaults(),
                        self.vaults(),
                        name@,
                        password@,
                        vault@,
                    ));
                }
                Ok(())
            },
            None => {
                proof {
                    lemma_assoc_push(
                        self.names@.map_values(|s: String| s@),
                        self.files@.map_values(|f: VaultFile| f@),
                        name@,
                        fv,
                    );
                    lemma_assoc_contains(
                        self.names@.map_values(|s: String| s@),
                        self.files@.map_values(|f: VaultFile| f@),
                    );
                }
                self.names.push(name.to_owned());
                self.files.push(file);
                proof {
                    assert(!old(self).vaults().contains_key(name@));
                    assert(self.names@.map_values(|s: String| s@) =~= old(
                        self,
                    ).names().push(name@));
                    assert(self.files@.map_values(|f: VaultFile| f@) =~= old(
                        self,
                    ).files@.map_values(|f: VaultFile| f@).push(fv));
                    assert(self.vaults() == old(self).vaults().insert(name@, fv));
                    assert(file_encrypts(fv, password@, vault@));
                    assert(saved_encryption(
                        old(self).vaults(),
                        self.vaults(),
                        name@,
                        password@,
                        vault@,
                    ));
                }
                Ok(())
            },
        }
    }

    fn load(&self, name: &str, password: &Secret) -> (r: Result<Vault, String>)
        ensures
            forall|v: Seq<EntryView>|
                self.vaults().contains_key(name@) && crate::crypto::is_encryption_of(
                    self.vaults()[name@].salt,
                    self.vaults()[name@].nonce,
                    self.vaults()[name@].ciphertext,
                    password@,
                    v,
                ) ==> (r matches Ok(out) && out@ == v),
    {
        proof {
            self.names_agree();
        }
        match self.find(name) {
            Some(i) => {
                proof {
                    lemma_assoc_lookup(
                        self.names@.map_values(|s: String| s@),
                        self.files@.map_values(|f: VaultFile| f@),
                        i as int,
                    );
                }
                let file = &self.files[i];
                decrypt_vault(
                    password,
                    file.ciphertext.as_str(),
                    file.salt.as_str(),
                    file.nonce.as_str(),
                )
            },
            None => Err("Vault not found".to_owned()),
        }
    }

    fn list(&self) -> (r: Result<Vec<String>, String>)
        ensures
            r is Ok,
    {
        let mut out: Vec<String> = Vec::new();
        let mut i: usize = 0;
        while i < self.names.len()
            invariant
                i <= self.names.len(),
                out@.len() == i,
                forall|j: int| 0 <= j < i ==> #[trigger] out@[j]@ == self.names@[j]@,
            decreases self.names.len() - i,
        {
            out.push(self.names[i].clone());
            i = i + 1;
        }
        proof {
            assert(out@.map_values(|s: String| s@) =~= self.names());
        }
        Ok(out)
    }

    fn delete(&mut self, name: &str) -> (r: Result<(), String>)
        ensures
            r is Ok <==> old(self).vaults().contains_key(name@),
    {
        proof {
            self.names_agree();
        }
        match self.find(name) {
            Some(i) => {
                proof {
                    lemma_assoc_remove(
                        self.names@.map_values(|s: String| s@),
                        self.files@.map_values(|f: VaultFile| f@),
                        i as int,
                    );
                    lemma_assoc_contains(
                        self.names@.map_values(|s: String| s@),
                        self.files@.map_values(|f: VaultFile| f@),
                    );
                }
                self.names.remove(i);
                self.files.remove(i);
                proof {
                    assert(old(self).names().contains(name@)) by {
                        assert(old(self).names()[i as int] == name@);
                    }
                    assert(old(self).vaults().contains_key(name@));
                    assert(self.names@.map_values(|s: String| s@) =~= old(
                        self,
                    ).names().remove(i as int));
                    assert(self.files@.map_values(|f: VaultFile| f@) =~= old(
                        self,
                    ).files@.map_values(|f: VaultFile| f@).remove(i as int));
                    assert(self.vaults() == old(self).vaults().remove(name@));
                    assert(old(self).names().remove(i as int).no_duplicates());
                }
                Ok(())
            },
            None => Err("Failed to delete vault".to_owned()),
        }
    }

    fn contains(&self, name: &str) -> (r: Result<bool, String>)
        ensures
            r is Ok,
    {
        proof {
            self.names_agree();
        }
        match self.find(name) {
            Some(i) => {
                proof {
                    assert(self.names().contains(name@)) by {
                        assert(self.names()[i as int] == name@);
                    }
                }
                Ok(true)
            },
            None => {
                proof {
                    assert(!self.vaults().contains_key(name@));
                }
                Ok(false)
            },
        }
    }
}

} // verus!
