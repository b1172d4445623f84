//! The credential data model: one [`PasswordEntry`] per stored credential,
//! and a [`Vault`] as an insertion-ordered sequence of entries.

use vstd::prelude::*;
use crate::secret::{Secret, wipe_string};

verus! {

/// The mathematical value of one entry: its three cleartext fields.
pub ghost struct EntryView {
    pub name: Seq<char>,
    pub username: Seq<char>,
    pub password: Seq<char>,
}

/// One stored credential record.
pub struct PasswordEntry {
    pub name: String,
    pub username: String,
    pub password: Secret,
}

impl View for PasswordEntry {
    type V = EntryView;

    open spec fn view(&self) -> EntryView {
        EntryView { name: self.name@, username: self.username@, password: self.password@ }
    }
}

impl PasswordEntry {
    /// Builds an entry from its three cleartext fields.
    pub fn new(name: String, username: String, password: String) -> (r: PasswordEntry)
        ensures
            r@ == (EntryView { name: name@, username: username@, password: password@ }),
    {
        PasswordEntry { name, username, password: Secret::new(password) }
    }

    /// Overwrites every field of this entry, secret and non-secret alike.
    pub fn wipe(&mut self)
        ensures
            final(self)@ == (EntryView {
                name: Seq::<char>::empty(),
                username: Seq::<char>::empty(),
                password: Seq::<char>::empty(),
            }),
    {
        wipe_string(&mut self.name);
        wipe_string(&mut self.username);
        self.password.wipe();
    }
}

/// A named collection of credential entries, in insertion order.
pub struct Vault {
    pub entries: Vec<PasswordEntry>,
}

impl View for Vault {
    type V = Seq<EntryView>;

    open spec fn view(&self) -> Seq<EntryView> {
        self.entries@.map_values(|e: PasswordEntry| e@)
    }
}

impl Vault {
    /// An empty vault.
    pub fn new() -> (r: Vault)
        ensures
            r@ == Seq::<EntryView>::empty(),
    {
        let v = Vault { entries: Vec::new() };
        proof {
            assert(v@ =~= Seq::<EntryView>::empty());
        }
        v
    }

    /// Overwrites the fields of every entry, then drops them all.
    pub fn wipe(&mut self)
        ensures
            final(self)@ == Seq::<EntryView>::empty(),
    {
        while self.entries.len() > 0
            decreases self.entries.len(),
        {
            let popped = self.entries.pop();
            if let Some(mut e) = popped {
                e.wipe();
            }
        }
        proof {
            assert(self@ =~= Seq::<EntryView>::empty());
        }
    }
}

} // verus!
