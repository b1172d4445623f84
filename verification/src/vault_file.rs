//! The persisted form of one vault: three text-encoded fields.

use vstd::prelude::*;
use crate::crypto::is_encryption_of;
use crate::entry::EntryView;

verus! {

/// The mathematical value of a persisted vault record.
pub ghost struct VaultFileView {
    pub salt: Seq<char>,
    pub nonce: Seq<char>,
    pub ciphertext: Seq<char>,
}

/// One vault at rest: base64 text of the salt, the nonce and the sealed
/// vault bytes.
pub struct VaultFile {
    pub salt: String,
    pub nonce: String,
    pub ciphertext: String,
}

impl View for VaultFile {
    type V = VaultFileView;

    open spec fn view(&self) -> VaultFileView {
        VaultFileView { salt: self.salt@, nonce: self.nonce@, ciphertext: self.ciphertext@ }
    }
}

impl VaultFile {
    /// Assembles a persisted record from its three encoded fields.
    pub fn new(salt: String, nonce: String, ciphertext: String) -> (r: VaultFile)
        ensures
            r@ == (VaultFileView { salt: salt@, nonce: nonce@, ciphertext: ciphertext@ }),
    {
        VaultFile { salt, nonce, ciphertext }
    }

    /// A copy of this record.
    pub fn duplicate(&self) -> (r: VaultFile)
        ensures
            r@ == self@,
    {
        VaultFile {
            salt: self.salt.clone(),
            nonce: self.nonce.clone(),
            ciphertext: self.ciphertext.clone(),
        }
    }
}

/// The record is an encryption of vault `v` under `password`.
pub open spec fn file_encrypts(f: VaultFileView, password: Seq<char>, v: Seq<EntryView>) -> bool {
    is_encryption_of(f.salt, f.nonce, f.ciphertext, password, v)
}

} // verus!
