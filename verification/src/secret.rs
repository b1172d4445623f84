//! A scoped secret string.
//!
//! A [`Secret`] holds a cleartext value (a master password or a stored
//! credential password) behind a controlled accessor, so that no caller
//! handles the cleartext without asking for it, and offers an explicit
//! [`Secret::wipe`] that overwrites the backing memory before the value is
//! released. The session manager wipes every secret it owns on lock, expiry
//! and destruction.

use vstd::prelude::*;
use zeroize::Zeroize;

verus! {

/// A secret string; its view is the sequence of cleartext characters.
pub struct Secret {
    value: String,
}

impl View for Secret {
    type V = Seq<char>;

    closed spec fn view(&self) -> Seq<char> {
        self.value@
    }
}

impl Secret {
    /// Wraps a cleartext string as a secret.
    pub fn new(value: String) -> (r: Secret)
        ensures
            r@ == value@,
    {
        Secret { value }
    }

    /// Wraps a cleartext string slice as a secret.
    pub fn from_str(value: &str) -> (r: Secret)
        ensures
            r@ == value@,
    {
        Secret { value: value.to_owned() }
    }

    /// The controlled accessor: hands out the cleartext.
    pub fn expose(&self) -> (r: &str)
        ensures
            r@ == self@,
    {
        self.value.as_str()
    }

    /// A copy of this secret.
    pub fn duplicate(&self) -> (r: Secret)
        ensures
            r@ == self@,
    {
        Secret { value: self.value.clone() }
    }

    /// Overwrites the backing memory and leaves the secret empty.
    pub fn wipe(&mut self)
        ensures
            final(self)@ == Seq::<char>::empty(),
    {
        wipe_string(&mut self.value);
    }
}

/// Relies on zeroize's `Zeroize for String`: the backing bytes are
/// overwritten with zeroes and the string is cleared.
#[verifier::external_body]
pub fn wipe_string(s: &mut String)
    ensures
        final(s)@ == Seq::<char>::empty(),
{
    s.zeroize();
}

} // verus!
