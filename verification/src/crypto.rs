//! The crypto engine: password-based key derivation and authenticated
//! encryption of a vault's canonical byte form.
//!
//! Key derivation is Argon2id with fixed interactive-workload parameters;
//! sealing is AES-GCM-SIV with a 256-bit key and a 96-bit nonce; the salt,
//! nonce and ciphertext travel as canonical base64 text. A fresh random salt
//! and nonce are drawn on every encryption. Decryption reports one
//! undifferentiated failure condition, so a wrong password and a corrupted
//! vault cannot be told apart.

use vstd::prelude::*;
use vstd::utf8::encode_utf8;
use aes_gcm_siv::Aes256GcmSiv;
use aes_gcm_siv::aead::{Aead, KeyInit};
use aes_gcm_siv::aead::generic_array::GenericArray;
use base64::Engine;
use rand::RngCore;
use crate::codec::{
    check_vault_fits, lemma_parse_vault_sound, lemma_vault_codec_round_trip, parse_vault,
    serialize_vault, vault_bytes, vault_fits,
};
use crate::entry::{EntryView, Vault};
use crate::secret::Secret;

verus! {

/// The byte length of the random salt drawn for each encryption.
pub const SALT_LENGTH: usize = 16;

/// The byte length of the random nonce drawn for each encryption.
pub const NONCE_LENGTH: usize = 12;

/// The most password bytes the key derivation accepts.
pub const PASSWORD_BYTES_MAX: u64 = 0xffff_ffff;

/// The key that Argon2id derives from a password and a 16-byte salt.
pub uninterp spec fn key_of(password: Seq<char>, salt: Seq<u8>) -> Seq<u8>;

/// The sealed bytes that AES-GCM-SIV produces from a key, a nonce and a
/// plaintext within the cipher's length cap.
pub uninterp spec fn seal_of(key: Seq<u8>, nonce: Seq<u8>, plain: Seq<u8>) -> Seq<u8>;

/// The canonical padded base64 text of a byte sequence.
pub uninterp spec fn b64_of(bytes: Seq<u8>) -> Seq<char>;

/// A password is usable when its UTF-8 form fits the key derivation's cap.
pub open spec fn password_fits(password: Seq<char>) -> bool {
    encode_utf8(password).len() <= PASSWORD_BYTES_MAX
}

/// Relies on argon2's `Argon2::hash_password_into` with the crate's default
/// Argon2id parameters: the 32-byte output is a deterministic function of
/// the password and the salt, and derivation accepts any password up to the
/// algorithm's length cap with a 16-byte salt.
#[verifier::external_body]
fn derive_key(password: &str, salt: &[u8]) -> (r: [u8; 32])
    requires
        password_fits(password@),
        salt@.len() == SALT_LENGTH,
    ensures
        r@ == key_of(password@, salt@),
{
    let argon = argon2::Argon2::default();
    let mut out = [0u8; 32];
    argon.hash_password_into(password.as_bytes(), salt, &mut out).expect(
        "key derivation failed",
    );
    out
}

/// Relies on aes_gcm_siv's `Aes256GcmSiv`: sealing is a deterministic
/// function of key, nonce and plaintext, appends a 16-byte tag, and accepts
/// every plaintext within the cipher's length cap.
#[verifier::external_body]
fn aead_seal(key: &[u8; 32], nonce: &[u8], plain: &[u8]) -> (r: Vec<u8>)
    requires
        nonce@.len() == NONCE_LENGTH,
        plain@.len() <= 0xf_ffff_ffff,
    ensures
        r@ == seal_of(key@, nonce@, plain@),
        r@.len() == plain@.len() + 16,
{
    let cipher = Aes256GcmSiv::new(GenericArray::from_slice(key));
    cipher.encrypt(GenericArray::from_slice(nonce), plain).expect("encryption failed")
}

/// Relies on aes_gcm_siv's `Aes256GcmSiv`: opening succeeds exactly on the
/// cipher's own sealings under the same key and nonce, and then returns the
/// sealed plaintext; on any other input the authentication tag fails.
#[verifier::external_body]
fn aead_open(key: &[u8; 32], nonce: &[u8], ciphertext: &[u8]) -> (r: Option<Vec<u8>>)
    requires
        nonce@.len() == NONCE_LENGTH,
    ensures
        r matches Some(p) ==> ciphertext@ == seal_of(key@, nonce@, p@),
        r matches Some(p) ==> forall|q: Seq<u8>|
            q.len() <= 0xf_ffff_ffff && ciphertext@ == seal_of(key@, nonce@, q) ==> p@ == q,
        r is None ==> forall|q: Seq<u8>|
            q.len() <= 0xf_ffff_ffff ==> ciphertext@ != seal_of(key@, nonce@, q),
{
    let cipher = Aes256GcmSiv::new(GenericArray::from_slice(key));
    cipher.decrypt(GenericArray::from_slice(nonce), ciphertext).ok()
}

/// Relies on base64's `STANDARD` engine: encoding is canonical padded
/// base64, a deterministic function of the input bytes.
#[verifier::external_body]
fn b64_encode(bytes: &[u8]) -> (r: String)
    ensures
        r@ == b64_of(bytes@),
{
    base64::engine::general_purpose::STANDARD.encode(bytes)
}

/// Relies on base64's `STANDARD` engine: it requires canonical padding and
/// rejects set trailing bits, so decoding succeeds exactly on the canonical
/// encoding of some byte sequence and returns that sequence.
#[verifier::external_body]
fn b64_decode(s: &str) -> (r: Option<Vec<u8>>)
    ensures
        r matches Some(b) ==> s@ == b64_of(b@),
        r matches Some(b) ==> forall|c: Seq<u8>| s@ == b64_of(c) ==> b@ == c,
        r is None ==> forall|c: Seq<u8>| s@ != b64_of(c),
{
    base64::engine::general_purpose::STANDARD.decode(s).ok()
}

/// Relies on rand's thread-local generator to fill the buffer with random
/// bytes; nothing is assumed of the drawn values beyond the count.
#[verifier::external_body]
pub(crate) fn random_bytes(n: usize) -> (r: Vec<u8>)
    ensures
        r@.len() == n,
{
    let mut buf = vec![0u8; n];
    rand::rng().fill_bytes(&mut buf);
    buf
}

/// The persisted triple (salt, nonce, ciphertext) is an encryption of vault
/// `v` under `password`: each part is canonical base64, the salt and nonce
/// have their fixed lengths, and the ciphertext is the seal of the vault's
/// canonical bytes under the derived key.
pub open spec fn is_encryption_of(
    salt: Seq<char>,
    nonce: Seq<char>,
    ciphertext: Seq<char>,
    password: Seq<char>,
    v: Seq<EntryView>,
) -> bool {
    &&& vault_fits(v)
    &&& exists|sb: Seq<u8>, nb: Seq<u8>|
        {
            &&& sb.len() == SALT_LENGTH
            &&& nb.len() == NONCE_LENGTH
            &&& salt == #[trigger] b64_of(sb)
            &&& nonce == #[trigger] b64_of(nb)
            &&& ciphertext == b64_of(seal_of(key_of(password, sb), nb, vault_bytes(v)))
        }
}

/// Encrypts a vault under a master password: draws a fresh random salt and
/// nonce, derives the key, serializes the vault canonically and seals it.
/// Returns base64 text of the salt, the nonce and the ciphertext, in that
/// order. Touches no storage.
pub fn encrypt_vault(vault: &Vault, password: &Secret) -> (r: (String, String, String))
    requires
        vault_fits(vault@),
        password_fits(password@),
    ensures
        is_encryption_of(r.0@, r.1@, r.2@, password@, vault@),
{
    let data = serialize_vault(vault);
    let salt = random_bytes(SALT_LENGTH);
    let nonce = random_bytes(NONCE_LENGTH);
    let key = derive_key(password.expose(), salt.as_slice());
    let ciphertext = aead_seal(&key, nonce.as_slice(), data.as_slice());
    let r = (
        b64_encode(salt.as_slice()),
        b64_encode(nonce.as_slice()),
        b64_encode(ciphertext.as_slice()),
    );
    proof {
        assert(r.0@ == b64_of(salt@) && r.1@ == b64_of(nonce@) && r.2@ == b64_of(
            seal_of(key_of(password@, salt@), nonce@, vault_bytes(vault@)),
        ));
    }
    r
}

/// The one message reported on any decryption failure: a wrong master
/// password and a corrupted or tampered vault are indistinguishable.
fn auth_failure() -> (r: String)
    ensures
        r@ == "Wrong vault password or corrupted vault"@,
{
    "Wrong vault password or corrupted vault".to_owned()
}

/// Decrypts a persisted (ciphertext, salt, nonce) triple under a master
/// password. Succeeds exactly on triples that are an encryption of some
/// vault under this password, and returns that vault; every failure reports
/// the one undifferentiated auth-failure message.
pub fn decrypt_vault(password: &Secret, ciphertext: &str, salt: &str, nonce: &str) -> (r: Result<
    Vault,
    String,
>)
    requires
        password_fits(password@),
    ensures
        r matches Ok(v) ==> is_encryption_of(salt@, nonce@, ciphertext@, password@, v@),
        forall|v: Seq<EntryView>|
            is_encryption_of(salt@, nonce@, ciphertext@, password@, v) ==> (r matches Ok(out)
                && out@ == v),
        r matches Err(e) ==> e@ == "Wrong vault password or corrupted vault"@,
{
    let ct = match b64_decode(ciphertext) {
        Some(b) => b,
        None => {
            proof {
                assert forall|v: Seq<EntryView>|
                    !#[trigger] is_encryption_of(salt@, nonce@, ciphertext@, password@, v) by {}
            }
            return Err(auth_failure());
        },
    };
    let sb = match b64_decode(salt) {
        Some(b) => b,
        None => {
            proof {
                assert forall|v: Seq<EntryView>|
                    !#[trigger] is_encryption_of(salt@, nonce@, ciphertext@, password@, v) by {}
            }
            return Err(auth_failure());
        },
    };
    let nb = match b64_decode(nonce) {
        Some(b) => b,
        None => {
            proof {
                assert forall|v: Seq<EntryView>|
                    !#[trigger] is_encryption_of(salt@, nonce@, ciphertext@, password@, v) by {}
            }
            return Err(auth_failure());
        },
    };
    if sb.len() != SALT_LENGTH || nb.len() != NONCE_LENGTH {
        proof {
            assert forall|v: Seq<EntryView>|
                !#[trigger] is_encryption_of(salt@, nonce@, ciphertext@, password@, v) by {}
        }
        return Err(auth_failure());
    }
    let key = derive_key(password.expose(), sb.as_slice());
    let plain = match aead_open(&key, nb.as_slice(), ct.as_slice()) {
        Some(p) => p,
        None => {
            proof {
                assert forall|v: Seq<EntryView>|
                    !#[trigger] is_encryption_of(salt@, nonce@, ciphertext@, password@, v) by {}
            }
            return Err(auth_failure());
        },
    };
    let vault = match parse_vault(plain.as_slice()) {
        Some(v) => v,
        None => {
            proof {
                assert forall|v: Seq<EntryView>|
                    !#[trigger] is_encryption_of(salt@, nonce@, ciphertext@, password@, v) by {
                    if is_encryption_of(salt@, nonce@, ciphertext@, password@, v) {
                        lemma_vault_codec_round_trip(v);
                    }
                }
            }
            return Err(auth_failure());
        },
    };
    if !check_vault_fits(&vault) {
        proof {
            lemma_parse_vault_sound(plain@, vault@);
            assert forall|v: Seq<EntryView>|
                !#[trigger] is_encryption_of(salt@, nonce@, ciphertext@, password@, v) by {
                if is_encryption_of(salt@, nonce@, ciphertext@, password@, v) {
                    lemma_vault_codec_round_trip(v);
                }
            }
        }
        return Err(auth_failure());
    }
    proof {
        lemma_parse_vault_sound(plain@, vault@);
        assert(is_encryption_of(salt@, nonce@, ciphertext@, password@, vault@));
        assert forall|v: Seq<EntryView>|
            #[trigger] is_encryption_of(salt@, nonce@, ciphertext@, password@, v) implies vault@
            == v by {
            lemma_vault_codec_round_trip(v);
        }
    }
    Ok(vault)
}

} // verus!
