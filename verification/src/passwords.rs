//! Random password generation.

use vstd::prelude::*;
use vstd::string::StrSliceExecFns;
use crate::crypto::random_bytes;
use crate::commands::PasswordParams;
use crate::error::AppError;
use crate::text::push_char;
use crate::validation::{PASSWORD_MAX_LEN, PASSWORD_MIN_LEN};

verus! {

/// Every character a generated password may draw on: letters, digits and
/// punctuation.
pub open spec fn full_charset() -> Seq<char> {
    "ABCDEFGHIJKLMNOPQRSTUVWXYZabcdefghijklmnopqrstuvwxyz0123456789!@#$%^&*()_+[]{};:'\",.<>/?\\|`~- "@
}

/// The charset with visually ambiguous characters left out.
pub open spec fn plain_charset() -> Seq<char> {
    "ACEFHJKLMNPRTUVWXYabcdefghijkmnopqrstuvwxyz3479!@#$%^&*()_+[]{};:'\",.<>/?\\|`~- "@
}

/// The characters a generation request permits.
pub open spec fn charset_of(avoid_ambiguous: bool) -> Seq<char> {
    if avoid_ambiguous {
        plain_charset()
    } else {
        full_charset()
    }
}

/// Generates a random password of the requested length, drawn from the
/// permitted charset. Succeeds exactly when the length is within the
/// password bounds.
pub fn generate_pwd(params: PasswordParams) -> (r: Result<String, AppError>)
    ensures
        r is Ok <==> PASSWORD_MIN_LEN <= params.length < PASSWORD_MAX_LEN,
        r matches Ok(s) ==> s@.len() == params.length && forall|i: int|
            0 <= i < s@.len() ==> charset_of(params.avoid_ambiguous).contains(#[trigger] s@[i]),
        r matches Err(e) ==> e matches AppError::Other(m) && m@
            == "Password length must be between 8 and 128 characters"@,
{
    if params.length < PASSWORD_MIN_LEN || params.length >= PASSWORD_MAX_LEN {
        return Err(
            AppError::Other("Password length must be between 8 and 128 characters".to_owned()),
        );
    }
    let charset: &str = if params.avoid_ambiguous {
        "ACEFHJKLMNPRTUVWXYabcdefghijkmnopqrstuvwxyz3479!@#$%^&*()_+[]{};:'\",.<>/?\\|`~- "
    } else {
        "ABCDEFGHIJKLMNOPQRSTUVWXYZabcdefghijklmnopqrstuvwxyz0123456789!@#$%^&*()_+[]{};:'\",.<>/?\\|`~- "
    };
    proof {
        reveal_strlit(
            "ACEFHJKLMNPRTUVWXYabcdefghijkmnopqrstuvwxyz3479!@#$%^&*()_+[]{};:'\",.<>/?\\|`~- ",
        );
        reveal_strlit(
            "ABCDEFGHIJKLMNOPQRSTUVWXYZabcdefghijklmnopqrstuvwxyz0123456789!@#$%^&*()_+[]{};:'\",.<>/?\\|`~- ",
        );
        if params.avoid_ambiguous {
            assert(charset@ == plain_charset());
        } else {
            assert(charset@ == full_charset());
        }
    }
    let n = charset.unicode_len();
    assert(n >= 1);
    let draws = random_bytes(params.length);
    let mut out = String::new();
    let mut i: usize = 0;
    while i < params.length
        invariant
            i <= params.length,
            draws@.len() == params.length,
            out@.len() == i,
            n == charset_of(params.avoid_ambiguous).len(),
            n == charset@.len(),
            charset@ == charset_of(params.avoid_ambiguous),
            n >= 1,
            forall|j: int|
                0 <= j < i ==> charset_of(params.avoid_ambiguous).contains(#[trigger] out@[j]),
        decreases params.length - i,
    {
        let idx = (draws[i] as usize) % n;
        let c = charset.get_char(idx);
        let ghost before = out@;
        push_char(&mut out, c);
        proof {
            assert(charset_of(params.avoid_ambiguous).contains(c)) by {
                assert(charset_of(params.avoid_ambiguous)[idx as int] == c);
            }
            assert(forall|j: int| 0 <= j < i ==> out@[j] == before[j]);
        }
        i = i + 1;
    }
    Ok(out)
}

} // verus!
