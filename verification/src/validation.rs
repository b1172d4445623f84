//! Input validation for names, arguments and master passwords.

use vstd::prelude::*;
use vstd::string::StrSliceExecFns;
use vstd::utf8::encode_utf8;
use crate::error::AppError;

verus! {

/// The most UTF-8 bytes an argument may hold.
pub const ARG_MAX_LEN: usize = 64;

/// The most UTF-8 bytes a password may hold.
pub const PASSWORD_MAX_LEN: usize = 128;

/// The fewest UTF-8 bytes a password must hold.
pub const PASSWORD_MIN_LEN: usize = 8;

/// The characters an argument may consist of: letters, digits, and a few
/// address-safe marks.
pub open spec fn arg_char(c: char) -> bool {
    ||| 'a' <= c <= 'z'
    ||| 'A' <= c <= 'Z'
    ||| '0' <= c <= '9'
    ||| c == '_'
    ||| c == '.'
    ||| c == '@'
    ||| c == '+'
    ||| c == '-'
}

/// A control character: the C0 range, delete, and the C1 range.
pub open spec fn control_char(c: char) -> bool {
    (c as u32) < 0x20 || (0x7f <= (c as u32) && (c as u32) <= 0x9f)
}

/// An acceptable argument: non-empty, within the length cap, and drawn from
/// the argument character set.
pub open spec fn valid_arg(s: Seq<char>) -> bool {
    &&& s.len() >= 1
    &&& encode_utf8(s).len() <= ARG_MAX_LEN
    &&& forall|i: int| 0 <= i < s.len() ==> arg_char(#[trigger] s[i])
}

/// An acceptable password: within the length bounds and free of control
/// characters.
pub open spec fn valid_password(s: Seq<char>) -> bool {
    &&& PASSWORD_MIN_LEN <= encode_utf8(s).len() <= PASSWORD_MAX_LEN
    &&& forall|i: int| 0 <= i < s.len() ==> !control_char(#[trigger] s[i])
}

/// An upper-case letter.
pub open spec fn upper_char(c: char) -> bool {
    'A' <= c <= 'Z'
}

/// A lower-case letter.
pub open spec fn lower_char(c: char) -> bool {
    'a' <= c <= 'z'
}

/// A decimal digit.
pub open spec fn digit_char(c: char) -> bool {
    '0' <= c <= '9'
}

/// A punctuation or whitespace character that counts toward password
/// strength.
pub open spec fn special_char(c: char) -> bool {
    ||| c == '!' || c == '@' || c == '#' || c == '$' || c == '%' || c == '^' || c == '&'
    ||| c == '*' || c == '(' || c == ')' || c == '_' || c == '+' || c == '=' || c == '['
    ||| c == ']' || c == '{' || c == '}' || c == ';' || c == ':' || c == '\'' || c == '"'
    ||| c == ',' || c == '.' || c == '<' || c == '>' || c == '?' || c == '/' || c == '\\'
    ||| c == '|' || c == '`' || c == '~' || c == '-' || c == ' ' || c == '\t' || c == '\n'
    ||| c == '\r' || c == '\u{b}' || c == '\u{c}'
}

/// A strong password: long enough and mixing upper case, lower case, a
/// digit and a special character.
pub open spec fn strong_password(s: Seq<char>) -> bool {
    &&& encode_utf8(s).len() >= PASSWORD_MIN_LEN
    &&& exists|i: int| 0 <= i < s.len() && upper_char(#[trigger] s[i])
    &&& exists|i: int| 0 <= i < s.len() && lower_char(#[trigger] s[i])
    &&& exists|i: int| 0 <= i < s.len() && digit_char(#[trigger] s[i])
    &&& exists|i: int| 0 <= i < s.len() && special_char(#[trigger] s[i])
}

fn is_arg_char(c: char) -> (r: bool)
    ensures
        r == arg_char(c),
{
    ('a' <= c && c <= 'z') || ('A' <= c && c <= 'Z') || ('0' <= c && c <= '9') || c == '_' || c
        == '.' || c == '@' || c == '+' || c == '-'
}

fn is_control_char(c: char) -> (r: bool)
    ensures
        r == control_char(c),
{
    let u = c as u32;
    u < 0x20 || (0x7f <= u && u <= 0x9f)
}

fn is_special_char(c: char) -> (r: bool)
    ensures
        r == special_char(c),
{
    c == '!' || c == '@' || c == '#' || c == '$' || c == '%' || c == '^' || c == '&' || c == '*'
        || c == '(' || c == ')' || c == '_' || c == '+' || c == '=' || c == '[' || c == ']' || c
        == '{' || c == '}' || c == ';' || c == ':' || c == '\'' || c == '"' || c == ',' || c == '.'
        || c == '<' || c == '>' || c == '?' || c == '/' || c == '\\' || c == '|' || c == '`' || c
        == '~' || c == '-' || c == ' ' || c == '\t' || c == '\n' || c == '\r' || c == '\u{b}' || c
        == '\u{c}'
}

/// Accepts an argument exactly when it is non-empty, within the length cap
/// and drawn from the argument character set; a rejection names the
/// argument.
pub fn validate_arg(input: &str, name: &str) -> (r: Result<(), AppError>)
    ensures
        r is Ok <==> valid_arg(input@),
        r matches Err(e) ==> e matches AppError::InvalidArgument(m) && m@ == name@,
{
    if input.as_bytes().len() > ARG_MAX_LEN {
        return Err(AppError::InvalidArgument(name.to_owned()));
    }
    if input.is_empty() {
        return Err(AppError::InvalidArgument(name.to_owned()));
    }
    let n = input.unicode_len();
    let mut i: usize = 0;
    while i < n
        invariant
            i <= n,
            n == input@.len(),
            forall|j: int| 0 <= j < i ==> arg_char(#[trigger] input@[j]),
        decreases n - i,
    {
        if !is_arg_char(input.get_char(i)) {
            return Err(AppError::InvalidArgument(name.to_owned()));
        }
        i = i + 1;
    }
    Ok(())
}

/// Accepts a password exactly when it is within the length bounds and free
/// of control characters, and says which bound a rejected one broke.
pub fn validate_password(password: &str) -> (r: Result<(), AppError>)
    ensures
        r is Ok <==> valid_password(password@),
        r matches Err(e) ==> e matches AppError::Other(m) && (m@ == "Password too long"@ || m@
            == "Password too short"@ || m@ == "Password cannot contain control characters"@),
        encode_utf8(password@).len() > PASSWORD_MAX_LEN ==> (r matches Err(e) && (e matches
            AppError::Other(m) && m@ == "Password too long"@)),
        encode_utf8(password@).len() < PASSWORD_MIN_LEN ==> (r matches Err(e) && (e matches
            AppError::Other(m) && m@ == "Password too short"@)),
{
    if password.as_bytes().len() > PASSWORD_MAX_LEN {
        return Err(AppError::Other("Password too long".to_owned()));
    }
    if password.as_bytes().len() < PASSWORD_MIN_LEN {
        return Err(AppError::Other("Password too short".to_owned()));
    }
    let n = password.unicode_len();
    let mut i: usize = 0;
    while i < n
        invariant
            i <= n,
            n == password@.len(),
            PASSWORD_MIN_LEN <= encode_utf8(password@).len() <= PASSWORD_MAX_LEN,
            forall|j: int| 0 <= j < i ==> !control_char(#[trigger] password@[j]),
        decreases n - i,
    {
        if is_control_char(password.get_char(i)) {
            return Err(AppError::Other("Password cannot contain control characters".to_owned()));
        }
        i = i + 1;
    }
    Ok(())
}

/// Accepts a password exactly when it is strong: long enough and mixing the
/// four character classes.
pub fn validate_password_strength(password: &str) -> (r: Result<(), AppError>)
    ensures
        r is Ok <==> strong_password(password@),
        r matches Err(e) ==> e matches AppError::Other(m) && (m@ == "Password too short"@ || m@
            == "Password too weak"@),
        encode_utf8(password@).len() < PASSWORD_MIN_LEN ==> (r matches Err(e) && (e matches
            AppError::Other(m) && m@ == "Password too short"@)),
{
    if password.as_bytes().len() < PASSWORD_MIN_LEN {
        return Err(AppError::Other("Password too short".to_owned()));
    }
    let n = password.unicode_len();
    let mut has_upper = false;
    let mut has_lower = false;
    let mut has_digit = false;
    let mut has_special = false;
    let mut i: usize = 0;
    while i < n
        invariant
            i <= n,
            n == password@.len(),
            encode_utf8(password@).len() >= PASSWORD_MIN_LEN,
            has_upper <==> exists|j: int| 0 <= j < i && upper_char(#[trigger] password@[j]),
            has_lower <==> exists|j: int| 0 <= j < i && lower_char(#[trigger] password@[j]),
            has_digit <==> exists|j: int| 0 <= j < i && digit_char(#[trigger] password@[j]),
            has_special <==> exists|j: int| 0 <= j < i && special_char(#[trigger] password@[j]),
        decreases n - i,
    {
        let c = password.get_char(i);
        if 'A' <= c && c <= 'Z' {
            has_upper = true;
        }
        if 'a' <= c && c <= 'z' {
            has_lower = true;
        }
        if '0' <= c && c <= '9' {
            has_digit = true;
        }
        if is_special_char(c) {
            has_special = true;
        }
        i = i + 1;
    }
    if has_upper && has_lower && has_digit && has_special {
        Ok(())
    } else {
        Err(AppError::Other("Password too weak".to_owned()))
    }
}

} // verus!
