//! Helpers for reading positional arguments out of a token vector.

use vstd::prelude::*;

verus! {

/// The token at `index`, owned.
pub fn get_str(vec: &Vec<&str>, index: usize) -> (r: String)
    requires
        index < vec@.len(),
    ensures
        r@ == vec@[index as int]@,
{
    vec[index].to_owned()
}

/// The token at `index`, owned, when there is one.
pub fn get_opt_str(vec: &Vec<&str>, index: usize) -> (r: Option<String>)
    ensures
        match r {
            Some(s) => index < vec@.len() && s@ == vec@[index as int]@,
            None => index >= vec@.len(),
        },
{
    if index < vec.len() {
        Some(vec[index].to_owned())
    } else {
        None
    }
}

} // verus!
