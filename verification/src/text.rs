//! Exact bridges between `&str`/`String` and character or byte sequences,
//! for the validation and encoding logic that works character by character.

use vstd::prelude::*;
use vstd::utf8::decode_utf8;
use vstd::utf8::valid_utf8;

verus! {

/// Relies on `Iterator::collect` over `str::chars`: the characters of a
/// string, in order.
#[verifier::external_body]
pub fn chars_vec(s: &str) -> (v: Vec<char>)
    ensures
        v@ == s@,
{
    s.chars().collect()
}

/// Relies on `Iterator::collect` for `String` from characters: the string
/// with exactly the given characters, in order.
#[verifier::external_body]
pub fn string_from_chars(v: &Vec<char>) -> (s: String)
    ensures
        s@ == v@,
{
    v.iter().collect()
}

/// Relies on `String::from_utf8`: succeeds exactly on valid UTF-8, and
/// decodes it; `vstd`'s `valid_utf8` and `decode_utf8` state that behavior.
#[verifier::external_body]
pub fn string_from_utf8(v: Vec<u8>) -> (r: Option<String>)
    ensures
        r is Some <==> valid_utf8(v@),
        r matches Some(s) ==> s@ == decode_utf8(v@),
{
    match String::from_utf8(v) {
        Ok(s) => Some(s),
        Err(_) => None,
    }
}

} // verus!
