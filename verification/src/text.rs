//! Small text helpers shared by the rest of the library: case folding,
//! string equality, and building ASCII strings from verified byte output.

use vstd::prelude::*;

verus! {

/// The character sequence that Unicode lowercasing produces for `s`.
/// The mapping depends on the characters alone, so it can be given a name
/// that every contract of this library shares.
pub uninterp spec fn lower_of(s: Seq<char>) -> Seq<char>;

/// Relies on str::to_lowercase: the result is the Unicode lowercase form of
/// the input and depends on the input characters alone.
#[verifier::external_body]
pub fn lowercase(s: &str) -> (r: String)
    ensures
        r@ == lower_of(s@),
{
    s.to_lowercase()
}

/// Relies on str's PartialEq: two string slices compare equal exactly when
/// they hold the same characters.
#[verifier::external_body]
pub fn str_eq(a: &str, b: &str) -> (r: bool)
    ensures
        r == (a@ == b@),
{
    a == b
}

/// The characters that a sequence of ASCII bytes denotes.
pub open spec fn ascii_str_of(bytes: Seq<u8>) -> Seq<char> {
    bytes.map_values(|b: u8| b as char)
}

/// Relies on String::from_utf8: ASCII bytes are valid UTF-8 and decode to
/// the same characters, so the call cannot fail on the admitted inputs.
#[verifier::external_body]
pub fn ascii_to_string(bytes: Vec<u8>) -> (r: String)
    requires
        forall|i: int| 0 <= i < bytes@.len() ==> bytes@[i] < 128,
    ensures
        r@ == ascii_str_of(bytes@),
{
    String::from_utf8(bytes).unwrap()
}

} // verus!
