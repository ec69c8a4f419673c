//! The calls into the parts of the standard library that deal with single
//! characters. Nothing here is proved: each contract states what the
//! documentation of the function says.

use vstd::prelude::*;

verus! {

/// Whether `code` is a Unicode scalar value: a code point that is not a
/// surrogate.
pub open spec fn is_scalar_value(code: u32) -> bool {
    code <= 0xD7FF || 0xE000 <= code <= 0x10FFFF
}

/// Calls `String::push`: the text afterwards is the text before with
/// `letter` at its end.
#[verifier::external_body]
pub(crate) fn push_char(text: &mut String, letter: char)
    ensures
        final(text)@ == old(text)@.push(letter),
{
    text.push(letter);
}

/// Calls `char::from_u32`: the character with the code point `code` where
/// `code` is a Unicode scalar value, nothing where it is not.
#[verifier::external_body]
pub(crate) fn char_from_code(code: u32) -> (letter: Option<char>)
    ensures
        letter is Some <==> is_scalar_value(code),
        letter matches Some(found) ==> found == code as char && found as u32 == code,
{
    char::from_u32(code)
}

} // verus!
