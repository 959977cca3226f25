//! Bytes as text, and text as it is quoted in diagnostics.

use vstd::prelude::*;
use vstd::utf8::{decode_utf8, valid_utf8};

use crate::text::Text;

verus! {

/// What `core::str::Utf8Error` says of bytes that are not UTF-8.
pub uninterp spec fn utf8_complaint(bytes: Seq<u8>) -> Seq<char>;

/// The form in which `Debug` writes a string: in double quotes, with escapes.
pub uninterp spec fn quoted(text: Seq<char>) -> Seq<char>;

/// The text that `bytes` encode, or the complaint about bytes that encode none.
pub open spec fn utf8_text(bytes: Seq<u8>) -> Result<Text, Text> {
    if valid_utf8(bytes) {
        Ok(decode_utf8(bytes))
    } else {
        Err(utf8_complaint(bytes))
    }
}

/// `core::str::from_utf8`: it accepts exactly the byte strings that are valid
/// UTF-8 and gives the text that they encode. For the others the text of its
/// error, which names the position of the first bad byte, is a function of the
/// bytes.
#[verifier::external_body]
pub(crate) fn read_utf8(bytes: &[u8]) -> (text: Result<String, String>)
    ensures
        match text {
            Ok(text) => valid_utf8(bytes@) && text@ == decode_utf8(bytes@),
            Err(complaint) => !valid_utf8(bytes@) && complaint@ == utf8_complaint(bytes@),
        },
{
    match core::str::from_utf8(bytes) {
        Ok(text) => Ok(text.to_owned()),
        Err(error) => Err(error.to_string()),
    }
}

/// `format!` with the `Debug` form of a string. Which characters it escapes is
/// left to the standard library; the result is a function of the text.
#[verifier::external_body]
pub(crate) fn quote(text: &str) -> (quotation: String)
    ensures
        quotation@ == quoted(text@),
{
    format!("{text:?}")
}

} // verus!
