//! The response of the server as text for the user interface.

use vstd::prelude::*;
use vstd::utf8::{decode_utf8, encode_utf8, encode_utf8_decode_utf8, valid_utf8};

verus! {

/// The text that lossy decoding makes of `bytes`: the characters that the
/// bytes spell where they are UTF-8, and otherwise a text in which each
/// stretch of bytes that spells no character is replaced by U+FFFD.
pub uninterp spec fn lossy_text(bytes: Seq<u8>) -> Seq<char>;

/// Calls `String::from_utf8_lossy` of the standard library and takes
/// ownership of what it returns. Believed, not proved: the result depends on
/// the bytes alone, and bytes that are UTF-8 come back as the string that
/// consists of them.
#[verifier::external_body]
fn from_utf8_lossy(bytes: &[u8]) -> (text: String)
    ensures
        text@ == lossy_text(bytes@),
        valid_utf8(bytes@) ==> encode_utf8(text@) == bytes@,
{
    String::from_utf8_lossy(bytes).into_owned()
}

/// Turns the payload of a response into text, replacing what is not UTF-8.
pub fn response_text(response: &[u8]) -> (text: String)
    ensures
        text@ == lossy_text(response@),
        valid_utf8(response@) ==> text@ == decode_utf8(response@),
{
    let text = from_utf8_lossy(response);
    proof {
        encode_utf8_decode_utf8(text@);
    }
    text
}

} // verus!
