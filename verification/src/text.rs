//! Text as it is stored in an image: UTF-8, read leniently.

use vstd::prelude::*;
use vstd::utf8::{decode_utf8, valid_utf8};

verus! {

/// The text that lenient decoding makes of `bytes`: the text they encode
/// where they are UTF-8, and otherwise that text with a replacement character
/// for each part that is not.
pub uninterp spec fn utf8_lossy(bytes: Seq<u8>) -> Seq<char>;

/// Calls `String::from_utf8_lossy`. Bytes that are UTF-8 come back as the
/// text they encode; of other bytes only the name of the result is stated.
#[verifier::external_body]
pub(crate) fn decode_lossy(bytes: &[u8]) -> (text: String)
    ensures
        text@ == utf8_lossy(bytes@),
        valid_utf8(bytes@) ==> text@ == decode_utf8(bytes@),
{
    String::from_utf8_lossy(bytes).into_owned()
}

/// The text that is read from `bytes`: the text they encode where they are
/// UTF-8, and what lenient decoding makes of them where they are not.
pub open spec fn lenient_text(bytes: Seq<u8>) -> Seq<char> {
    if valid_utf8(bytes) {
        decode_utf8(bytes)
    } else {
        utf8_lossy(bytes)
    }
}

/// Reads a text from bytes that should be UTF-8 and may not be.
pub fn read_text(bytes: &[u8]) -> (text: String)
    ensures
        text@ == lenient_text(bytes@),
{
    decode_lossy(bytes)
}

/// Calls `std::str::from_utf8` and tells whether it accepted the bytes.
#[verifier::external_body]
pub(crate) fn is_utf8(bytes: &[u8]) -> (ok: bool)
    ensures
        ok == valid_utf8(bytes@),
{
    std::str::from_utf8(bytes).is_ok()
}

} // verus!
