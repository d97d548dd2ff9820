//! Conversion of payload bytes to text, replacement-character style:
//! invalid byte sequences never raise an error.

use vstd::prelude::*;

verus! {

/// The text that lossy UTF-8 conversion yields for the given bytes:
/// valid sequences decode as usual, invalid ones become replacement
/// characters. A pure function of the bytes alone.
pub uninterp spec fn lossy_utf8(bytes: Seq<u8>) -> Seq<char>;

/// Relies on String::from_utf8_lossy: the result depends on the bytes
/// alone, and bytes that are valid UTF-8 decode to exactly that text.
#[verifier::external_body]
pub(crate) fn utf8_lossy(bytes: &Vec<u8>) -> (r: String)
    ensures
        r@ == lossy_utf8(bytes@),
        vstd::utf8::valid_utf8(bytes@) ==> r@ == vstd::utf8::decode_utf8(bytes@),
{
    String::from_utf8_lossy(bytes).into_owned()
}

} // verus!
