//! Conversions between strings and their UTF-8 bytes.
use vstd::prelude::*;
use vstd::utf8::{valid_utf8, encode_utf8, decode_utf8, encode_utf8_decode_utf8};
use vstd::string::StringSliceAdditionalSpecFns;

verus! {

/// `std::str::from_utf8`: the claim is that it succeeds exactly on byte
/// sequences that are valid UTF-8, and that the string slice it returns has
/// those bytes as its UTF-8 encoding.
#[verifier::external_body]
fn str_from_utf8(bytes: &[u8]) -> (r: Option<&str>)
    ensures
        r is Some <==> valid_utf8(bytes@),
        r matches Some(s) ==> s.spec_bytes() == bytes@,
{
    std::str::from_utf8(bytes).ok()
}

/// The string whose UTF-8 encoding is `bytes`, or `None` when the bytes are
/// not valid UTF-8.
pub fn string_from_utf8(bytes: &[u8]) -> (r: Option<String>)
    ensures
        r is Some <==> valid_utf8(bytes@),
        r matches Some(s) ==> s@ == decode_utf8(bytes@),
{
    match str_from_utf8(bytes) {
        Some(s) => {
            proof {
                encode_utf8_decode_utf8(s@);
            }
            Some(s.to_owned())
        },
        None => None,
    }
}

/// The UTF-8 bytes of a string.
pub fn utf8_bytes(s: &String) -> (r: &[u8])
    ensures
        r@ == encode_utf8(s@),
{
    s.as_str().as_bytes()
}

} // verus!
