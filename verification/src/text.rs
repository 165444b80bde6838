use vstd::prelude::*;
use vstd::utf8::{decode_utf8, encode_utf8, valid_utf8};

verus! {

/// Relies on core::str::from_utf8: it returns Ok exactly when the bytes are
/// valid UTF-8, and the returned str consists of those same bytes, so its
/// characters are their decoding.
#[verifier::external_body]
pub(crate) fn try_str_from_bytes(bytes: &[u8]) -> (r: Option<&str>)
    ensures
        r is Some <==> valid_utf8(bytes@),
        r matches Some(s) ==> encode_utf8(s@) == bytes@ && s@ == decode_utf8(bytes@),
{
    core::str::from_utf8(bytes).ok()
}

} // verus!
