//! Decoding of byte fields that must hold UTF-8 text.

use vstd::prelude::*;
use vstd::utf8::{decode_utf8, valid_utf8};

verus! {

/// Relies on `String::from_utf8`: it accepts exactly the well-formed UTF-8 byte
/// strings and decodes them.
#[verifier::external_body]
fn string_from_utf8(b: Vec<u8>) -> (r: Option<String>)
    ensures
        r is Some <==> valid_utf8(b@),
        r matches Some(s) ==> s@ == decode_utf8(b@),
{
    String::from_utf8(b).ok()
}

/// Decodes `d[start..start + len]` as UTF-8 text; `None` when it is malformed.
pub fn utf8_field(d: &[u8], start: usize, len: usize) -> (r: Option<String>)
    requires
        start + len <= d@.len(),
    ensures
        r is Some <==> valid_utf8(d@.subrange(start as int, start + len)),
        r matches Some(s) ==> s@ == decode_utf8(d@.subrange(start as int, start + len)),
{
    assert(start + len <= d.len());
    let bytes = vstd::slice::slice_to_vec(&d[start..start + len]);
    string_from_utf8(bytes)
}

} // verus!
