//! The boundary to std's UTF-8 validation.

use vstd::prelude::*;

verus! {

/// What std's UTF-8 validation makes of a byte sequence: the decoded text
/// when the bytes are valid UTF-8, nothing otherwise.  The outcome depends on
/// the bytes alone.
pub uninterp spec fn utf8_decode(b: Seq<u8>) -> Option<Seq<char>>;

/// Relies on `String::from_utf8`: it succeeds exactly on valid UTF-8 input,
/// and the returned string holds the decoded text of the given bytes.  UTF-8
/// is a superset of ASCII, so bytes below 0x80 decode to themselves, one
/// character per byte.
#[verifier::external_body]
pub(crate) fn bytes_to_string(b: Vec<u8>) -> (r: Option<String>)
    ensures
        r is Some <==> utf8_decode(b@) is Some,
        r matches Some(t) ==> utf8_decode(b@) matches Some(cs) && t@ == cs,
        r is Some <== (forall|q: int| 0 <= q < b@.len() ==> b@[q] < 0x80),
        r matches Some(t) ==> ((forall|q: int| 0 <= q < b@.len() ==> b@[q] < 0x80) ==> t@.len()
            == b@.len() && (forall|q: int| 0 <= q < b@.len() ==> t@[q] == b@[q] as char)),
{
    String::from_utf8(b).ok()
}

} // verus!
