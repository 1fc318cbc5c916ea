//! Text conversions of `std`.
use vstd::prelude::*;
use vstd::utf8::{decode_utf8, valid_utf8};

verus! {

/// `String::from_utf8`: the bytes as a string when they are valid UTF-8, else an error
/// (here `None`).
#[verifier::external_body]
pub(crate) fn string_from_utf8(bytes: Vec<u8>) -> (s: Option<String>)
    ensures
        s is Some <==> valid_utf8(bytes@),
        s matches Some(t) ==> t@ == decode_utf8(bytes@),
{
    String::from_utf8(bytes).ok()
}

/// `std::str::from_utf8`, asked only whether it succeeds: whether `bytes` are valid UTF-8.
#[verifier::external_body]
pub(crate) fn is_utf8(bytes: &[u8]) -> (b: bool)
    ensures
        b == valid_utf8(bytes@),
{
    std::str::from_utf8(bytes).is_ok()
}

/// The characters `String::from_utf8_lossy` makes of bytes that are not valid UTF-8
/// (each invalid sequence becomes U+FFFD).
pub uninterp spec fn utf8_lossy(bytes: Seq<u8>) -> Seq<char>;

/// The characters `String::from_utf8_lossy` makes of `bytes`: their decoding when they are
/// valid UTF-8.
pub open spec fn lossy_text(bytes: Seq<u8>) -> Seq<char> {
    if valid_utf8(bytes) {
        decode_utf8(bytes)
    } else {
        utf8_lossy(bytes)
    }
}

/// `String::from_utf8_lossy`, made an owned `String`: valid UTF-8 is decoded as it is; what
/// replaces invalid sequences is only named.
#[verifier::external_body]
pub(crate) fn string_from_utf8_lossy(bytes: &[u8]) -> (s: String)
    ensures
        valid_utf8(bytes@) ==> s@ == decode_utf8(bytes@),
        !valid_utf8(bytes@) ==> s@ == utf8_lossy(bytes@),
{
    String::from_utf8_lossy(bytes).to_string()
}

/// Whether two byte strings are equal.
pub fn bytes_equal(a: &[u8], b: &[u8]) -> (eq: bool)
    ensures
        eq == (a@ == b@),
{
    if a.len() != b.len() {
        return false;
    }
    let mut i: usize = 0;
    while i < a.len()
        invariant
            i <= a@.len(),
            a@.len() == b@.len(),
            forall|j: int| 0 <= j < i ==> a@[j] == b@[j],
        decreases a@.len() - i,
    {
        if a[i] != b[i] {
            return false;
        }
        i = i + 1;
    }
    assert(a@ =~= b@);
    true
}

} // verus!
