//! Big-endian integer fields of the wire format, read and written through `byteorder`.
use byteorder::{BigEndian, ByteOrder, WriteBytesExt};
use vstd::prelude::*;

verus! {

/// The `u32` whose big-endian encoding is the first four bytes of `b`.
pub open spec fn be_u32(b: Seq<u8>) -> u32
    recommends
        b.len() >= 4,
{
    ((b[0] as u32) << 24u32) | ((b[1] as u32) << 16u32) | ((b[2] as u32) << 8u32) | (b[3] as u32)
}

/// The `u64` whose big-endian encoding is the first eight bytes of `b`.
pub open spec fn be_u64(b: Seq<u8>) -> u64
    recommends
        b.len() >= 8,
{
    ((b[0] as u64) << 56u64) | ((b[1] as u64) << 48u64) | ((b[2] as u64) << 40u64) | ((
    b[3] as u64) << 32u64) | ((b[4] as u64) << 24u64) | ((b[5] as u64) << 16u64) | ((b[6] as u64)
        << 8u64) | (b[7] as u64)
}

/// The four bytes of `n`, most significant first.
pub open spec fn be_bytes_u32(n: u32) -> Seq<u8> {
    seq![(n >> 24u32) as u8, (n >> 16u32) as u8, (n >> 8u32) as u8, n as u8]
}

/// The eight bytes of `n`, most significant first.
pub open spec fn be_bytes_u64(n: u64) -> Seq<u8> {
    seq![
        (n >> 56u64) as u8,
        (n >> 48u64) as u8,
        (n >> 40u64) as u8,
        (n >> 32u64) as u8,
        (n >> 24u64) as u8,
        (n >> 16u64) as u8,
        (n >> 8u64) as u8,
        n as u8,
    ]
}

/// Decoding the big-endian bytes of a `u32` gives the number back.
pub proof fn lemma_be_u32_roundtrip(n: u32)
    ensures
        be_u32(be_bytes_u32(n)) == n,
        be_bytes_u32(n).len() == 4,
{
    let b = be_bytes_u32(n);
    let (b0, b1, b2, b3) = (b[0], b[1], b[2], b[3]);
    assert(b0 == (n >> 24u32) as u8 && b1 == (n >> 16u32) as u8 && b2 == (n >> 8u32) as u8 && b3
        == n as u8);
    assert(((b0 as u32) << 24u32) | ((b1 as u32) << 16u32) | ((b2 as u32) << 8u32) | (b3 as u32)
        == n) by (bit_vector)
        requires
            b0 == (n >> 24u32) as u8,
            b1 == (n >> 16u32) as u8,
            b2 == (n >> 8u32) as u8,
            b3 == n as u8,
    ;
}

/// Decoding the big-endian bytes of a `u64` gives the number back.
pub proof fn lemma_be_u64_roundtrip(n: u64)
    ensures
        be_u64(be_bytes_u64(n)) == n,
        be_bytes_u64(n).len() == 8,
{
    let b = be_bytes_u64(n);
    let (b0, b1, b2, b3, b4, b5, b6, b7) = (b[0], b[1], b[2], b[3], b[4], b[5], b[6], b[7]);
    assert(((b0 as u64) << 56u64) | ((b1 as u64) << 48u64) | ((b2 as u64) << 40u64) | ((
    b3 as u64) << 32u64) | ((b4 as u64) << 24u64) | ((b5 as u64) << 16u64) | ((b6 as u64)
        << 8u64) | (b7 as u64) == n) by (bit_vector)
        requires
            b0 == (n >> 56u64) as u8,
            b1 == (n >> 48u64) as u8,
            b2 == (n >> 40u64) as u8,
            b3 == (n >> 32u64) as u8,
            b4 == (n >> 24u64) as u8,
            b5 == (n >> 16u64) as u8,
            b6 == (n >> 8u64) as u8,
            b7 == n as u8,
    ;
}

/// Only the first four bytes count when a `u32` is read.
pub proof fn lemma_be_u32_prefix(a: Seq<u8>, b: Seq<u8>)
    requires
        a.len() >= 4,
        b.len() >= 4,
        a.take(4) == b.take(4),
    ensures
        be_u32(a) == be_u32(b),
{
    assert(a[0] == a.take(4)[0] && a[1] == a.take(4)[1] && a[2] == a.take(4)[2] && a[3] == a.take(
        4,
    )[3]);
    assert(b[0] == b.take(4)[0] && b[1] == b.take(4)[1] && b[2] == b.take(4)[2] && b[3] == b.take(
        4,
    )[3]);
}

/// Only the first eight bytes count when a `u64` is read.
pub proof fn lemma_be_u64_prefix(a: Seq<u8>, b: Seq<u8>)
    requires
        a.len() >= 8,
        b.len() >= 8,
        a.take(8) == b.take(8),
    ensures
        be_u64(a) == be_u64(b),
{
    assert forall|i: int| 0 <= i < 8 implies a[i] == b[i] by {
        assert(a[i] == a.take(8)[i]);
        assert(b[i] == b.take(8)[i]);
    }
}

/// `ByteOrder::read_u32` of `BigEndian`: reads the first four bytes of `buf` as a big-endian
/// number. It panics on fewer than four bytes, so that input is excluded.
#[verifier::external_body]
pub(crate) fn read_be_u32(buf: &[u8]) -> (r: u32)
    requires
        buf@.len() >= 4,
    ensures
        r == be_u32(buf@),
{
    BigEndian::read_u32(buf)
}

/// `ByteOrder::read_u64` of `BigEndian`: reads the first eight bytes of `buf` as a big-endian
/// number. It panics on fewer than eight bytes, so that input is excluded.
#[verifier::external_body]
pub(crate) fn read_be_u64(buf: &[u8]) -> (r: u64)
    requires
        buf@.len() >= 8,
    ensures
        r == be_u64(buf@),
{
    BigEndian::read_u64(buf)
}

/// `WriteBytesExt::write_u32::<BigEndian>` on a `Vec<u8>`: appends the four big-endian bytes of
/// `n`. Writing into a vector cannot fail, so the `Ok` is unwrapped.
#[verifier::external_body]
pub(crate) fn push_be_u32(out: &mut Vec<u8>, n: u32)
    ensures
        final(out)@ == old(out)@ + be_bytes_u32(n),
{
    out.write_u32::<BigEndian>(n).unwrap()
}

/// `WriteBytesExt::write_u64::<BigEndian>` on a `Vec<u8>`: appends the eight big-endian bytes of
/// `n`. Writing into a vector cannot fail, so the `Ok` is unwrapped.
#[verifier::external_body]
pub(crate) fn push_be_u64(out: &mut Vec<u8>, n: u64)
    ensures
        final(out)@ == old(out)@ + be_bytes_u64(n),
{
    out.write_u64::<BigEndian>(n).unwrap()
}

/// Appends `bytes` to `out`.
pub(crate) fn push_bytes(out: &mut Vec<u8>, bytes: &[u8])
    ensures
        final(out)@ == old(out)@ + bytes@,
{
    let mut i: usize = 0;
    while i < bytes.len()
        invariant
            i <= bytes@.len(),
            out@ == old(out)@ + bytes@.take(i as int),
        decreases bytes@.len() - i,
    {
        out.push(bytes[i]);
        i = i + 1;
        assert(bytes@.take(i as int) == bytes@.take(i - 1 as int).push(bytes@[i - 1]));
    }
    assert(bytes@.take(bytes@.len() as int) == bytes@);
}

} // verus!
