//! Big-endian integers: what a run of bytes denotes, and the calls that
//! convert between the two.

use byteorder::{BigEndian, ByteOrder};
use vstd::prelude::*;

verus! {

/// The 16-bit value of two bytes, most significant first.
pub open spec fn be_u16(b: Seq<u8>) -> u16
    recommends
        b.len() >= 2,
{
    (b[0] as int * 0x100 + b[1] as int) as u16
}

/// The 24-bit value of three bytes, most significant first.
pub open spec fn be_u24(b: Seq<u8>) -> u32
    recommends
        b.len() >= 3,
{
    ((b[0] as int * 0x100 + b[1] as int) * 0x100 + b[2] as int) as u32
}

/// The 32-bit value of four bytes, most significant first.
pub open spec fn be_u32(b: Seq<u8>) -> u32
    recommends
        b.len() >= 4,
{
    (be_u16(b) as int * 0x1_0000 + be_u16(b.skip(2)) as int) as u32
}

/// The 64-bit value of eight bytes, most significant first.
pub open spec fn be_u64(b: Seq<u8>) -> u64
    recommends
        b.len() >= 8,
{
    (be_u32(b) as int * 0x1_0000_0000 + be_u32(b.skip(4)) as int) as u64
}

/// The 128-bit value of sixteen bytes, most significant first.
pub open spec fn be_u128(b: Seq<u8>) -> u128
    recommends
        b.len() >= 16,
{
    (be_u64(b) as int * 0x1_0000_0000_0000_0000 + be_u64(b.skip(8)) as int) as u128
}

/// The two bytes of a 16-bit value, most significant first.
pub open spec fn u16_be_bytes(n: u16) -> Seq<u8> {
    seq![(n / 0x100) as u8, (n % 0x100) as u8]
}

/// The four bytes of a 32-bit value, most significant first.
pub open spec fn u32_be_bytes(n: u32) -> Seq<u8> {
    u16_be_bytes((n / 0x1_0000) as u16) + u16_be_bytes((n % 0x1_0000) as u16)
}

/// The eight bytes of a 64-bit value, most significant first.
pub open spec fn u64_be_bytes(n: u64) -> Seq<u8> {
    u32_be_bytes((n / 0x1_0000_0000) as u32) + u32_be_bytes((n % 0x1_0000_0000) as u32)
}

/// The sixteen bytes of a 128-bit value, most significant first.
pub open spec fn u128_be_bytes(n: u128) -> Seq<u8> {
    u64_be_bytes((n / 0x1_0000_0000_0000_0000) as u64) + u64_be_bytes(
        (n % 0x1_0000_0000_0000_0000) as u64,
    )
}

/// `byteorder::BigEndian::read_u16`: the value of the first two bytes of
/// `buf`, most significant first. The call panics on a shorter slice.
#[verifier::external_body]
pub(crate) fn read_be_u16(buf: &[u8]) -> (r: u16)
    requires
        buf@.len() >= 2,
    ensures
        r == be_u16(buf@),
{
    BigEndian::read_u16(buf)
}

/// `byteorder::BigEndian::read_u24`: the value of the first three bytes of
/// `buf`, most significant first. The call panics on a shorter slice.
#[verifier::external_body]
pub(crate) fn read_be_u24(buf: &[u8]) -> (r: u32)
    requires
        buf@.len() >= 3,
    ensures
        r == be_u24(buf@),
{
    BigEndian::read_u24(buf)
}

/// `byteorder::BigEndian::read_u32`: the value of the first four bytes of
/// `buf`, most significant first. The call panics on a shorter slice.
#[verifier::external_body]
pub(crate) fn read_be_u32(buf: &[u8]) -> (r: u32)
    requires
        buf@.len() >= 4,
    ensures
        r == be_u32(buf@),
{
    BigEndian::read_u32(buf)
}

/// `byteorder::BigEndian::read_u64`: the value of the first eight bytes of
/// `buf`, most significant first. The call panics on a shorter slice.
#[verifier::external_body]
pub(crate) fn read_be_u64(buf: &[u8]) -> (r: u64)
    requires
        buf@.len() >= 8,
    ensures
        r == be_u64(buf@),
{
    BigEndian::read_u64(buf)
}

/// `byteorder::BigEndian::read_u128`: the value of the first sixteen bytes
/// of `buf`, most significant first. The call panics on a shorter slice.
#[verifier::external_body]
pub(crate) fn read_be_u128(buf: &[u8]) -> (r: u128)
    requires
        buf@.len() >= 16,
    ensures
        r == be_u128(buf@),
{
    BigEndian::read_u128(buf)
}

/// `byteorder::BigEndian::write_u16` into a fresh two-byte array: the bytes
/// of `n`, most significant first.
#[verifier::external_body]
pub(crate) fn write_be_u16(n: u16) -> (r: [u8; 2])
    ensures
        r@ == u16_be_bytes(n),
{
    let mut out = [0u8; 2];
    BigEndian::write_u16(&mut out, n);
    out
}

/// `byteorder::BigEndian::write_u32` into a fresh four-byte array: the bytes
/// of `n`, most significant first.
#[verifier::external_body]
pub(crate) fn write_be_u32(n: u32) -> (r: [u8; 4])
    ensures
        r@ == u32_be_bytes(n),
{
    let mut out = [0u8; 4];
    BigEndian::write_u32(&mut out, n);
    out
}

/// `byteorder::BigEndian::write_u64` into a fresh eight-byte array: the
/// bytes of `n`, most significant first.
#[verifier::external_body]
pub(crate) fn write_be_u64(n: u64) -> (r: [u8; 8])
    ensures
        r@ == u64_be_bytes(n),
{
    let mut out = [0u8; 8];
    BigEndian::write_u64(&mut out, n);
    out
}

/// `byteorder::BigEndian::write_u128` into a fresh sixteen-byte array: the
/// bytes of `n`, most significant first.
#[verifier::external_body]
pub(crate) fn write_be_u128(n: u128) -> (r: [u8; 16])
    ensures
        r@ == u128_be_bytes(n),
{
    let mut out = [0u8; 16];
    BigEndian::write_u128(&mut out, n);
    out
}

/// Appends `bytes` to `buf`.
pub fn push_bytes(buf: &mut Vec<u8>, bytes: &[u8])
    ensures
        final(buf)@ == old(buf)@ + bytes@,
{
    buf.extend_from_slice(bytes);
    assert(buf@ =~= old(buf)@ + bytes@);
}

/// Appends one byte to `buf`.
pub fn push_u8(buf: &mut Vec<u8>, n: u8)
    ensures
        final(buf)@ == old(buf)@ + seq![n],
{
    buf.push(n);
    assert(buf@ =~= old(buf)@ + seq![n]);
}

/// Appends the two bytes of `n`, most significant first.
pub fn push_u16(buf: &mut Vec<u8>, n: u16)
    ensures
        final(buf)@ == old(buf)@ + u16_be_bytes(n),
{
    let bytes = write_be_u16(n);
    push_bytes(buf, bytes.as_slice());
}

/// Appends the four bytes of `n`, most significant first.
pub fn push_u32(buf: &mut Vec<u8>, n: u32)
    ensures
        final(buf)@ == old(buf)@ + u32_be_bytes(n),
{
    let bytes = write_be_u32(n);
    push_bytes(buf, bytes.as_slice());
}

/// Appends the eight bytes of `n`, most significant first.
pub fn push_u64(buf: &mut Vec<u8>, n: u64)
    ensures
        final(buf)@ == old(buf)@ + u64_be_bytes(n),
{
    let bytes = write_be_u64(n);
    push_bytes(buf, bytes.as_slice());
}

/// Appends the sixteen bytes of `n`, most significant first.
pub fn push_u128(buf: &mut Vec<u8>, n: u128)
    ensures
        final(buf)@ == old(buf)@ + u128_be_bytes(n),
{
    let bytes = write_be_u128(n);
    push_bytes(buf, bytes.as_slice());
}

/// Reading back the bytes written for a 16-bit value gives that value.
pub proof fn lemma_u16_round_trip(n: u16)
    ensures
        u16_be_bytes(n).len() == 2,
        be_u16(u16_be_bytes(n)) == n,
{
}

/// Writing the value read from two bytes gives those two bytes.
pub proof fn lemma_u16_bytes_round_trip(b: Seq<u8>)
    requires
        b.len() == 2,
    ensures
        u16_be_bytes(be_u16(b)) == b,
{
    assert(u16_be_bytes(be_u16(b)) =~= b);
}

/// Reading back the bytes written for a 32-bit value gives that value.
pub proof fn lemma_u32_round_trip(n: u32)
    ensures
        u32_be_bytes(n).len() == 4,
        be_u32(u32_be_bytes(n)) == n,
{
    let hi = (n / 0x1_0000) as u16;
    let lo = (n % 0x1_0000) as u16;
    lemma_u16_round_trip(hi);
    lemma_u16_round_trip(lo);
    assert(u32_be_bytes(n).skip(2) =~= u16_be_bytes(lo));
    assert(be_u16(u32_be_bytes(n)) == be_u16(u16_be_bytes(hi)));
}

/// Reading back the bytes written for a 64-bit value gives that value.
pub proof fn lemma_u64_round_trip(n: u64)
    ensures
        u64_be_bytes(n).len() == 8,
        be_u64(u64_be_bytes(n)) == n,
{
    let hi = (n / 0x1_0000_0000) as u32;
    let lo = (n % 0x1_0000_0000) as u32;
    lemma_u32_round_trip(hi);
    lemma_u32_round_trip(lo);
    lemma_be_u32_prefix(u32_be_bytes(hi), u32_be_bytes(lo));
    assert(u64_be_bytes(n).skip(4) =~= u32_be_bytes(lo));
}

/// The 32-bit value of a run of bytes depends on its first four bytes only.
pub proof fn lemma_be_u32_prefix(a: Seq<u8>, b: Seq<u8>)
    requires
        a.len() >= 4,
    ensures
        be_u32(a + b) == be_u32(a),
{
    assert((a + b).skip(2)[0] == a.skip(2)[0]);
    assert((a + b).skip(2)[1] == a.skip(2)[1]);
}

/// Writing the value read from four bytes gives those four bytes.
pub proof fn lemma_u32_bytes_round_trip(b: Seq<u8>)
    requires
        b.len() == 4,
    ensures
        u32_be_bytes(be_u32(b)) == b,
{
    let hi = be_u16(b);
    let lo = be_u16(b.skip(2));
    let n = be_u32(b);
    assert(n == hi as int * 0x1_0000 + lo as int);
    assert((n / 0x1_0000) as u16 == hi);
    assert((n % 0x1_0000) as u16 == lo);
    lemma_u16_bytes_round_trip(b.subrange(0, 2));
    lemma_u16_bytes_round_trip(b.skip(2));
    assert(be_u16(b.subrange(0, 2)) == hi);
    assert(u32_be_bytes(n) =~= b);
}

/// The 64-bit value of a run of bytes depends on its first eight bytes
/// only.
pub proof fn lemma_be_u64_prefix(a: Seq<u8>, b: Seq<u8>)
    requires
        a.len() >= 8,
    ensures
        be_u64(a + b) == be_u64(a),
{
    lemma_be_u32_prefix(a, b);
    assert((a + b).skip(4) =~= a.skip(4) + b);
    lemma_be_u32_prefix(a.skip(4), b);
}

/// Writing the value read from eight bytes gives those eight bytes.
pub proof fn lemma_u64_bytes_round_trip(b: Seq<u8>)
    requires
        b.len() == 8,
    ensures
        u64_be_bytes(be_u64(b)) == b,
{
    let hi = be_u32(b);
    let lo = be_u32(b.skip(4));
    let n = be_u64(b);
    assert(n == hi as int * 0x1_0000_0000 + lo as int);
    assert((n / 0x1_0000_0000) as u32 == hi);
    assert((n % 0x1_0000_0000) as u32 == lo);
    assert(b =~= b.subrange(0, 4) + b.skip(4));
    lemma_be_u32_prefix(b.subrange(0, 4), b.skip(4));
    lemma_u32_bytes_round_trip(b.subrange(0, 4));
    lemma_u32_bytes_round_trip(b.skip(4));
    assert(u64_be_bytes(n) =~= b);
}

/// Writing the value read from sixteen bytes gives those sixteen bytes.
pub proof fn lemma_u128_bytes_round_trip(b: Seq<u8>)
    requires
        b.len() == 16,
    ensures
        u128_be_bytes(be_u128(b)) == b,
{
    let hi = be_u64(b);
    let lo = be_u64(b.skip(8));
    let n = be_u128(b);
    assert(n == hi as int * 0x1_0000_0000_0000_0000 + lo as int);
    assert((n / 0x1_0000_0000_0000_0000) as u64 == hi);
    assert((n % 0x1_0000_0000_0000_0000) as u64 == lo);
    assert(b =~= b.subrange(0, 8) + b.skip(8));
    lemma_be_u64_prefix(b.subrange(0, 8), b.skip(8));
    lemma_u64_bytes_round_trip(b.subrange(0, 8));
    lemma_u64_bytes_round_trip(b.skip(8));
    assert(u128_be_bytes(n) =~= b);
}

} // verus!
