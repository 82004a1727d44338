//! Big-endian integers read from the front of a byte sequence.
use byteorder::{BigEndian, ByteOrder};
use vstd::prelude::*;

verus! {

/// The big-endian value of the two bytes at `i`.
pub open spec fn be16_at(b: Seq<u8>, i: int) -> u16 {
    (b[i] as int * 0x100 + b[i + 1] as int) as u16
}

/// The big-endian value of the four bytes at `i`.
pub open spec fn be32_at(b: Seq<u8>, i: int) -> u32 {
    (b[i] as int * 0x1000000 + b[i + 1] as int * 0x10000 + b[i + 2] as int * 0x100
        + b[i + 3] as int) as u32
}

/// The big-endian value of the six bytes at `i`.
pub open spec fn be48_at(b: Seq<u8>, i: int) -> u64 {
    (be16_at(b, i) as int * 0x100000000 + be32_at(b, i + 2) as int) as u64
}

/// Relies on `BigEndian::read_u16`: the first two bytes, most significant first.
#[verifier::external_body]
pub(crate) fn read_be16(buf: &[u8]) -> (r: u16)
    requires
        buf@.len() >= 2,
    ensures
        r == be16_at(buf@, 0),
{
    BigEndian::read_u16(buf)
}

/// Relies on `BigEndian::read_u32`: the first four bytes, most significant first.
#[verifier::external_body]
pub(crate) fn read_be32(buf: &[u8]) -> (r: u32)
    requires
        buf@.len() >= 4,
    ensures
        r == be32_at(buf@, 0),
{
    BigEndian::read_u32(buf)
}

/// Relies on `BigEndian::read_u48`: the first six bytes, most significant first.
#[verifier::external_body]
pub(crate) fn read_be48(buf: &[u8]) -> (r: u64)
    requires
        buf@.len() >= 6,
    ensures
        r == be48_at(buf@, 0),
{
    BigEndian::read_u48(buf)
}

/// The two bytes of `buf` at `at`, as a big-endian integer.
pub fn be16_from(buf: &[u8], at: usize) -> (r: u16)
    requires
        at + 2 <= buf@.len(),
    ensures
        r == be16_at(buf@, at as int),
{
    let n: usize = buf.len();
    read_be16(vstd::slice::slice_subrange(buf, at, at + 2))
}

/// The four bytes of `buf` at `at`, as a big-endian integer.
pub fn be32_from(buf: &[u8], at: usize) -> (r: u32)
    requires
        at + 4 <= buf@.len(),
    ensures
        r == be32_at(buf@, at as int),
{
    let n: usize = buf.len();
    read_be32(vstd::slice::slice_subrange(buf, at, at + 4))
}

/// The six bytes of `buf` at `at`, as a big-endian integer.
pub fn be48_from(buf: &[u8], at: usize) -> (r: u64)
    requires
        at + 6 <= buf@.len(),
    ensures
        r == be48_at(buf@, at as int),
{
    let n: usize = buf.len();
    read_be48(vstd::slice::slice_subrange(buf, at, at + 6))
}

} // verus!
