//! Little-endian integers, as every frame of the protocol carries them.

use vstd::prelude::*;

verus! {

/// The two bytes of `value`, least significant first.
pub open spec fn u16_le(value: u16) -> Seq<u8> {
    seq![(value % 0x100) as u8, (value / 0x100) as u8]
}

/// The four bytes of `value`, least significant first.
pub open spec fn u32_le(value: u32) -> Seq<u8> {
    seq![
        (value % 0x100) as u8,
        (value / 0x100 % 0x100) as u8,
        (value / 0x1_0000 % 0x100) as u8,
        (value / 0x100_0000) as u8,
    ]
}

/// The eight bytes of `value`, least significant first: its low half, then its high half.
pub open spec fn u64_le(value: u64) -> Seq<u8> {
    u32_le((value % 0x1_0000_0000) as u32) + u32_le((value / 0x1_0000_0000) as u32)
}

/// The two's complement bit pattern of `value`.
pub open spec fn i32_bits(value: i32) -> u32 {
    if value >= 0 {
        value as u32
    } else {
        (value + 0x1_0000_0000) as u32
    }
}

/// The four bytes of the two's complement of `value`, least significant first.
pub open spec fn i32_le(value: i32) -> Seq<u8> {
    u32_le(i32_bits(value))
}

/// The number that the two bytes of `bytes` from `at` on stand for.
pub open spec fn u16_at(bytes: Seq<u8>, at: int) -> u16 {
    (bytes[at] + 0x100 * bytes[at + 1]) as u16
}

/// The number that the four bytes of `bytes` from `at` on stand for.
pub open spec fn u32_at(bytes: Seq<u8>, at: int) -> u32 {
    (bytes[at] + 0x100 * bytes[at + 1] + 0x1_0000 * bytes[at + 2] + 0x100_0000 * bytes[at
        + 3]) as u32
}

/// The number that the eight bytes of `bytes` from `at` on stand for.
pub open spec fn u64_at(bytes: Seq<u8>, at: int) -> u64 {
    (u32_at(bytes, at) + 0x1_0000_0000 * u32_at(bytes, at + 4)) as u64
}

/// The number whose two's complement the four bytes of `bytes` from `at` on are.
pub open spec fn i32_at(bytes: Seq<u8>, at: int) -> i32 {
    let bits = u32_at(bytes, at);
    if bits < 0x8000_0000 {
        bits as i32
    } else {
        (bits - 0x1_0000_0000) as i32
    }
}

/// A `u16` is read back from where its bytes stand.
pub proof fn lemma_u16_read_back(bytes: Seq<u8>, at: int, value: u16)
    requires
        0 <= at,
        at + 2 <= bytes.len(),
        bytes.subrange(at, at + 2) == u16_le(value),
    ensures
        u16_at(bytes, at) == value,
{
    let part = bytes.subrange(at, at + 2);
    assert(part[0] == bytes[at] && part[1] == bytes[at + 1]);
}

/// A `u32` is read back from where its bytes stand.
pub proof fn lemma_u32_read_back(bytes: Seq<u8>, at: int, value: u32)
    requires
        0 <= at,
        at + 4 <= bytes.len(),
        bytes.subrange(at, at + 4) == u32_le(value),
    ensures
        u32_at(bytes, at) == value,
{
    let part = bytes.subrange(at, at + 4);
    assert(part[0] == bytes[at] && part[1] == bytes[at + 1]);
    assert(part[2] == bytes[at + 2] && part[3] == bytes[at + 3]);
}

/// A `u64` is read back from where its bytes stand.
pub proof fn lemma_u64_read_back(bytes: Seq<u8>, at: int, value: u64)
    requires
        0 <= at,
        at + 8 <= bytes.len(),
        bytes.subrange(at, at + 8) == u64_le(value),
    ensures
        u64_at(bytes, at) == value,
{
    let part = bytes.subrange(at, at + 8);
    let low = (value % 0x1_0000_0000) as u32;
    let high = (value / 0x1_0000_0000) as u32;
    assert(bytes.subrange(at, at + 4) =~= u32_le(low)) by {
        assert(bytes.subrange(at, at + 4) =~= part.subrange(0, 4));
    }
    assert(bytes.subrange(at + 4, at + 8) =~= u32_le(high)) by {
        assert(bytes.subrange(at + 4, at + 8) =~= part.subrange(4, 8));
    }
    lemma_u32_read_back(bytes, at, low);
    lemma_u32_read_back(bytes, at + 4, high);
}

/// An `i32` is read back from where its bytes stand.
pub proof fn lemma_i32_read_back(bytes: Seq<u8>, at: int, value: i32)
    requires
        0 <= at,
        at + 4 <= bytes.len(),
        bytes.subrange(at, at + 4) == i32_le(value),
    ensures
        i32_at(bytes, at) == value,
{
    lemma_u32_read_back(bytes, at, i32_bits(value));
}

/// Appends the two bytes of `value`.
pub(crate) fn put_u16(out: &mut Vec<u8>, value: u16)
    ensures
        final(out)@ == old(out)@ + u16_le(value),
{
    out.push((value % 0x100) as u8);
    out.push((value / 0x100) as u8);
    assert(out@ =~= old(out)@ + u16_le(value));
}

/// Appends the four bytes of `value`.
pub(crate) fn put_u32(out: &mut Vec<u8>, value: u32)
    ensures
        final(out)@ == old(out)@ + u32_le(value),
{
    out.push((value % 0x100) as u8);
    out.push((value / 0x100 % 0x100) as u8);
    out.push((value / 0x1_0000 % 0x100) as u8);
    out.push((value / 0x100_0000) as u8);
    assert(out@ =~= old(out)@ + u32_le(value));
}

/// Appends the eight bytes of `value`.
pub(crate) fn put_u64(out: &mut Vec<u8>, value: u64)
    ensures
        final(out)@ == old(out)@ + u64_le(value),
{
    put_u32(out, (value % 0x1_0000_0000) as u32);
    put_u32(out, (value / 0x1_0000_0000) as u32);
    assert(out@ =~= old(out)@ + u64_le(value));
}

/// Appends the four bytes of the two's complement of `value`.
pub(crate) fn put_i32(out: &mut Vec<u8>, value: i32)
    ensures
        final(out)@ == old(out)@ + i32_le(value),
{
    assert(value < 0 ==> (value as u32) == value + 0x1_0000_0000) by (bit_vector);
    put_u32(out, value as u32);
}

/// The `u16` at `at`.
pub(crate) fn get_u16(bytes: &[u8], at: usize) -> (value: u16)
    requires
        at + 2 <= bytes@.len(),
    ensures
        value == u16_at(bytes@, at as int),
{
    bytes[at] as u16 + 0x100 * (bytes[at + 1] as u16)
}

/// The `u32` at `at`.
pub(crate) fn get_u32(bytes: &[u8], at: usize) -> (value: u32)
    requires
        at + 4 <= bytes@.len(),
    ensures
        value == u32_at(bytes@, at as int),
{
    bytes[at] as u32 + 0x100 * (bytes[at + 1] as u32) + 0x1_0000 * (bytes[at + 2] as u32)
        + 0x100_0000 * (bytes[at + 3] as u32)
}

/// The `u64` at `at`.
pub(crate) fn get_u64(bytes: &[u8], at: usize) -> (value: u64)
    requires
        at + 8 <= bytes@.len(),
    ensures
        value == u64_at(bytes@, at as int),
{
    assert(bytes.len() <= usize::MAX);
    get_u32(bytes, at) as u64 + 0x1_0000_0000 * (get_u32(bytes, at + 4) as u64)
}

} // verus!
