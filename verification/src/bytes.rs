//! Fixed-width integers as they lie in a byte stream.

use vstd::prelude::*;

verus! {

/// The number that two bytes hold, most significant byte first.
pub open spec fn be16(hi: u8, lo: u8) -> int {
    hi as int * 256 + lo as int
}

/// The number that four bytes hold, most significant byte first.
pub open spec fn be32(b0: u8, b1: u8, b2: u8, b3: u8) -> int {
    ((b0 as int * 256 + b1 as int) * 256 + b2 as int) * 256 + b3 as int
}

/// The 16-bit number stored at `at`, in the given byte order.
pub open spec fn u16_at(data: Seq<u8>, at: int, little_endian: bool) -> int {
    if little_endian {
        be16(data[at + 1], data[at])
    } else {
        be16(data[at], data[at + 1])
    }
}

/// The 32-bit number stored at `at`, in the given byte order.
pub open spec fn u32_at(data: Seq<u8>, at: int, little_endian: bool) -> int {
    if little_endian {
        be32(data[at + 3], data[at + 2], data[at + 1], data[at])
    } else {
        be32(data[at], data[at + 1], data[at + 2], data[at + 3])
    }
}

/// The two bytes that hold `value`, most significant byte first.
pub open spec fn be16_bytes(value: int) -> Seq<u8> {
    seq![(value / 256) as u8, (value % 256) as u8]
}

/// The four bytes that hold `value`, most significant byte first.
pub open spec fn be32_bytes(value: int) -> Seq<u8> {
    seq![
        (value / 16777216) as u8,
        (value / 65536 % 256) as u8,
        (value / 256 % 256) as u8,
        (value % 256) as u8,
    ]
}

/// Reads the 16-bit number at `at`.
pub fn read_u16(data: &[u8], at: usize, little_endian: bool) -> (value: u16)
    requires
        at + 2 <= data@.len(),
    ensures
        value == u16_at(data@, at as int, little_endian),
{
    let first: u16 = data[at] as u16;
    let second: u16 = data[at + 1] as u16;
    if little_endian {
        second * 256 + first
    } else {
        first * 256 + second
    }
}

/// Reads the 32-bit number at `at`.
pub fn read_u32(data: &[u8], at: usize, little_endian: bool) -> (value: u32)
    requires
        at + 4 <= data@.len(),
    ensures
        value == u32_at(data@, at as int, little_endian),
{
    let b0: u32 = data[at] as u32;
    let b1: u32 = data[at + 1] as u32;
    let b2: u32 = data[at + 2] as u32;
    let b3: u32 = data[at + 3] as u32;
    if little_endian {
        ((b3 * 256 + b2) * 256 + b1) * 256 + b0
    } else {
        ((b0 * 256 + b1) * 256 + b2) * 256 + b3
    }
}

/// Appends `value` to `out`, most significant byte first.
pub fn push_be16(out: &mut Vec<u8>, value: u16)
    ensures
        final(out)@ == old(out)@ + be16_bytes(value as int),
{
    out.push((value / 256) as u8);
    out.push((value % 256) as u8);
    assert(out@ =~= old(out)@ + be16_bytes(value as int));
}

/// Appends `value` to `out`, most significant byte first.
pub fn push_be32(out: &mut Vec<u8>, value: u32)
    ensures
        final(out)@ == old(out)@ + be32_bytes(value as int),
{
    out.push((value / 16777216) as u8);
    out.push((value / 65536 % 256) as u8);
    out.push((value / 256 % 256) as u8);
    out.push((value % 256) as u8);
    assert(out@ =~= old(out)@ + be32_bytes(value as int));
}

/// Reading back what `be16_bytes` wrote gives the number written.
pub proof fn lemma_be16_round_trip(value: int)
    requires
        0 <= value < 65536,
    ensures
        be16_bytes(value).len() == 2,
        be16(be16_bytes(value)[0], be16_bytes(value)[1]) == value,
{
}

/// Reading back what `be32_bytes` wrote gives the number written.
pub proof fn lemma_be32_round_trip(value: int)
    requires
        0 <= value < 4294967296,
    ensures
        be32_bytes(value).len() == 4,
        be32(
            be32_bytes(value)[0],
            be32_bytes(value)[1],
            be32_bytes(value)[2],
            be32_bytes(value)[3],
        ) == value,
{
}

/// Writing the number that four bytes hold gives those bytes again.
pub proof fn lemma_be32_bytes_of_read(b0: u8, b1: u8, b2: u8, b3: u8)
    ensures
        be32_bytes(be32(b0, b1, b2, b3)) =~= seq![b0, b1, b2, b3],
        0 <= be32(b0, b1, b2, b3) < 4294967296,
{
}

} // verus!
