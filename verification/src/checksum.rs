//! The checksum that closes every PNG chunk.

use vstd::prelude::*;

verus! {

/// The CRC-32 checksum of `bytes`, as PNG and zlib define it.
pub uninterp spec fn crc32(bytes: Seq<u8>) -> u32;

/// Calls `crc32fast::hash`, which computes the CRC-32 checksum of one slice.
#[verifier::external_body]
pub(crate) fn crc32_of(bytes: &[u8]) -> (crc: u32)
    ensures
        crc == crc32(bytes@),
{
    crc32fast::hash(bytes)
}

/// The checksum of a chunk: over its type, then its data.
pub fn calculate_crc(chunk_type: &[u8], data: &[u8]) -> (crc: u32)
    ensures
        crc == crc32(chunk_type@ + data@),
{
    let mut covered: Vec<u8> = Vec::new();
    covered.extend_from_slice(chunk_type);
    covered.extend_from_slice(data);
    assert(covered@ =~= chunk_type@ + data@);
    crc32_of(covered.as_slice())
}

} // verus!
