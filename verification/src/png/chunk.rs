//! A PNG stream as a sequence of chunks.

use vstd::prelude::*;
use crate::bytes::{be32, be32_bytes, lemma_be32_bytes_of_read, read_u32};

verus! {

/// Bytes of a chunk besides its data: length, type and checksum.
pub const CHUNK_OVERHEAD: usize = 12;

/// One chunk of a PNG stream: its four-byte type, its data and the four
/// bytes of its checksum, as they lie in the stream.
pub struct Chunk {
    pub kind: Seq<u8>,
    pub data: Seq<u8>,
    pub crc: Seq<u8>,
}

impl Chunk {
    /// The chunk as it lies in a stream: the length of its data, its type,
    /// its data and its checksum.
    pub open spec fn bytes(self) -> Seq<u8> {
        be32_bytes(self.data.len() as int) + self.kind + self.data + self.crc
    }

    /// Whether type and checksum have four bytes each and the length of the
    /// data fits the four bytes that store it.
    pub open spec fn well_formed(self) -> bool {
        &&& self.kind.len() == 4
        &&& self.crc.len() == 4
        &&& self.data.len() <= u32::MAX
    }
}

/// The eight bytes that open every PNG stream.
pub open spec fn signature() -> Seq<u8> {
    seq![137u8, 80, 78, 71, 13, 10, 26, 10]
}

/// Whether a stream opens with the PNG signature.
pub open spec fn has_signature(data: Seq<u8>) -> bool {
    data.len() >= 8 && data.take(8) == signature()
}

/// The type of the last chunk of every stream.
pub open spec fn kind_iend() -> Seq<u8> {
    seq![0x49u8, 0x45, 0x4E, 0x44]
}

/// The type of a chunk that holds a keyword and a text.
pub open spec fn kind_text() -> Seq<u8> {
    seq![0x74u8, 0x45, 0x58, 0x74]
}

/// The length that the chunk header at `pos` announces for its data.
pub open spec fn length_at(data: Seq<u8>, pos: int) -> int {
    be32(data[pos], data[pos + 1], data[pos + 2], data[pos + 3])
}

/// The type that the chunk header at `pos` announces.
pub open spec fn kind_at(data: Seq<u8>, pos: int) -> Seq<u8> {
    data.subrange(pos + 4, pos + 8)
}

/// The chunk that starts at `pos`, or `None` where its header is cut off or
/// the chunk runs past the end of the stream.
pub open spec fn chunk_at(data: Seq<u8>, pos: int) -> Option<Chunk> {
    if pos < 0 || pos + 8 > data.len() {
        None
    } else {
        let length = length_at(data, pos);
        if pos + CHUNK_OVERHEAD + length > data.len() {
            None
        } else {
            Some(
                Chunk {
                    kind: kind_at(data, pos),
                    data: data.subrange(pos + 8, pos + 8 + length),
                    crc: data.subrange(pos + 8 + length, pos + 12 + length),
                },
            )
        }
    }
}

/// The chunks of `data` from `pos` on, up to and including the first `IEND`
/// chunk, or up to the first place where no whole chunk starts.
pub open spec fn chunks_from(data: Seq<u8>, pos: int) -> Seq<Chunk>
    decreases data.len() - pos,
{
    match chunk_at(data, pos) {
        None => Seq::empty(),
        Some(chunk) => if chunk.kind == kind_iend() {
            seq![chunk]
        } else {
            seq![chunk] + chunks_from(data, pos + CHUNK_OVERHEAD + chunk.data.len())
        },
    }
}

/// The bytes of a run of chunks, one after the other.
pub open spec fn emit(chunks: Seq<Chunk>) -> Seq<u8>
    decreases chunks.len(),
{
    if chunks.len() == 0 {
        Seq::empty()
    } else {
        emit(chunks.drop_last()) + chunks.last().bytes()
    }
}

/// Tells where the chunk that starts at `pos` ends, if the whole of it lies
/// in `data`.
pub fn chunk_end(data: &[u8], pos: usize) -> (res: Option<usize>)
    requires
        pos + 8 <= data@.len(),
    ensures
        match res {
            Some(end) => {
                &&& end == pos + CHUNK_OVERHEAD + length_at(data@, pos as int)
                &&& end <= data@.len()
                &&& chunk_at(data@, pos as int) is Some
                &&& chunk_at(data@, pos as int)->Some_0.well_formed()
                &&& chunk_at(data@, pos as int)->Some_0.bytes() == data@.subrange(
                    pos as int,
                    end as int,
                )
            },
            None => chunk_at(data@, pos as int) is None,
        },
{
    let len: usize = data.len();
    let length: u32 = read_u32(data, pos, false);
    let room: usize = len - pos;
    if room < CHUNK_OVERHEAD || length as usize > room - CHUNK_OVERHEAD {
        return None;
    }
    let end: usize = pos + CHUNK_OVERHEAD + length as usize;
    proof {
        let chunk = chunk_at(data@, pos as int)->Some_0;
        lemma_be32_bytes_of_read(data@[pos as int], data@[pos + 1], data@[pos + 2], data@[pos + 3]);
        assert(chunk.bytes() =~= data@.subrange(pos as int, end as int));
    }
    Some(end)
}

/// Tells whether the chunk header at `pos` announces the given type.
pub fn has_kind(data: &[u8], pos: usize, a: u8, b: u8, c: u8, d: u8) -> (res: bool)
    requires
        pos + 8 <= data@.len(),
    ensures
        res == (kind_at(data@, pos as int) == seq![a, b, c, d]),
{
    let len: usize = data.len();
    assert(pos + 8 <= len);
    let at: usize = pos + 4;
    let found = data[at] == a && data[at + 1] == b && data[at + 2] == c && data[at + 3] == d;
    proof {
        let kind = kind_at(data@, pos as int);
        if found {
            assert(kind =~= seq![a, b, c, d]);
        } else {
            assert(kind[0] == data@[pos + 4] && kind[1] == data@[pos + 5] && kind[2] == data@[pos
                + 6] && kind[3] == data@[pos + 7]);
            assert(seq![a, b, c, d][0] == a && seq![a, b, c, d][1] == b && seq![a, b, c, d][2] == c
                && seq![a, b, c, d][3] == d);
        }
    }
    found
}

/// Appending one chunk to a run appends its bytes to what the run emits.
pub proof fn lemma_emit_push(chunks: Seq<Chunk>, chunk: Chunk)
    ensures
        emit(chunks.push(chunk)) == emit(chunks) + chunk.bytes(),
{
    assert(chunks.push(chunk).drop_last() =~= chunks);
}

/// Two runs, one after the other, emit the bytes of the first and then those
/// of the second.
pub proof fn lemma_emit_concat(front: Seq<Chunk>, back: Seq<Chunk>)
    ensures
        emit(front + back) == emit(front) + emit(back),
    decreases back.len(),
{
    if back.len() == 0 {
        assert(front + back =~= front);
        assert(emit(front) + emit(back) =~= emit(front));
    } else {
        lemma_emit_concat(front, back.drop_last());
        assert((front + back).drop_last() =~= front + back.drop_last());
        assert((front + back).last() == back.last());
        assert(emit(front + back) =~= emit(front) + emit(back));
    }
}

} // verus!
