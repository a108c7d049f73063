//! What each PNG operation makes of a run of chunks.

use vstd::prelude::*;
use vstd::utf8::{encode_utf8, valid_utf8};
use crate::bytes::be32_bytes;
use crate::checksum::crc32;
use crate::decoders::png_decodes;
use crate::error::ErrorKind;
use crate::png::chunk::{
    chunk_at, chunks_from, emit, has_signature, kind_at, kind_iend, kind_text, lemma_emit_push,
    signature, Chunk, CHUNK_OVERHEAD,
};
use crate::sequences::first_index;
use crate::text::lenient_text;

verus! {

/// The longest keyword of a text chunk.
pub const MAX_KEYWORD_LEN: usize = 79;

/// Whether a stream opens with the PNG signature and the decoder reads a
/// sound header from it.
pub open spec fn is_valid_png(data: Seq<u8>) -> bool {
    has_signature(data) && png_decodes(data)
}

/// Whether a chunk type is one that cleaning keeps: `IHDR`, `PLTE`, `IDAT`,
/// `IEND`, `tRNS`, `gAMA`, `cHRM`, `sRGB`, `iCCP`, `sBIT` or `pHYs`.
pub open spec fn is_critical(kind: Seq<u8>) -> bool {
    ||| kind == seq![0x49u8, 0x48, 0x44, 0x52]
    ||| kind == seq![0x50u8, 0x4C, 0x54, 0x45]
    ||| kind == seq![0x49u8, 0x44, 0x41, 0x54]
    ||| kind == seq![0x49u8, 0x45, 0x4E, 0x44]
    ||| kind == seq![0x74u8, 0x52, 0x4E, 0x53]
    ||| kind == seq![0x67u8, 0x41, 0x4D, 0x41]
    ||| kind == seq![0x63u8, 0x48, 0x52, 0x4D]
    ||| kind == seq![0x73u8, 0x52, 0x47, 0x42]
    ||| kind == seq![0x69u8, 0x43, 0x43, 0x50]
    ||| kind == seq![0x73u8, 0x42, 0x49, 0x54]
    ||| kind == seq![0x70u8, 0x48, 0x59, 0x73]
}

/// The predicate that holds of the chunks that cleaning keeps.
pub open spec fn critical_pred() -> spec_fn(Chunk) -> bool {
    |chunk: Chunk| is_critical(chunk.kind)
}

/// Whether `data` is, from `pos` on, a run of whole chunks whose types are
/// UTF-8, up to an `IEND` chunk or to the very end of the stream.
pub open spec fn strict_from(data: Seq<u8>, pos: int) -> bool
    decreases data.len() - pos,
{
    if pos >= data.len() {
        true
    } else {
        match chunk_at(data, pos) {
            None => false,
            Some(chunk) => valid_utf8(chunk.kind) && (chunk.kind == kind_iend() || strict_from(
                data,
                pos + CHUNK_OVERHEAD + chunk.data.len(),
            )),
        }
    }
}

/// The stream that cleaning builds from `data`: the signature and the
/// chunks that are kept, byte for byte and in their order.
pub open spec fn cleaned_stream(data: Seq<u8>) -> Seq<u8> {
    signature() + emit(chunks_from(data, 8).filter(critical_pred()))
}

/// The outcome of cleaning the chunks of any stream.
pub open spec fn strip_outcome(data: Seq<u8>) -> Result<Seq<u8>, ErrorKind> {
    if strict_from(data, 8) {
        Ok(cleaned_stream(data))
    } else {
        Err(ErrorKind::ParseError)
    }
}

/// The outcome of `clean_chunks`.
pub open spec fn clean_outcome(data: Seq<u8>) -> Result<Seq<u8>, ErrorKind> {
    if !is_valid_png(data) {
        Err(ErrorKind::InvalidFormat)
    } else if !strict_from(data, 8) {
        Err(ErrorKind::ParseError)
    } else if !is_valid_png(cleaned_stream(data)) {
        Err(ErrorKind::InvalidFormat)
    } else {
        Ok(cleaned_stream(data))
    }
}

/// The predicate that holds of a zero byte.
pub open spec fn zero_pred() -> spec_fn(u8) -> bool {
    |byte: u8| byte == 0
}

/// Keyword and text that the data of a text chunk hold: what stands in front
/// of the first zero byte and what stands behind it. Data without a zero
/// byte are all text, with an empty keyword.
pub open spec fn entry_of(data: Seq<u8>) -> (Seq<char>, Seq<char>) {
    match first_index(data, zero_pred()) {
        Some(split) => (
            lenient_text(data.take(split)),
            if split + 1 < data.len() {
                lenient_text(data.skip(split + 1))
            } else {
                Seq::empty()
            },
        ),
        None => (Seq::empty(), lenient_text(data)),
    }
}

/// Whether a chunk is a text chunk that holds anything.
pub open spec fn is_text(chunk: Chunk) -> bool {
    chunk.kind == kind_text() && chunk.data.len() > 0
}

/// Keyword and text of every text chunk of a run, in the order of the chunks.
pub open spec fn text_entries(chunks: Seq<Chunk>) -> Seq<(Seq<char>, Seq<char>)>
    decreases chunks.len(),
{
    if chunks.len() == 0 {
        Seq::empty()
    } else if is_text(chunks.last()) {
        text_entries(chunks.drop_last()).push(entry_of(chunks.last().data))
    } else {
        text_entries(chunks.drop_last())
    }
}

/// The outcome of `read_text_chunks`.
pub open spec fn read_outcome(data: Seq<u8>) -> Result<Seq<(Seq<char>, Seq<char>)>, ErrorKind> {
    if !is_valid_png(data) {
        Err(ErrorKind::InvalidFormat)
    } else {
        Ok(text_entries(chunks_from(data, 8)))
    }
}

/// Whether a character may stand in a keyword: an ASCII letter, an ASCII
/// digit or a space.
pub open spec fn is_keyword_char(c: char) -> bool {
    ||| '0' <= c <= '9'
    ||| 'A' <= c <= 'Z'
    ||| 'a' <= c <= 'z'
    ||| c == ' '
}

/// Whether a byte is the code of a character that may stand in a keyword.
pub open spec fn is_keyword_byte(byte: u8) -> bool {
    ||| 0x30 <= byte <= 0x39
    ||| 0x41 <= byte <= 0x5A
    ||| 0x61 <= byte <= 0x7A
    ||| byte == 0x20
}

/// Whether a keyword has between 1 and 79 characters, each of them one that
/// may stand in a keyword.
pub open spec fn valid_keyword(keyword: Seq<char>) -> bool {
    &&& 1 <= keyword.len() <= MAX_KEYWORD_LEN
    &&& forall|i: int| 0 <= i < keyword.len() ==> is_keyword_char(#[trigger] keyword[i])
}

/// The data of a text chunk: the keyword, a zero byte and the text.
pub open spec fn text_data(keyword: Seq<char>, text: Seq<char>) -> Seq<u8> {
    encode_utf8(keyword) + seq![0u8] + encode_utf8(text)
}

/// The text chunk that holds `keyword` and `text`, with its checksum over
/// type and data.
pub open spec fn text_chunk(keyword: Seq<char>, text: Seq<char>) -> Chunk {
    let data = text_data(keyword, text);
    Chunk { kind: kind_text(), data, crc: be32_bytes(crc32(kind_text() + data) as int) }
}

/// The offset of the first chunk header from `pos` on that announces an
/// `IEND` chunk, walking whole chunks only. The `IEND` chunk itself need not
/// be whole.
pub open spec fn iend_offset(data: Seq<u8>, pos: int) -> Option<int>
    decreases data.len() - pos,
{
    if pos < 0 || pos + 8 > data.len() {
        None
    } else if kind_at(data, pos) == kind_iend() {
        Some(pos)
    } else {
        match chunk_at(data, pos) {
            None => None,
            Some(chunk) => iend_offset(data, pos + CHUNK_OVERHEAD + chunk.data.len()),
        }
    }
}

/// The stream that holds `chunk` in front of the chunk header at `at`.
pub open spec fn spliced_stream(data: Seq<u8>, at: int, chunk: Chunk) -> Seq<u8> {
    data.take(at) + chunk.bytes() + data.skip(at)
}

/// The outcome of putting a text chunk into any stream. The keyword is
/// judged first, then the `IEND` chunk is looked for, and only then is the
/// chunk built: a stream without an `IEND` chunk is a parse error whatever
/// the text, and data too long for the four bytes of a chunk length are an
/// invalid format only where the chunk has a place to go.
pub open spec fn splice_outcome(data: Seq<u8>, keyword: Seq<char>, text: Seq<char>) -> Result<
    Seq<u8>,
    ErrorKind,
> {
    if !valid_keyword(keyword) {
        Err(ErrorKind::InvalidFormat)
    } else {
        match iend_offset(data, 8) {
            None => Err(ErrorKind::ParseError),
            Some(at) => if text_data(keyword, text).len() > u32::MAX {
                Err(ErrorKind::InvalidFormat)
            } else {
                Ok(spliced_stream(data, at, text_chunk(keyword, text)))
            },
        }
    }
}

/// The outcome of `add_text_chunk`.
pub open spec fn add_outcome(data: Seq<u8>, keyword: Seq<char>, text: Seq<char>) -> Result<
    Seq<u8>,
    ErrorKind,
> {
    if !is_valid_png(data) {
        Err(ErrorKind::InvalidFormat)
    } else {
        match splice_outcome(data, keyword, text) {
            Err(kind) => Err(kind),
            Ok(out) => if is_valid_png(out) {
                Ok(out)
            } else {
                Err(ErrorKind::InvalidFormat)
            },
        }
    }
}

/// One step of the walk over a stream that reads chunks as far as they go.
pub proof fn lemma_walk_step(data: Seq<u8>, pos: int, done: Seq<Chunk>)
    requires
        0 <= pos,
    ensures
        match chunk_at(data, pos) {
            Some(chunk) => {
                let next = pos + CHUNK_OVERHEAD + chunk.data.len();
                &&& done + chunks_from(data, pos) == done.push(chunk) + (if chunk.kind
                    == kind_iend() {
                    Seq::empty()
                } else {
                    chunks_from(data, next)
                })
                &&& pos < data.len() && strict_from(data, pos) == (valid_utf8(chunk.kind) && (
                chunk.kind == kind_iend() || strict_from(data, next)))
            },
            None => done + chunks_from(data, pos) == done && (strict_from(data, pos) == (pos
                >= data.len())),
        },
{
    match chunk_at(data, pos) {
        Some(chunk) => {
            let next = pos + CHUNK_OVERHEAD + chunk.data.len();
            if chunk.kind == kind_iend() {
                assert(done + seq![chunk] =~= done.push(chunk) + Seq::<Chunk>::empty());
            } else {
                assert(done + (seq![chunk] + chunks_from(data, next)) =~= done.push(chunk)
                    + chunks_from(data, next));
            }
        },
        None => {
            assert(done + Seq::<Chunk>::empty() =~= done);
        },
    }
}

/// What one more chunk adds to the bytes that cleaning has built.
pub proof fn lemma_clean_step(done: Seq<Chunk>, next: Chunk)
    ensures
        emit(done.push(next).filter(critical_pred())) == emit(done.filter(critical_pred())) + (
        if is_critical(next.kind) {
            next.bytes()
        } else {
            Seq::empty()
        }),
{
    let kept = done.filter(critical_pred());
    done.lemma_filter_push(next, critical_pred());
    if is_critical(next.kind) {
        lemma_emit_push(kept, next);
    } else {
        assert(emit(kept) + Seq::<u8>::empty() =~= emit(kept));
    }
}

/// What cleaning has built before it has seen any chunk.
pub proof fn lemma_clean_start()
    ensures
        emit(Seq::<Chunk>::empty().filter(critical_pred())) == Seq::<u8>::empty(),
{
    Seq::<Chunk>::empty().lemma_filter_len(critical_pred());
    assert(Seq::<Chunk>::empty().filter(critical_pred()) =~= Seq::<Chunk>::empty());
}

/// What one more chunk adds to the entries that reading has collected.
pub proof fn lemma_read_step(done: Seq<Chunk>, next: Chunk)
    ensures
        text_entries(done.push(next)) == (if is_text(next) {
            text_entries(done).push(entry_of(next.data))
        } else {
            text_entries(done)
        }),
{
    assert(done.push(next).drop_last() =~= done);
}

} // verus!
