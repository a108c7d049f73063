//! What holds of the PNG operations taken together.

use vstd::prelude::*;
use vstd::utf8::{
    decode_utf8, encode_utf8, encode_utf8_decode_utf8, encode_utf8_valid_utf8,
    is_ascii_chars_encode_utf8, valid_utf8,
};
use crate::bytes::{be32_bytes, lemma_be32_round_trip};
use crate::error::ErrorKind;
use crate::png::chunk::{
    chunk_at, chunks_from, emit, kind_at, kind_iend, kind_text, lemma_emit_concat, lemma_emit_push,
    length_at, signature, Chunk, CHUNK_OVERHEAD,
};
use crate::png::rules::{
    add_outcome, clean_outcome, cleaned_stream, critical_pred, entry_of, iend_offset, is_text,
    read_outcome, spliced_stream, strict_from, text_chunk, text_data, text_entries, valid_keyword,
    zero_pred,
};
use crate::sequences::{all_satisfy, lemma_filter_all, lemma_filter_preserves, lemma_first_index_is};

verus! {

/// Whether a run of chunks can stand in a stream: every chunk is well
/// formed, and an `IEND` chunk, at which reading stops, is the last one.
pub open spec fn is_run(chunks: Seq<Chunk>) -> bool {
    forall|i: int|
        0 <= i < chunks.len() ==> {
            &&& (#[trigger] chunks[i]).well_formed()
            &&& chunks[i].kind == kind_iend() ==> i == chunks.len() - 1
        }
}

/// The predicate that holds of chunks whose type is UTF-8.
pub open spec fn named_pred() -> spec_fn(Chunk) -> bool {
    |chunk: Chunk| valid_utf8(chunk.kind)
}

/// The chunks read from a stream form a run.
pub proof fn lemma_walk_is_run(data: Seq<u8>, pos: int)
    requires
        0 <= pos,
    ensures
        is_run(chunks_from(data, pos)),
    decreases data.len() - pos,
{
    match chunk_at(data, pos) {
        None => {},
        Some(chunk) => {
            let all = chunks_from(data, pos);
            assert(chunk.well_formed());
            if chunk.kind != kind_iend() {
                let next = pos + CHUNK_OVERHEAD + chunk.data.len();
                let rest = chunks_from(data, next);
                lemma_walk_is_run(data, next);
                assert(all == seq![chunk] + rest);
                assert forall|i: int| 0 <= i < all.len() implies {
                    &&& (#[trigger] all[i]).well_formed()
                    &&& all[i].kind == kind_iend() ==> i == all.len() - 1
                } by {
                    if i > 0 {
                        assert(all[i] == rest[i - 1]);
                    }
                }
            }
        },
    }
}

/// Where a stream is a run of whole chunks with UTF-8 types, every chunk
/// read from it has such a type.
pub proof fn lemma_strict_is_named(data: Seq<u8>, pos: int)
    requires
        0 <= pos,
        strict_from(data, pos),
    ensures
        all_satisfy(chunks_from(data, pos), named_pred()),
    decreases data.len() - pos,
{
    match chunk_at(data, pos) {
        None => {},
        Some(chunk) => {
            let all = chunks_from(data, pos);
            if chunk.kind != kind_iend() {
                let next = pos + CHUNK_OVERHEAD + chunk.data.len();
                let rest = chunks_from(data, next);
                lemma_strict_is_named(data, next);
                assert(all == seq![chunk] + rest);
                assert forall|i: int| 0 <= i < all.len() implies named_pred()(
                    #[trigger] all[i],
                ) by {
                    if i > 0 {
                        assert(all[i] == rest[i - 1]);
                        assert(named_pred()(rest[i - 1]));
                    }
                }
            }
        },
    }
}

/// The bytes of one well-formed chunk, read where they start, give the
/// chunk.
pub proof fn lemma_read_chunk(data: Seq<u8>, pos: int, chunk: Chunk)
    requires
        0 <= pos,
        chunk.well_formed(),
        pos + chunk.bytes().len() <= data.len(),
        data.subrange(pos, pos + chunk.bytes().len()) == chunk.bytes(),
    ensures
        chunk.bytes().len() == CHUNK_OVERHEAD + chunk.data.len(),
        chunk_at(data, pos) == Some(chunk),
{
    let bytes = chunk.bytes();
    let length = chunk.data.len() as int;
    lemma_be32_round_trip(length);
    assert(bytes.len() == 12 + length);
    assert forall|k: int| 0 <= k < bytes.len() implies data[pos + k] == #[trigger] bytes[k] by {
        assert(data.subrange(pos, pos + bytes.len())[k] == data[pos + k]);
    }
    assert(data[pos] == bytes[0] && data[pos + 1] == bytes[1] && data[pos + 2] == bytes[2]
        && data[pos + 3] == bytes[3]);
    assert(bytes[0] == be32_bytes(length)[0] && bytes[1] == be32_bytes(length)[1] && bytes[2]
        == be32_bytes(length)[2] && bytes[3] == be32_bytes(length)[3]);
    assert(length_at(data, pos) == length);
    let read = chunk_at(data, pos)->Some_0;
    assert(read.kind =~= chunk.kind) by {
        assert forall|k: int| 0 <= k < 4 implies read.kind[k] == chunk.kind[k] by {
            assert(bytes[4 + k] == chunk.kind[k]);
        }
    }
    assert(read.data =~= chunk.data) by {
        assert forall|k: int| 0 <= k < length implies read.data[k] == chunk.data[k] by {
            assert(bytes[8 + k] == chunk.data[k]);
        }
    }
    assert(read.crc =~= chunk.crc) by {
        assert forall|k: int| 0 <= k < 4 implies read.crc[k] == chunk.crc[k] by {
            assert(bytes[8 + length + k] == chunk.crc[k]);
        }
    }
}

/// Reading back the bytes of a run gives the run: behind any prefix, the
/// stream that a run emits holds the chunks of the run, and is a run of
/// whole chunks with UTF-8 types where the chunks have such types.
pub proof fn lemma_read_emitted(prefix: Seq<u8>, chunks: Seq<Chunk>)
    requires
        is_run(chunks),
    ensures
        chunks_from(prefix + emit(chunks), prefix.len() as int) == chunks,
        all_satisfy(chunks, named_pred()) ==> strict_from(
            prefix + emit(chunks),
            prefix.len() as int,
        ),
    decreases chunks.len(),
{
    let data = prefix + emit(chunks);
    let pos = prefix.len() as int;
    if chunks.len() == 0 {
        assert(data =~= prefix);
        assert(chunks_from(data, pos) =~= chunks);
    } else {
        let first = chunks[0];
        let rest = chunks.skip(1);
        assert(chunks =~= seq![first] + rest);
        lemma_emit_concat(seq![first], rest);
        lemma_emit_push(Seq::empty(), first);
        assert(seq![first] =~= Seq::<Chunk>::empty().push(first));
        assert(emit(seq![first]) =~= first.bytes());
        assert(first.well_formed());
        assert(data.subrange(pos, pos + first.bytes().len()) =~= first.bytes());
        lemma_read_chunk(data, pos, first);
        assert forall|i: int| 0 <= i < rest.len() implies {
            &&& (#[trigger] rest[i]).well_formed()
            &&& rest[i].kind == kind_iend() ==> i == rest.len() - 1
        } by {
            assert(rest[i] == chunks[i + 1]);
        }
        if all_satisfy(chunks, named_pred()) {
            assert(named_pred()(chunks[0]));
            assert forall|i: int| 0 <= i < rest.len() implies named_pred()(#[trigger] rest[i]) by {
                assert(rest[i] == chunks[i + 1]);
            }
        }
        let next_prefix = prefix + first.bytes();
        assert(data =~= next_prefix + emit(rest));
        lemma_read_emitted(next_prefix, rest);
        if first.kind == kind_iend() {
            assert(rest.len() == 0);
            assert(chunks_from(data, pos) =~= chunks);
        } else {
            assert(chunks_from(data, pos) =~= seq![first] + rest);
        }
    }
}

/// What a filter that lets every `IEND` chunk through leaves of a run is a
/// run.
pub proof fn lemma_kept_is_run(chunks: Seq<Chunk>)
    requires
        is_run(chunks),
    ensures
        is_run(chunks.filter(critical_pred())),
    decreases chunks.len(),
{
    let kept = chunks.filter(critical_pred());
    if chunks.len() == 0 {
        chunks.lemma_filter_len(critical_pred());
    } else {
        let front = chunks.drop_last();
        let inner = front.filter(critical_pred());
        assert forall|i: int| 0 <= i < front.len() implies {
            &&& (#[trigger] front[i]).well_formed()
            &&& front[i].kind != kind_iend()
        } by {
            assert(front[i] == chunks[i]);
        }
        lemma_filter_preserves(front, critical_pred(), |chunk: Chunk| chunk.well_formed());
        lemma_filter_preserves(front, critical_pred(), |chunk: Chunk| chunk.kind != kind_iend());
        front.lemma_filter_push(chunks.last(), critical_pred());
        assert(front.push(chunks.last()) =~= chunks);
        assert forall|i: int| 0 <= i < kept.len() implies {
            &&& (#[trigger] kept[i]).well_formed()
            &&& kept[i].kind == kind_iend() ==> i == kept.len() - 1
        } by {
            if i < inner.len() {
                assert(kept[i] == inner[i]);
                assert((|chunk: Chunk| chunk.well_formed())(inner[i]));
                assert((|chunk: Chunk| chunk.kind != kind_iend())(inner[i]));
            }
        }
    }
}

/// The stream that cleaning builds holds the chunks that cleaning kept, and
/// where cleaning found the stream in order, the stream that it builds is in
/// order and is built again when it is cleaned.
pub proof fn lemma_cleaned_stream(data: Seq<u8>)
    ensures
        chunks_from(cleaned_stream(data), 8) == chunks_from(data, 8).filter(critical_pred()),
        strict_from(data, 8) ==> strict_from(cleaned_stream(data), 8) && cleaned_stream(
            cleaned_stream(data),
        ) == cleaned_stream(data),
{
    let chunks = chunks_from(data, 8);
    let kept = chunks.filter(critical_pred());
    lemma_walk_is_run(data, 8);
    lemma_kept_is_run(chunks);
    assert(signature().len() == 8);
    lemma_read_emitted(signature(), kept);
    if strict_from(data, 8) {
        lemma_strict_is_named(data, 8);
        lemma_filter_preserves(chunks, critical_pred(), named_pred());
        lemma_filter_all(kept, critical_pred());
    }
}

/// Cleaning is idempotent: an image that `clean_chunks` has returned comes
/// back from it unchanged.
pub proof fn lemma_clean_idempotent(data: Seq<u8>)
    requires
        clean_outcome(data) is Ok,
    ensures
        clean_outcome(clean_outcome(data)->Ok_0) == clean_outcome(data),
{
    lemma_cleaned_stream(data);
}

/// Cleaning keeps the chunks an image needs and no others: the chunks of an
/// image that `clean_chunks` has returned are those chunks of the image it
/// was given whose type is on the list, byte for byte and in their order.
pub proof fn lemma_clean_keeps_critical(data: Seq<u8>)
    requires
        clean_outcome(data) is Ok,
    ensures
        chunks_from(clean_outcome(data)->Ok_0, 8) == chunks_from(data, 8).filter(critical_pred()),
{
    lemma_cleaned_stream(data);
}

/// Two runs, one after the other, hold the text entries of the first and
/// then those of the second.
pub proof fn lemma_entries_concat(front: Seq<Chunk>, back: Seq<Chunk>)
    ensures
        text_entries(front + back) == text_entries(front) + text_entries(back),
    decreases back.len(),
{
    if back.len() == 0 {
        assert(front + back =~= front);
        assert(text_entries(front) + text_entries(back) =~= text_entries(front));
    } else {
        lemma_entries_concat(front, back.drop_last());
        assert((front + back).drop_last() =~= front + back.drop_last());
        assert((front + back).last() == back.last());
        assert(text_entries(front + back) =~= text_entries(front) + text_entries(back));
    }
}

/// What is read at an offset depends only on the bytes from that offset on.
pub proof fn lemma_chunk_at_shift(a: Seq<u8>, i: int, b: Seq<u8>, j: int)
    requires
        0 <= i <= a.len(),
        0 <= j <= b.len(),
        a.skip(i) == b.skip(j),
    ensures
        chunk_at(a, i) == chunk_at(b, j),
{
    let tail = a.skip(i);
    assert(a.skip(i).len() == a.len() - i);
    assert(b.skip(j).len() == b.len() - j);
    assert forall|k: int| 0 <= k < tail.len() implies #[trigger] tail[k] == a[i + k] && tail[k]
        == b[j + k] by {
        assert(a.skip(i)[k] == a[i + k]);
        assert(b.skip(j)[k] == b[j + k]);
    }
    if i + 8 <= a.len() {
        assert(tail[0] == a[i] && tail[1] == a[i + 1] && tail[2] == a[i + 2] && tail[3] == a[i
            + 3]);
        assert(a[i] == b[j] && a[i + 1] == b[j + 1] && a[i + 2] == b[j + 2] && a[i + 3] == b[j
            + 3]);
        let length = length_at(a, i);
        assert(length == length_at(b, j));
        if i + CHUNK_OVERHEAD + length <= a.len() {
            assert(kind_at(a, i) =~= tail.subrange(4, 8));
            assert(kind_at(b, j) =~= tail.subrange(4, 8));
            assert(a.subrange(i + 8, i + 8 + length) =~= tail.subrange(8, 8 + length));
            assert(b.subrange(j + 8, j + 8 + length) =~= tail.subrange(8, 8 + length));
            assert(a.subrange(i + 8 + length, i + 12 + length) =~= tail.subrange(
                8 + length,
                12 + length,
            ));
            assert(b.subrange(j + 8 + length, j + 12 + length) =~= tail.subrange(
                8 + length,
                12 + length,
            ));
        }
    }
}

/// The header of the `IEND` chunk lies at or behind the offset from which it
/// is looked for, and whole in the stream.
pub proof fn lemma_iend_bounds(data: Seq<u8>, pos: int)
    requires
        iend_offset(data, pos) is Some,
    ensures
        pos <= iend_offset(data, pos)->Some_0,
        iend_offset(data, pos)->Some_0 + 8 <= data.len(),
        kind_at(data, iend_offset(data, pos)->Some_0) == kind_iend(),
    decreases data.len() - pos,
{
    if kind_at(data, pos) != kind_iend() {
        let chunk = chunk_at(data, pos)->Some_0;
        lemma_iend_bounds(data, pos + CHUNK_OVERHEAD + chunk.data.len());
    }
}

/// Where a chunk is let in at the header of the `IEND` chunk, reading from
/// there gives the new chunk and then what the stream held from there on: the
/// `IEND` chunk where it is whole, and nothing where it is cut off.
pub proof fn lemma_spliced_at_end(data: Seq<u8>, at: int, chunk: Chunk)
    requires
        0 <= at,
        at + 8 <= data.len(),
        kind_at(data, at) == kind_iend(),
        chunk.well_formed(),
        chunk.kind != kind_iend(),
    ensures
        chunks_from(spliced_stream(data, at, chunk), at) == seq![chunk] + chunks_from(data, at),
        chunks_from(data, at).len() <= 1,
        forall|i: int|
            0 <= i < chunks_from(data, at).len() ==> (#[trigger] chunks_from(data, at)[i]).kind
                == kind_iend(),
{
    let out = spliced_stream(data, at, chunk);
    let behind = at + chunk.bytes().len();
    assert(out.subrange(at, behind) =~= chunk.bytes());
    lemma_read_chunk(out, at, chunk);
    assert(out.skip(behind) =~= data.skip(at));
    lemma_chunk_at_shift(out, behind, data, at);
    match chunk_at(data, at) {
        Some(last) => {
            assert(chunks_from(data, at) =~= seq![last]);
            assert(chunks_from(out, behind) =~= seq![last]);
        },
        None => {
            assert(chunks_from(data, at) =~= Seq::<Chunk>::empty());
            assert(chunks_from(out, behind) =~= Seq::<Chunk>::empty());
        },
    }
    assert(chunks_from(out, at) == seq![chunk] + chunks_from(out, behind));
}

/// A whole chunk that ends in front of the place where another is let in is
/// read from the new stream as it was from the old.
pub proof fn lemma_spliced_in_front(data: Seq<u8>, pos: int, at: int, chunk: Chunk)
    requires
        0 <= pos,
        chunk_at(data, pos) is Some,
        pos + CHUNK_OVERHEAD + chunk_at(data, pos)->Some_0.data.len() <= at <= data.len(),
    ensures
        chunk_at(spliced_stream(data, at, chunk), pos) == chunk_at(data, pos),
{
    let out = spliced_stream(data, at, chunk);
    let here = chunk_at(data, pos)->Some_0;
    let next = pos + CHUNK_OVERHEAD + here.data.len();
    assert(here.well_formed());
    assert(data.subrange(pos, next) =~= here.bytes()) by {
        crate::bytes::lemma_be32_bytes_of_read(
            data[pos],
            data[pos + 1],
            data[pos + 2],
            data[pos + 3],
        );
    }
    assert(out.subrange(pos, next) =~= data.subrange(pos, next));
    lemma_read_chunk(out, pos, here);
}

/// The chunks of a stream that holds one more chunk in front of its `IEND`
/// chunk: those in front of the `IEND` chunk, which the proof returns, then
/// the new chunk, then what the stream held from its `IEND` chunk on.
pub proof fn lemma_spliced_chunks(data: Seq<u8>, pos: int, chunk: Chunk) -> (lead: Seq<Chunk>)
    requires
        0 <= pos,
        iend_offset(data, pos) is Some,
        chunk.well_formed(),
        chunk.kind != kind_iend(),
    ensures
        ({
            let at = iend_offset(data, pos)->Some_0;
            &&& chunks_from(data, pos) == lead + chunks_from(data, at)
            &&& chunks_from(spliced_stream(data, at, chunk), pos) == lead + seq![chunk]
                + chunks_from(data, at)
        }),
    decreases data.len() - pos,
{
    let at = iend_offset(data, pos)->Some_0;
    let out = spliced_stream(data, at, chunk);
    let last = chunks_from(data, at);
    lemma_iend_bounds(data, pos);
    if kind_at(data, pos) == kind_iend() {
        lemma_spliced_at_end(data, at, chunk);
        let lead = Seq::<Chunk>::empty();
        assert(lead + last =~= last);
        assert(lead + seq![chunk] + last =~= seq![chunk] + last);
        lead
    } else {
        let here = chunk_at(data, pos)->Some_0;
        let next = pos + CHUNK_OVERHEAD + here.data.len();
        lemma_iend_bounds(data, next);
        let rest = lemma_spliced_chunks(data, next, chunk);
        lemma_spliced_in_front(data, pos, at, chunk);
        let lead = seq![here] + rest;
        assert(chunks_from(data, pos) == seq![here] + chunks_from(data, next));
        assert(chunks_from(out, pos) == seq![here] + chunks_from(out, next));
        assert(seq![here] + (rest + last) =~= lead + last);
        assert(seq![here] + (rest + seq![chunk] + last) =~= lead + seq![chunk] + last);
        lead
    }
}

/// The data of a text chunk with a valid keyword give keyword and text back.
pub proof fn lemma_entry_of_text_data(keyword: Seq<char>, text: Seq<char>)
    requires
        valid_keyword(keyword),
    ensures
        entry_of(text_data(keyword, text)) == (keyword, text),
        text_data(keyword, text).len() > 0,
{
    let data = text_data(keyword, text);
    let head = encode_utf8(keyword);
    let tail = encode_utf8(text);
    assert(vstd::utf8::is_ascii_chars(keyword)) by {
        assert forall|i: int| 0 <= i < keyword.len() implies '\0' <= #[trigger] keyword[i]
            <= '\u{7f}' by {
            assert(crate::png::rules::is_keyword_char(keyword[i]));
        }
    }
    is_ascii_chars_encode_utf8(keyword);
    let split = head.len() as int;
    assert forall|j: int| 0 <= j < split implies !zero_pred()(#[trigger] data[j]) by {
        assert(data[j] == head[j]);
        assert(crate::png::rules::is_keyword_char(keyword[j]));
        assert(keyword[j] as u8 == head[j]);
    }
    assert(data[split] == 0);
    lemma_first_index_is(data, zero_pred(), split);
    assert(data.take(split) =~= head);
    assert(data.skip(split + 1) =~= tail);
    encode_utf8_valid_utf8(keyword);
    encode_utf8_decode_utf8(keyword);
    encode_utf8_valid_utf8(text);
    encode_utf8_decode_utf8(text);
    if tail.len() == 0 {
        assert(decode_utf8(tail) =~= Seq::<char>::empty());
    }
}

/// A text chunk that was added can be read: from an image that
/// `add_text_chunk` has returned, `read_text_chunks` returns what it returns
/// from the image that was given, and behind that the keyword and text that
/// were added. So chunks with one keyword stand side by side.
pub proof fn lemma_add_then_read(data: Seq<u8>, keyword: Seq<char>, text: Seq<char>)
    requires
        add_outcome(data, keyword, text) is Ok,
    ensures
        read_outcome(data) == Ok::<Seq<(Seq<char>, Seq<char>)>, ErrorKind>(
            text_entries(chunks_from(data, 8)),
        ),
        read_outcome(add_outcome(data, keyword, text)->Ok_0) == Ok::<
            Seq<(Seq<char>, Seq<char>)>,
            ErrorKind,
        >(text_entries(chunks_from(data, 8)).push((keyword, text))),
{
    let chunk = text_chunk(keyword, text);
    let at = iend_offset(data, 8)->Some_0;
    lemma_entry_of_text_data(keyword, text);
    assert(kind_text() != kind_iend()) by {
        assert(kind_text()[0] != kind_iend()[0]);
    }
    assert(chunk.well_formed());
    let lead = lemma_spliced_chunks(data, 8, chunk);
    let last = chunks_from(data, at);
    lemma_iend_bounds(data, 8);
    lemma_spliced_at_end(data, at, chunk);
    lemma_entries_concat(lead, last);
    lemma_entries_concat(lead + seq![chunk], last);
    lemma_entries_concat(lead, seq![chunk]);
    let nothing = Seq::<Chunk>::empty();
    assert(text_entries(nothing) =~= Seq::<(Seq<char>, Seq<char>)>::empty());
    assert(text_entries(last) =~= Seq::<(Seq<char>, Seq<char>)>::empty()) by {
        if last.len() == 1 {
            assert(last[0].kind == kind_iend());
            assert(!is_text(last[0]));
            crate::png::rules::lemma_read_step(nothing, last[0]);
            assert(last =~= nothing.push(last[0]));
        } else {
            assert(last =~= nothing);
        }
    }
    assert(text_entries(seq![chunk]) =~= seq![(keyword, text)]) by {
        crate::png::rules::lemma_read_step(nothing, chunk);
        assert(seq![chunk] =~= nothing.push(chunk));
        assert(is_text(chunk));
    }
    assert(text_entries(lead) + seq![(keyword, text)] + Seq::<(Seq<char>, Seq<char>)>::empty()
        =~= (text_entries(lead) + Seq::<(Seq<char>, Seq<char>)>::empty()).push((keyword, text)));
}

/// A run without text chunks holds no text entries.
pub proof fn lemma_no_text(chunks: Seq<Chunk>)
    requires
        forall|j: int| 0 <= j < chunks.len() ==> !is_text(#[trigger] chunks[j]),
    ensures
        text_entries(chunks) == Seq::<(Seq<char>, Seq<char>)>::empty(),
    decreases chunks.len(),
{
    if chunks.len() > 0 {
        let front = chunks.drop_last();
        assert forall|j: int| 0 <= j < front.len() implies !is_text(#[trigger] front[j]) by {
            assert(front[j] == chunks[j]);
        }
        lemma_no_text(front);
        assert(!is_text(chunks[chunks.len() - 1]));
    }
}

/// Cleaning leaves no text: from an image that `clean_chunks` has returned,
/// `read_text_chunks` returns no chunk.
pub proof fn lemma_clean_drops_text(data: Seq<u8>)
    requires
        clean_outcome(data) is Ok,
    ensures
        read_outcome(clean_outcome(data)->Ok_0) == Ok::<Seq<(Seq<char>, Seq<char>)>, ErrorKind>(
            Seq::empty(),
        ),
{
    let kept = chunks_from(data, 8).filter(critical_pred());
    lemma_cleaned_stream(data);
    lemma_filter_preserves(chunks_from(data, 8), critical_pred(), |chunk: Chunk| true);
    assert forall|j: int| 0 <= j < kept.len() implies !is_text(#[trigger] kept[j]) by {
        assert(critical_pred()(kept[j]));
        let kind = kept[j].kind;
        if kind == kind_text() {
            assert(kind[0] == 0x74 && kind[1] == 0x45);
        }
    }
    lemma_no_text(kept);
}

} // verus!
