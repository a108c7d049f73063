//! Rewriting the chunks of a PNG stream.

pub mod chunk;
pub mod laws;
pub mod rules;

use vstd::prelude::*;
use vstd::utf8::{is_ascii_chars, is_ascii_chars_encode_utf8};
use crate::bytes::push_be32;
use crate::checksum::calculate_crc;
use crate::decoders::validate_png_decode;
use crate::error::{bytes_outcome, Error, ErrorKind};
use crate::png::chunk::{
    chunk_at, chunk_end, chunks_from, emit, has_kind, has_signature, kind_at, kind_text, signature,
    Chunk,
};
use crate::png::rules::{
    add_outcome, clean_outcome, critical_pred, entry_of, iend_offset, is_critical, is_keyword_byte,
    is_keyword_char, is_valid_png, lemma_clean_start, lemma_clean_step, lemma_read_step,
    lemma_walk_step, read_outcome,
    splice_outcome, spliced_stream, strict_from, strip_outcome, text_chunk, text_data, text_entries,
    valid_keyword, zero_pred, MAX_KEYWORD_LEN,
};
use crate::sequences::{lemma_first_index_is, lemma_first_index_none};
use crate::text::{is_utf8, read_text};

verus! {

/// Keyword and text of one text chunk.
#[derive(Debug, Clone, PartialEq, Eq)]
pub struct TextChunk {
    /// What the text is about, in 1 to 79 characters.
    pub keyword: String,
    /// The text itself.
    pub text: String,
}

impl View for TextChunk {
    type V = (Seq<char>, Seq<char>);

    open spec fn view(&self) -> (Seq<char>, Seq<char>) {
        (self.keyword@, self.text@)
    }
}

/// Keyword and text of each chunk of a list.
pub open spec fn entries_of(chunks: Seq<TextChunk>) -> Seq<(Seq<char>, Seq<char>)> {
    chunks.map_values(|chunk: TextChunk| chunk@)
}

/// What a result that carries text chunks says, with the payload of an error
/// left out.
pub open spec fn entries_outcome(res: Result<Vec<TextChunk>, Error>) -> Result<
    Seq<(Seq<char>, Seq<char>)>,
    ErrorKind,
> {
    match res {
        Ok(chunks) => Ok(entries_of(chunks@)),
        Err(e) => Err(e.kind()),
    }
}

/// Checks that `data` opens with the PNG signature and that the decoder
/// reads a sound header from it.
pub fn validate_png(data: &[u8]) -> (res: Result<(), Error>)
    ensures
        res is Ok <==> is_valid_png(data@),
        res is Err ==> res->Err_0.kind() == ErrorKind::InvalidFormat,
{
    let opens = data.len() >= 8 && data[0] == 137 && data[1] == 80 && data[2] == 78 && data[3]
        == 71 && data[4] == 13 && data[5] == 10 && data[6] == 26 && data[7] == 10;
    proof {
        if data@.len() >= 8 {
            let head = data@.take(8);
            if opens {
                assert(head =~= signature());
            } else {
                assert(head[0] == data@[0] && head[1] == data@[1] && head[2] == data@[2]
                    && head[3] == data@[3] && head[4] == data@[4] && head[5] == data@[5]
                    && head[6] == data@[6] && head[7] == data@[7]);
            }
        }
    }
    if !opens {
        return Err(Error::InvalidFormat("Not a valid PNG file".to_string()));
    }
    validate_png_decode(data)
}

/// Tells whether the chunk header at `pos` announces a type that cleaning
/// keeps.
fn keeps_kind(data: &[u8], pos: usize) -> (res: bool)
    requires
        pos + 8 <= data@.len(),
    ensures
        res == is_critical(kind_at(data@, pos as int)),
{
    has_kind(data, pos, 0x49, 0x48, 0x44, 0x52) || has_kind(data, pos, 0x50, 0x4C, 0x54, 0x45)
        || has_kind(data, pos, 0x49, 0x44, 0x41, 0x54) || has_kind(
        data,
        pos,
        0x49,
        0x45,
        0x4E,
        0x44,
    ) || has_kind(data, pos, 0x74, 0x52, 0x4E, 0x53) || has_kind(data, pos, 0x67, 0x41, 0x4D, 0x41)
        || has_kind(data, pos, 0x63, 0x48, 0x52, 0x4D) || has_kind(
        data,
        pos,
        0x73,
        0x52,
        0x47,
        0x42,
    ) || has_kind(data, pos, 0x69, 0x43, 0x43, 0x50) || has_kind(data, pos, 0x73, 0x42, 0x49, 0x54)
        || has_kind(data, pos, 0x70, 0x48, 0x59, 0x73)
}

/// Rebuilds a stream from the chunks that cleaning keeps, up to its `IEND`
/// chunk. The stream is taken as it is: its first eight bytes are not looked
/// at, and no checksum is checked.
pub fn strip_chunks(data: &[u8]) -> (res: Result<Vec<u8>, Error>)
    ensures
        bytes_outcome(res) == strip_outcome(data@),
{
    let mut out: Vec<u8> = Vec::new();
    out.push(137);
    out.push(80);
    out.push(78);
    out.push(71);
    out.push(13);
    out.push(10);
    out.push(26);
    out.push(10);
    let len: usize = data.len();
    let mut pos: usize = 8;
    let mut ended = false;
    let ghost mut done: Seq<Chunk> = Seq::empty();
    proof {
        assert(chunks_from(data@, 8) =~= done + chunks_from(data@, 8));
        lemma_clean_start();
        assert(out@ =~= signature() + Seq::<u8>::empty());
    }
    while !ended && pos < len
        invariant
            len == data@.len(),
            8 <= pos,
            !ended ==> chunks_from(data@, 8) == done + chunks_from(data@, pos as int),
            !ended ==> strict_from(data@, 8) == strict_from(data@, pos as int),
            ended ==> chunks_from(data@, 8) == done && strict_from(data@, 8),
            out@ == signature() + emit(done.filter(critical_pred())),
        decreases (if ended { 0int } else { 1int }), len - pos,
    {
        proof {
            lemma_walk_step(data@, pos as int, done);
        }
        if len - pos < 8 {
            return Err(Error::ParseError("Unexpected end of PNG data".to_string()));
        }
        if !is_utf8(&data[pos + 4..pos + 8]) {
            return Err(Error::ParseError("Invalid chunk type".to_string()));
        }
        let end: usize = match chunk_end(data, pos) {
            None => {
                return Err(Error::ParseError("Chunk extends beyond file".to_string()));
            },
            Some(end) => end,
        };
        let ghost chunk = chunk_at(data@, pos as int)->Some_0;
        let ghost before = out@;
        proof {
            lemma_clean_step(done, chunk);
        }
        if keeps_kind(data, pos) {
            out.extend_from_slice(&data[pos..end]);
            assert(out@ =~= before + chunk.bytes());
        } else {
            assert(out@ =~= before + Seq::<u8>::empty());
        }
        if has_kind(data, pos, 0x49, 0x45, 0x4E, 0x44) {
            ended = true;
        }
        proof {
            if ended {
                assert(done.push(chunk) + Seq::<Chunk>::empty() =~= done.push(chunk));
            }
            done = done.push(chunk);
        }
        pos = end;
    }
    proof {
        if !ended {
            lemma_walk_step(data@, pos as int, done);
        }
    }
    Ok(out)
}

/// Strips a PNG image of every chunk but those it needs to be shown as it
/// was: text and other ancillary chunks go, the rest stays byte for byte.
pub fn clean_chunks(data: &[u8]) -> (res: Result<Vec<u8>, Error>)
    ensures
        bytes_outcome(res) == clean_outcome(data@),
        res is Ok ==> has_signature(res->Ok_0@) && is_valid_png(res->Ok_0@),
        !has_signature(data@) ==> res is Err && res->Err_0.kind() == ErrorKind::InvalidFormat,
{
    match validate_png(data) {
        Err(e) => { return Err(e); },
        Ok(()) => {},
    }
    let out = match strip_chunks(data) {
        Err(e) => { return Err(e); },
        Ok(out) => out,
    };
    match validate_png(out.as_slice()) {
        Err(e) => Err(e),
        Ok(()) => Ok(out),
    }
}

/// Finds the first zero byte of `data`.
fn find_zero(data: &[u8]) -> (res: Option<usize>)
    ensures
        match res {
            Some(at) => at < data@.len() && crate::sequences::first_index(data@, zero_pred())
                == Some(at as int),
            None => crate::sequences::first_index(data@, zero_pred()) is None,
        },
{
    let len: usize = data.len();
    let mut at: usize = 0;
    while at < len
        invariant
            len == data@.len(),
            at <= len,
            forall|j: int| 0 <= j < at ==> !zero_pred()(#[trigger] data@[j]),
        decreases len - at,
    {
        if data[at] == 0 {
            proof {
                lemma_first_index_is(data@, zero_pred(), at as int);
            }
            return Some(at);
        }
        at += 1;
    }
    proof {
        lemma_first_index_none(data@, zero_pred());
    }
    None
}

/// Splits the data of a text chunk into keyword and text.
pub fn split_entry(data: &[u8]) -> (res: TextChunk)
    ensures
        res@ == entry_of(data@),
{
    let len: usize = data.len();
    match find_zero(data) {
        Some(split) => {
            let keyword = read_text(&data[0..split]);
            assert(data@.subrange(0, split as int) =~= data@.take(split as int));
            let text = if split + 1 < len {
                assert(data@.subrange(split + 1, len as int) =~= data@.skip(split + 1));
                read_text(&data[split + 1..len])
            } else {
                String::new()
            };
            TextChunk { keyword, text }
        },
        None => {
            assert(data@.subrange(0, len as int) =~= data@);
            TextChunk { keyword: String::new(), text: read_text(&data[0..len]) }
        },
    }
}

/// Collects keyword and text of every text chunk of a stream, as far as the
/// stream is a run of whole chunks. The stream is taken as it is: its first
/// eight bytes are not looked at, and no checksum is checked.
pub fn collect_text_chunks(data: &[u8]) -> (res: Vec<TextChunk>)
    ensures
        entries_of(res@) == text_entries(chunks_from(data@, 8)),
{
    let mut found: Vec<TextChunk> = Vec::new();
    let len: usize = data.len();
    let mut pos: usize = 8;
    let mut ended = false;
    let ghost mut done: Seq<Chunk> = Seq::empty();
    proof {
        assert(chunks_from(data@, 8) =~= done + chunks_from(data@, 8));
        assert(entries_of(found@) =~= text_entries(done));
    }
    while !ended && pos < len
        invariant
            len == data@.len(),
            8 <= pos,
            !ended ==> chunks_from(data@, 8) == done + chunks_from(data@, pos as int),
            ended ==> chunks_from(data@, 8) == done,
            entries_of(found@) == text_entries(done),
        decreases (if ended { 0int } else { 1int }), len - pos,
    {
        proof {
            lemma_walk_step(data@, pos as int, done);
        }
        if len - pos < 8 {
            ended = true;
        } else {
            match chunk_end(data, pos) {
                None => {
                    ended = true;
                },
                Some(end) => {
                    let ghost chunk = chunk_at(data@, pos as int)->Some_0;
                    let ghost before = found@;
                    proof {
                        lemma_read_step(done, chunk);
                    }
                    if has_kind(data, pos, 0x74, 0x45, 0x58, 0x74) && end - pos > 12 {
                        let entry = split_entry(&data[pos + 8..end - 4]);
                        found.push(entry);
                        assert(entries_of(found@) =~= entries_of(before).push(entry@));
                    }
                    if has_kind(data, pos, 0x49, 0x45, 0x4E, 0x44) {
                        ended = true;
                    }
                    proof {
                        if ended {
                            assert(done.push(chunk) + Seq::<Chunk>::empty() =~= done.push(chunk));
                        }
                        done = done.push(chunk);
                    }
                    pos = end;
                },
            }
        }
    }
    proof {
        if !ended {
            lemma_walk_step(data@, pos as int, done);
        }
    }
    found
}

/// Reads keyword and text of every text chunk of a PNG image. A stream that
/// breaks off part way through gives the chunks in front of the break.
pub fn read_text_chunks(data: &[u8]) -> (res: Result<Vec<TextChunk>, Error>)
    ensures
        entries_outcome(res) == read_outcome(data@),
        !has_signature(data@) ==> res is Err && res->Err_0.kind() == ErrorKind::InvalidFormat,
{
    match validate_png(data) {
        Err(e) => Err(e),
        Ok(()) => Ok(collect_text_chunks(data)),
    }
}

/// A character that may stand in a keyword is the character of a byte that
/// may, and the other way round.
proof fn lemma_keyword_char(c: char)
    requires
        '\0' <= c <= '\u{7f}',
    ensures
        is_keyword_char(c) == is_keyword_byte(c as u8),
{
}

/// Tells whether `keyword` may be the keyword of a text chunk.
pub fn check_keyword(keyword: &str) -> (ok: bool)
    ensures
        ok == valid_keyword(keyword@),
{
    let bytes = keyword.as_bytes();
    let len: usize = bytes.len();
    if !keyword.is_ascii() {
        proof {
            let c = choose|i: int| 0 <= i < keyword@.len() && !('\0' <= #[trigger] keyword@[i]
                <= '\u{7f}');
            assert(!is_keyword_char(keyword@[c]));
        }
        return false;
    }
    proof {
        is_ascii_chars_encode_utf8(keyword@);
    }
    if len == 0 || len > MAX_KEYWORD_LEN {
        return false;
    }
    let mut at: usize = 0;
    while at < len
        invariant
            len == bytes@.len(),
            len == keyword@.len(),
            at <= len,
            is_ascii_chars(keyword@),
            forall|i: int| 0 <= i < len ==> keyword@[i] as u8 == #[trigger] bytes@[i],
            forall|i: int| 0 <= i < at ==> is_keyword_char(#[trigger] keyword@[i]),
        decreases len - at,
    {
        let byte: u8 = bytes[at];
        proof {
            lemma_keyword_char(keyword@[at as int]);
        }
        let fits = (0x30 <= byte && byte <= 0x39) || (0x41 <= byte && byte <= 0x5A) || (0x61
            <= byte && byte <= 0x7A) || byte == 0x20;
        if !fits {
            return false;
        }
        at += 1;
    }
    true
}

/// Finds the header of the `IEND` chunk of a stream.
pub fn find_iend(data: &[u8]) -> (res: Option<usize>)
    ensures
        match res {
            Some(at) => iend_offset(data@, 8) == Some(at as int) && 8 <= at && at + 8
                <= data@.len(),
            None => iend_offset(data@, 8) is None,
        },
{
    let len: usize = data.len();
    let mut pos: usize = 8;
    while pos < len
        invariant
            len == data@.len(),
            8 <= pos,
            iend_offset(data@, 8) == iend_offset(data@, pos as int),
        decreases len - pos,
    {
        if len - pos < 8 {
            return None;
        }
        if has_kind(data, pos, 0x49, 0x45, 0x4E, 0x44) {
            return Some(pos);
        }
        match chunk_end(data, pos) {
            None => {
                return None;
            },
            Some(end) => {
                pos = end;
            },
        }
    }
    None
}

/// Puts a text chunk with `keyword` and `text` into a stream, in front of
/// its `IEND` chunk. The stream is taken as it is: its first eight bytes are
/// not looked at, and no checksum is checked.
pub fn splice_text_chunk(data: &[u8], keyword: &str, text: &str) -> (res: Result<Vec<u8>, Error>)
    ensures
        bytes_outcome(res) == splice_outcome(data@, keyword@, text@),
        valid_keyword(keyword@) && iend_offset(data@, 8) is None ==> res is Err
            && res->Err_0.kind() == ErrorKind::ParseError,
{
    if !check_keyword(keyword) {
        let given: usize = keyword.as_bytes().len();
        if given == 0 || given > MAX_KEYWORD_LEN {
            return Err(Error::InvalidFormat("Keyword must be 1-79 characters".to_string()));
        }
        return Err(Error::InvalidFormat("Keyword must contain only Latin characters".to_string()));
    }
    proof {
        is_ascii_chars_encode_utf8(keyword@);
    }
    let at: usize = match find_iend(data) {
        None => {
            return Err(Error::ParseError("IEND chunk not found".to_string()));
        },
        Some(at) => at,
    };
    let keyword_bytes = keyword.as_bytes();
    let text_bytes = text.as_bytes();
    if text_bytes.len() > 0xFFFF_FFFFusize - 1 - keyword_bytes.len() {
        return Err(Error::InvalidFormat("Text too long".to_string()));
    }
    let len: usize = data.len();
    let ghost chunk = text_chunk(keyword@, text@);

    let mut chunk_data: Vec<u8> = Vec::new();
    chunk_data.extend_from_slice(keyword_bytes);
    chunk_data.push(0);
    chunk_data.extend_from_slice(text_bytes);
    assert(chunk_data@ =~= text_data(keyword@, text@));

    let mut kind: Vec<u8> = Vec::new();
    kind.push(0x74);
    kind.push(0x45);
    kind.push(0x58);
    kind.push(0x74);
    assert(kind@ =~= kind_text());
    let crc: u32 = calculate_crc(kind.as_slice(), chunk_data.as_slice());

    let mut out: Vec<u8> = Vec::new();
    out.extend_from_slice(&data[0..at]);
    push_be32(&mut out, chunk_data.len() as u32);
    out.extend_from_slice(kind.as_slice());
    out.extend_from_slice(chunk_data.as_slice());
    push_be32(&mut out, crc);
    out.extend_from_slice(&data[at..len]);
    proof {
        assert(data@.subrange(0, at as int) =~= data@.take(at as int));
        assert(data@.subrange(at as int, len as int) =~= data@.skip(at as int));
        assert(out@ =~= spliced_stream(data@, at as int, chunk));
    }
    Ok(out)
}

/// Adds a text chunk with `keyword` and `text` to a PNG image, behind every
/// chunk it holds and in front of its `IEND` chunk.
pub fn add_text_chunk(data: &[u8], keyword: &str, text: &str) -> (res: Result<Vec<u8>, Error>)
    ensures
        bytes_outcome(res) == add_outcome(data@, keyword@, text@),
        res is Ok ==> has_signature(res->Ok_0@) && is_valid_png(res->Ok_0@),
        !has_signature(data@) ==> res is Err && res->Err_0.kind() == ErrorKind::InvalidFormat,
        !valid_keyword(keyword@) ==> res is Err && res->Err_0.kind() == ErrorKind::InvalidFormat,
        is_valid_png(data@) && valid_keyword(keyword@) && iend_offset(data@, 8) is None
            ==> res is Err && res->Err_0.kind() == ErrorKind::ParseError,
{
    match validate_png(data) {
        Err(e) => { return Err(e); },
        Ok(()) => {},
    }
    let out = match splice_text_chunk(data, keyword, text) {
        Err(e) => { return Err(e); },
        Ok(out) => out,
    };
    match validate_png(out.as_slice()) {
        Err(e) => Err(e),
        Ok(()) => Ok(out),
    }
}

} // verus!
