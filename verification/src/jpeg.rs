//! Rewriting the marker segments of a JPEG stream.

pub mod laws;
pub mod rules;
pub mod segment;

use vstd::prelude::*;
use crate::bytes::push_be16;
use crate::decoders::validate_jpeg_decode;
use crate::error::{bytes_outcome, text_outcome, Error, ErrorKind};
use crate::exif::{create_minimal_exif, extract_orientation_from_exif};
use crate::jpeg::rules::{
    anchor_pred, anchored, anchored_so_far, app0_pred, clean_outcome, comment_pred, comment_segment,
    exif_pred, insert_outcome, is_exif, is_icc, is_kept, is_valid_jpeg, kept_pred,
    lemma_clean_start, lemma_clean_step, lemma_comment_ends, lemma_comment_step,
    lemma_placed_stream, orientation_segment, other_pred, placement_offset, read_outcome,
    recorded_orientation, signature, stored_comment, strip_outcome, write_outcome, MAX_COMMENT_LEN,
};
use crate::jpeg::segment::{
    emit, has_signature, intact_from, lemma_walk_end, lemma_walk_step, next_segment, segments_from,
    Segment, Span, MARKER_APP0, MARKER_APP1, MARKER_APP2, MARKER_COM, MARKER_DQT, MARKER_SOS,
};
use crate::sequences::{first_index, lemma_first_index_is, lemma_first_index_none, none_satisfy};
use crate::text::read_text;

verus! {

/// Checks that `data` opens as a JPEG image does and that the decoder reads
/// a frame with at least one pixel from it.
pub fn validate_jpeg(data: &[u8]) -> (res: Result<(), Error>)
    ensures
        res is Ok <==> is_valid_jpeg(data@),
        res is Err ==> res->Err_0.kind() == ErrorKind::InvalidFormat,
{
    if data.len() < 4 || data[0] != 0xFF || data[1] != 0xD8 {
        return Err(Error::InvalidFormat("Not a valid JPEG file".to_string()));
    }
    validate_jpeg_decode(data)
}

/// Tells whether the segment at `span` announces Exif data.
fn holds_exif(data: &[u8], span: Span) -> (res: bool)
    requires
        span.start <= span.end <= data@.len(),
    ensures
        res == is_exif(span.segment(data@)),
{
    let at: usize = span.start;
    if span.marker != MARKER_APP1 || span.end - at <= 8 {
        return false;
    }
    let found = data[at + 2] == 0x45 && data[at + 3] == 0x78 && data[at + 4] == 0x69 && data[at
        + 5] == 0x66;
    proof {
        let tag = span.segment(data@).body.subrange(2, 6);
        if found {
            assert(tag =~= crate::jpeg::rules::exif_tag());
        } else {
            assert(tag[0] == data@[at + 2] && tag[1] == data@[at + 3] && tag[2] == data@[at + 4]
                && tag[3] == data@[at + 5]);
        }
    }
    found
}

/// Tells whether the segment at `span` holds part of an ICC profile.
fn holds_icc(data: &[u8], span: Span) -> (res: bool)
    requires
        span.start <= span.end <= data@.len(),
    ensures
        res == is_icc(span.segment(data@)),
{
    let at: usize = span.start;
    if span.marker != MARKER_APP2 || span.end - at <= 14 {
        return false;
    }
    let found = data[at + 2] == 0x49 && data[at + 3] == 0x43 && data[at + 4] == 0x43 && data[at
        + 5] == 0x5F && data[at + 6] == 0x50 && data[at + 7] == 0x52 && data[at + 8] == 0x4F
        && data[at + 9] == 0x46 && data[at + 10] == 0x49 && data[at + 11] == 0x4C && data[at
        + 12] == 0x45 && data[at + 13] == 0x00;
    proof {
        let tag = span.segment(data@).body.subrange(2, 14);
        if found {
            assert(tag =~= crate::jpeg::rules::icc_tag());
        } else {
            assert(forall|k: int| 0 <= k < 12 ==> tag[k] == data@[at + 2 + k]);
            assert(tag[0] == data@[at + 2]);
            assert(tag[11] == data@[at + 13]);
        }
    }
    found
}

/// Rebuilds a stream from the segments that cleaning keeps, with a new Exif
/// segment where the stream recorded an orientation. The stream is taken as
/// it is: neither its first two bytes nor its image data are looked at. One
/// stray byte behind the last segment belongs to no segment and is not
/// carried over.
pub fn strip_segments(data: &[u8]) -> (res: Result<Vec<u8>, Error>)
    ensures
        bytes_outcome(res) == strip_outcome(data@),
{
    let mut out: Vec<u8> = Vec::new();
    out.push(0xFF);
    out.push(0xD8);
    let len: usize = data.len();
    let mut pos: usize = 2;
    let mut has_exif = false;
    let mut orientation: Option<u16> = None;
    let mut insert_at: usize = 2;
    let mut app0_seen = false;
    let ghost mut done: Seq<Segment> = Seq::empty();
    proof {
        assert(segments_from(data@, 2) =~= done + segments_from(data@, 2));
        lemma_clean_start();
        assert(out@ =~= signature() + Seq::<u8>::empty());
    }
    while len >= 2 && pos <= len - 2
        invariant
            len == data@.len(),
            2 <= pos,
            len >= 2 ==> pos <= len,
            segments_from(data@, 2) == done + segments_from(data@, pos as int),
            intact_from(data@, 2) == intact_from(data@, pos as int),
            out@ == signature() + emit(done.filter(kept_pred())),
            has_exif == (first_index(done, exif_pred()) is Some),
            orientation == recorded_orientation(done),
            app0_seen == (first_index(done.filter(kept_pred()), app0_pred()) is Some),
            insert_at == placement_offset(done.filter(kept_pred())),
        decreases len - pos,
    {
        proof {
            lemma_walk_step(data@, pos as int, done);
        }
        match next_segment(data, pos) {
            Err(e) => {
                return Err(e);
            },
            Ok(span) => {
                let ghost segment = span.segment(data@);
                let ghost before = out@;
                let marker: u8 = span.marker;
                proof {
                    lemma_clean_step(done, segment);
                }
                if holds_exif(data, span) && !has_exif {
                    has_exif = true;
                    orientation = extract_orientation_from_exif(&data[span.start + 8..span.end]);
                    assert(segment.body.skip(8) =~= data@.subrange(
                        span.start + 8,
                        span.end as int,
                    ));
                }
                let keep = marker == MARKER_SOS || (0xD0 <= marker && marker <= 0xD9) || (0xC0
                    <= marker && marker <= 0xCF) || marker == MARKER_DQT || marker == 0xDD
                    || marker == MARKER_APP0 || holds_icc(data, span);
                assert(keep == is_kept(segment));
                if keep {
                    out.push(0xFF);
                    out.push(marker);
                    out.extend_from_slice(&data[span.start..span.end]);
                    assert(out@ =~= before + segment.bytes());
                    if marker == MARKER_APP0 && !app0_seen {
                        app0_seen = true;
                        insert_at = out.len();
                    }
                } else {
                    assert(out@ =~= before + Seq::<u8>::empty());
                }
                proof {
                    done = done.push(segment);
                    assert(out@ =~= signature() + emit(done.filter(kept_pred())));
                }
                pos = span.end;
            },
        }
    }
    proof {
        lemma_walk_end(data@, pos as int, done);
    }
    let ghost kept = done.filter(kept_pred());
    match orientation {
        Some(value) => {
            if 1 <= value && value <= 8 {
                let exif = match create_minimal_exif(value) {
                    Ok(exif) => exif,
                    Err(e) => { return Err(e); },
                };
                proof {
                    lemma_placed_stream(kept, orientation_segment(value));
                    assert(exif@ =~= orientation_segment(value).bytes());
                }
                let mut spliced: Vec<u8> = Vec::new();
                spliced.extend_from_slice(&out[0..insert_at]);
                spliced.extend_from_slice(exif.as_slice());
                spliced.extend_from_slice(&out[insert_at..out.len()]);
                proof {
                    assert(spliced@ =~= out@.take(insert_at as int) + exif@ + out@.skip(
                        insert_at as int,
                    ));
                }
                Ok(spliced)
            } else {
                Ok(out)
            }
        },
        None => Ok(out),
    }
}

/// Strips a JPEG image of its metadata. The segments that an image needs to
/// be shown stay as they are, with its JFIF header and ICC profiles; of its
/// Exif data only the orientation is kept, in a segment written anew.
pub fn clean_metadata(data: &[u8]) -> (res: Result<Vec<u8>, Error>)
    ensures
        bytes_outcome(res) == clean_outcome(data@),
        res is Ok ==> has_signature(res->Ok_0@) && is_valid_jpeg(res->Ok_0@),
        !has_signature(data@) ==> res is Err && res->Err_0.kind() == ErrorKind::InvalidFormat,
{
    match validate_jpeg(data) {
        Err(e) => { return Err(e); },
        Ok(()) => {},
    }
    let out = match strip_segments(data) {
        Err(e) => { return Err(e); },
        Ok(out) => out,
    };
    match validate_jpeg(out.as_slice()) {
        Err(e) => Err(e),
        Ok(()) => Ok(out),
    }
}

/// Finds the payload of the first comment segment of a stream, as a range of
/// offsets into `data`.
pub fn find_comment(data: &[u8]) -> (res: Result<Option<(usize, usize)>, Error>)
    ensures
        match res {
            Ok(Some(range)) => {
                &&& range.0 <= range.1 <= data@.len()
                &&& stored_comment(data@) == Ok::<Option<Seq<u8>>, ErrorKind>(
                    Some(data@.subrange(range.0 as int, range.1 as int)),
                )
            },
            Ok(None) => stored_comment(data@) == Ok::<Option<Seq<u8>>, ErrorKind>(None),
            Err(e) => stored_comment(data@) == Err::<Option<Seq<u8>>, ErrorKind>(e.kind()),
        },
{
    let len: usize = data.len();
    let mut pos: usize = 2;
    let ghost mut done: Seq<Segment> = Seq::empty();
    assert(segments_from(data@, 2) =~= done + segments_from(data@, 2));
    while len >= 2 && pos <= len - 2
        invariant
            len == data@.len(),
            2 <= pos,
            len >= 2 ==> pos <= len,
            segments_from(data@, 2) == done + segments_from(data@, pos as int),
            intact_from(data@, 2) == intact_from(data@, pos as int),
            none_satisfy(done, comment_pred()),
        decreases len - pos,
    {
        proof {
            lemma_walk_step(data@, pos as int, done);
        }
        match next_segment(data, pos) {
            Err(e) => {
                proof {
                    lemma_first_index_none(done, comment_pred());
                }
                return Err(e);
            },
            Ok(span) => {
                let ghost segment = span.segment(data@);
                if span.marker == MARKER_COM {
                    proof {
                        let all = segments_from(data@, 2);
                        assert(all[done.len() as int] == segment);
                        assert forall|j: int| 0 <= j < done.len() implies !comment_pred()(
                            #[trigger] all[j],
                        ) by {
                            assert(all[j] == done[j]);
                        }
                        lemma_first_index_is(all, comment_pred(), done.len() as int);
                        assert(segment.payload() =~= data@.subrange(
                            span.start + 2,
                            span.end as int,
                        ));
                    }
                    return Ok(Some((span.start + 2, span.end)));
                }
                proof {
                    done = done.push(segment);
                }
                pos = span.end;
            },
        }
    }
    proof {
        lemma_walk_end(data@, pos as int, done);
        lemma_first_index_none(done, comment_pred());
    }
    Ok(None)
}

/// Reads the comment of a JPEG image: the text of its first comment segment,
/// decoded leniently.
pub fn read_comment(data: &[u8]) -> (res: Result<Option<String>, Error>)
    ensures
        text_outcome(res) == read_outcome(data@),
        !has_signature(data@) ==> res is Err && res->Err_0.kind() == ErrorKind::InvalidFormat,
{
    match validate_jpeg(data) {
        Err(e) => { return Err(e); },
        Ok(()) => {},
    }
    match find_comment(data) {
        Err(e) => Err(e),
        Ok(None) => Ok(None),
        Ok(Some(range)) => {
            if range.1 > range.0 {
                Ok(Some(read_text(&data[range.0..range.1])))
            } else {
                Ok(Some(String::new()))
            }
        },
    }
}

/// Puts a comment with the given payload into a stream, in place of every
/// comment the stream holds. The stream is taken as it is: neither its first
/// two bytes nor its image data are looked at. One stray byte behind the last
/// segment belongs to no segment and is not carried over.
pub fn insert_comment(data: &[u8], payload: &[u8]) -> (res: Result<Vec<u8>, Error>)
    ensures
        bytes_outcome(res) == insert_outcome(data@, payload@),
{
    if payload.len() > MAX_COMMENT_LEN {
        return Err(Error::InvalidFormat("Comment too long".to_string()));
    }
    let ghost comment = comment_segment(payload@);
    let mut comment_bytes: Vec<u8> = Vec::new();
    comment_bytes.push(0xFF);
    comment_bytes.push(MARKER_COM);
    push_be16(&mut comment_bytes, (payload.len() + 2) as u16);
    comment_bytes.extend_from_slice(payload);
    assert(comment_bytes@ =~= comment.bytes());

    let mut out: Vec<u8> = Vec::new();
    out.push(0xFF);
    out.push(0xD8);
    let len: usize = data.len();
    let mut pos: usize = 2;
    let mut inserted = false;
    let ghost mut done: Seq<Segment> = Seq::empty();
    proof {
        assert(segments_from(data@, 2) =~= done + segments_from(data@, 2));
        lemma_comment_ends(done, comment);
        assert(out@ =~= signature() + Seq::<u8>::empty());
    }
    while len >= 2 && pos <= len - 2
        invariant
            len == data@.len(),
            2 <= pos,
            len >= 2 ==> pos <= len,
            payload@.len() <= MAX_COMMENT_LEN,
            comment_bytes@ == comment.bytes(),
            segments_from(data@, 2) == done + segments_from(data@, pos as int),
            intact_from(data@, 2) == intact_from(data@, pos as int),
            inserted == (first_index(done.filter(other_pred()), anchor_pred()) is Some),
            out@ == signature() + emit(anchored_so_far(done.filter(other_pred()), comment)),
        decreases len - pos,
    {
        proof {
            lemma_walk_step(data@, pos as int, done);
        }
        match next_segment(data, pos) {
            Err(e) => {
                return Err(e);
            },
            Ok(span) => {
                let ghost segment = span.segment(data@);
                let ghost before = out@;
                proof {
                    lemma_comment_step(done, comment, segment);
                }
                if !inserted && (span.marker == MARKER_SOS || span.marker == MARKER_DQT) {
                    out.extend_from_slice(comment_bytes.as_slice());
                    inserted = true;
                }
                let ghost middle = out@;
                if span.marker != MARKER_COM {
                    out.push(0xFF);
                    out.push(span.marker);
                    out.extend_from_slice(&data[span.start..span.end]);
                    assert(out@ =~= middle + segment.bytes());
                } else {
                    assert(out@ =~= middle + Seq::<u8>::empty());
                }
                proof {
                    done = done.push(segment);
                    assert(out@ =~= signature() + emit(
                        anchored_so_far(done.filter(other_pred()), comment),
                    ));
                }
                pos = span.end;
            },
        }
    }
    let ghost others = done.filter(other_pred());
    if !inserted {
        out.extend_from_slice(comment_bytes.as_slice());
    }
    proof {
        lemma_walk_end(data@, pos as int, done);
        lemma_comment_ends(others, comment);
        assert(out@ =~= signature() + emit(anchored(others, comment)));
    }
    Ok(out)
}

/// Writes `comment` into a JPEG image as its only comment segment, in front
/// of the first quantization table or scan.
pub fn write_comment(data: &[u8], comment: &str) -> (res: Result<Vec<u8>, Error>)
    ensures
        bytes_outcome(res) == write_outcome(data@, comment@),
        res is Ok ==> has_signature(res->Ok_0@) && is_valid_jpeg(res->Ok_0@),
        !has_signature(data@) ==> res is Err && res->Err_0.kind() == ErrorKind::InvalidFormat,
{
    match validate_jpeg(data) {
        Err(e) => { return Err(e); },
        Ok(()) => {},
    }
    let out = match insert_comment(data, comment.as_bytes()) {
        Err(e) => { return Err(e); },
        Ok(out) => out,
    };
    match validate_jpeg(out.as_slice()) {
        Err(e) => Err(e),
        Ok(()) => Ok(out),
    }
}

} // verus!
