//! What each JPEG operation makes of a run of segments.

use vstd::prelude::*;
use vstd::utf8::encode_utf8;
use crate::bytes::be16_bytes;
use crate::decoders::jpeg_decodes;
use crate::error::ErrorKind;
use crate::exif::{is_valid_orientation, minimal_exif, orientation_of, TIFF_START};
use crate::jpeg::segment::{
    emit, has_signature, intact_from, is_standalone, lemma_emit_concat, lemma_emit_one,
    lemma_emit_push, segments_from, Segment, MARKER_APP0, MARKER_APP1, MARKER_APP2, MARKER_COM,
    MARKER_DQT, MARKER_SOS,
};
use crate::sequences::{first_index, lemma_first_index, lemma_first_index_push};
use crate::text::lenient_text;

verus! {

/// The longest comment, in bytes, that fits a segment.
pub const MAX_COMMENT_LEN: usize = 65533;

/// The two bytes that open every stream.
pub open spec fn signature() -> Seq<u8> {
    seq![0xFFu8, 0xD8u8]
}

/// Whether a stream opens as a JPEG image does and the decoder reads a frame
/// with at least one pixel from it.
pub open spec fn is_valid_jpeg(data: Seq<u8>) -> bool {
    has_signature(data) && jpeg_decodes(data)
}

/// `Exif`, the first four bytes of the payload of an Exif segment.
pub open spec fn exif_tag() -> Seq<u8> {
    seq![0x45u8, 0x78, 0x69, 0x66]
}

/// `ICC_PROFILE` and a zero byte, which open the payload of an ICC segment.
pub open spec fn icc_tag() -> Seq<u8> {
    seq![0x49u8, 0x43, 0x43, 0x5F, 0x50, 0x52, 0x4F, 0x46, 0x49, 0x4C, 0x45, 0x00]
}

/// Whether a segment is an APP1 segment that announces Exif data and is long
/// enough to hold any.
pub open spec fn is_exif(segment: Segment) -> bool {
    &&& segment.marker == MARKER_APP1
    &&& segment.body.len() > 8
    &&& segment.body.subrange(2, 6) == exif_tag()
}

/// Whether a segment is an APP2 segment that holds part of an ICC profile.
pub open spec fn is_icc(segment: Segment) -> bool {
    &&& segment.marker == MARKER_APP2
    &&& segment.body.len() > 14
    &&& segment.body.subrange(2, 14) == icc_tag()
}

/// Whether cleaning keeps a segment: the scan, standalone markers, frame
/// headers, Huffman and quantization tables, the restart interval, the JFIF
/// header and ICC profiles stay; everything else goes.
pub open spec fn is_kept(segment: Segment) -> bool {
    let marker = segment.marker;
    ||| marker == MARKER_SOS
    ||| is_standalone(marker)
    ||| 0xC0 <= marker <= 0xCF
    ||| marker == MARKER_DQT
    ||| marker == 0xDD
    ||| marker == MARKER_APP0
    ||| is_icc(segment)
}

/// `is_exif` as a predicate.
pub open spec fn exif_pred() -> spec_fn(Segment) -> bool {
    |segment: Segment| is_exif(segment)
}

/// `is_kept` as a predicate.
pub open spec fn kept_pred() -> spec_fn(Segment) -> bool {
    |segment: Segment| is_kept(segment)
}

/// The predicate that holds of JFIF header segments.
pub open spec fn app0_pred() -> spec_fn(Segment) -> bool {
    |segment: Segment| segment.marker == MARKER_APP0
}

/// The predicate that holds of comment segments.
pub open spec fn comment_pred() -> spec_fn(Segment) -> bool {
    |segment: Segment| segment.marker == MARKER_COM
}

/// The predicate that holds of every segment but comments.
pub open spec fn other_pred() -> spec_fn(Segment) -> bool {
    |segment: Segment| segment.marker != MARKER_COM
}

/// The predicate that holds of the segments a comment is put in front of:
/// quantization tables and the scan.
pub open spec fn anchor_pred() -> spec_fn(Segment) -> bool {
    |segment: Segment| segment.marker == MARKER_DQT || segment.marker == MARKER_SOS
}

/// The orientation that the first Exif segment of a run records.
pub open spec fn recorded_orientation(segments: Seq<Segment>) -> Option<u16> {
    match first_index(segments, exif_pred()) {
        Some(i) => orientation_of(segments[i].body.skip(TIFF_START as int)),
        None => None,
    }
}

/// The segment that `minimal_exif` describes.
pub open spec fn orientation_segment(orientation: u16) -> Segment {
    Segment { marker: MARKER_APP1, body: minimal_exif(orientation).skip(2) }
}

/// `kept` with `extra` behind its first JFIF header, or in front of
/// everything where it has none.
pub open spec fn placed(kept: Seq<Segment>, extra: Segment) -> Seq<Segment> {
    match first_index(kept, app0_pred()) {
        Some(i) => kept.take(i + 1) + seq![extra] + kept.skip(i + 1),
        None => seq![extra] + kept,
    }
}

/// Where in the stream built from `kept` a segment that `placed` adds starts.
pub open spec fn placement_offset(kept: Seq<Segment>) -> int {
    match first_index(kept, app0_pred()) {
        Some(i) => 2 + emit(kept.take(i + 1)).len() as int,
        None => 2,
    }
}

/// How `placement_offset` changes when one more segment is kept.
pub proof fn lemma_placement_push(kept: Seq<Segment>, next: Segment)
    ensures
        placement_offset(kept.push(next)) == (match first_index(kept, app0_pred()) {
            Some(_) => placement_offset(kept),
            None => if next.marker == MARKER_APP0 {
                2 + emit(kept.push(next)).len() as int
            } else {
                2
            },
        }),
{
    lemma_first_index_push(kept, app0_pred(), next);
    lemma_first_index(kept, app0_pred());
    let grown = kept.push(next);
    match first_index(kept, app0_pred()) {
        Some(i) => {
            assert(grown.take(i + 1) =~= kept.take(i + 1));
        },
        None => {
            if next.marker == MARKER_APP0 {
                assert(grown.take(kept.len() as int + 1) =~= grown);
            }
        },
    }
}

/// The stream built from `placed(kept, extra)` is the stream built from
/// `kept` with the bytes of `extra` let in at `placement_offset(kept)`.
pub proof fn lemma_placed_stream(kept: Seq<Segment>, extra: Segment)
    ensures
        2 <= placement_offset(kept) <= 2 + emit(kept).len(),
        signature() + emit(placed(kept, extra)) == (signature() + emit(kept)).take(
            placement_offset(kept),
        ) + extra.bytes() + (signature() + emit(kept)).skip(placement_offset(kept)),
{
    lemma_first_index(kept, app0_pred());
    let stream = signature() + emit(kept);
    let at = placement_offset(kept);
    lemma_emit_one(extra);
    match first_index(kept, app0_pred()) {
        Some(i) => {
            let front = kept.take(i + 1);
            let back = kept.skip(i + 1);
            assert(kept =~= front + back);
            lemma_emit_concat(front, back);
            lemma_emit_concat(front, seq![extra]);
            lemma_emit_concat(front + seq![extra], back);
            assert(stream.take(at) =~= signature() + emit(front));
            assert(stream.skip(at) =~= emit(back));
            assert(signature() + emit(placed(kept, extra)) =~= stream.take(at) + extra.bytes()
                + stream.skip(at));
        },
        None => {
            lemma_emit_concat(seq![extra], kept);
            assert(stream.take(at) =~= signature());
            assert(stream.skip(at) =~= emit(kept));
            assert(signature() + emit(placed(kept, extra)) =~= stream.take(at) + extra.bytes()
                + stream.skip(at));
        },
    }
}

/// What one more segment adds to the state that cleaning keeps while it
/// walks a stream: the bytes built so far, the orientation found so far and
/// the place where a new Exif segment would go.
pub proof fn lemma_clean_step(done: Seq<Segment>, next: Segment)
    ensures
        ({
            let kept = done.filter(kept_pred());
            let grown = done.push(next).filter(kept_pred());
            let seen = first_index(done, exif_pred()) is Some;
            let headed = first_index(kept, app0_pred()) is Some;
            &&& emit(grown) == emit(kept) + (if is_kept(next) {
                next.bytes()
            } else {
                Seq::empty()
            })
            &&& (first_index(done.push(next), exif_pred()) is Some) == (seen || is_exif(next))
            &&& recorded_orientation(done.push(next)) == (if seen {
                recorded_orientation(done)
            } else if is_exif(next) {
                orientation_of(next.body.skip(TIFF_START as int))
            } else {
                None
            })
            &&& (first_index(grown, app0_pred()) is Some) == (headed || next.marker == MARKER_APP0)
            &&& placement_offset(grown) == (if headed {
                placement_offset(kept)
            } else if next.marker == MARKER_APP0 {
                2 + emit(grown).len() as int
            } else {
                2
            })
        }),
{
    let kept = done.filter(kept_pred());
    done.lemma_filter_push(next, kept_pred());
    lemma_first_index_push(done, exif_pred(), next);
    lemma_first_index(done, exif_pred());
    if is_kept(next) {
        lemma_first_index_push(kept, app0_pred(), next);
        lemma_placement_push(kept, next);
        lemma_emit_push(kept, next);
    } else {
        assert(emit(kept) + Seq::<u8>::empty() =~= emit(kept));
    }
}

/// What cleaning has built before it has seen any segment.
pub proof fn lemma_clean_start()
    ensures
        Seq::<Segment>::empty().filter(kept_pred()) == Seq::<Segment>::empty(),
        emit(Seq::<Segment>::empty()) == Seq::<u8>::empty(),
        placement_offset(Seq::<Segment>::empty()) == 2,
        first_index(Seq::<Segment>::empty(), exif_pred()) is None,
        first_index(Seq::<Segment>::empty(), app0_pred()) is None,
        recorded_orientation(Seq::<Segment>::empty()) is None,
{
    Seq::<Segment>::empty().lemma_filter_len(kept_pred());
    assert(Seq::<Segment>::empty().filter(kept_pred()) =~= Seq::<Segment>::empty());
}

/// What cleaning leaves of a run of segments: the segments that are kept, in
/// their order, and one new Exif segment where the run recorded one of the
/// eight orientations.
pub open spec fn cleaned(segments: Seq<Segment>) -> Seq<Segment> {
    let kept = segments.filter(kept_pred());
    match recorded_orientation(segments) {
        Some(orientation) => if is_valid_orientation(orientation) {
            placed(kept, orientation_segment(orientation))
        } else {
            kept
        },
        None => kept,
    }
}

/// The stream that cleaning builds from `data`.
pub open spec fn cleaned_stream(data: Seq<u8>) -> Seq<u8> {
    signature() + emit(cleaned(segments_from(data, 2)))
}

/// The outcome of cleaning the segments of any stream.
pub open spec fn strip_outcome(data: Seq<u8>) -> Result<Seq<u8>, ErrorKind> {
    if intact_from(data, 2) {
        Ok(cleaned_stream(data))
    } else {
        Err(ErrorKind::ParseError)
    }
}

/// The outcome of `clean_metadata`.
pub open spec fn clean_outcome(data: Seq<u8>) -> Result<Seq<u8>, ErrorKind> {
    if !is_valid_jpeg(data) {
        Err(ErrorKind::InvalidFormat)
    } else if !intact_from(data, 2) {
        Err(ErrorKind::ParseError)
    } else if !is_valid_jpeg(cleaned_stream(data)) {
        Err(ErrorKind::InvalidFormat)
    } else {
        Ok(cleaned_stream(data))
    }
}

/// The payload of the first comment segment of a stream: `Ok(None)` where
/// the stream has none, an error where the stream loses its structure before
/// one is found.
pub open spec fn stored_comment(data: Seq<u8>) -> Result<Option<Seq<u8>>, ErrorKind> {
    let segments = segments_from(data, 2);
    match first_index(segments, comment_pred()) {
        Some(i) => Ok(Some(segments[i].payload())),
        None => if intact_from(data, 2) {
            Ok(None)
        } else {
            Err(ErrorKind::ParseError)
        },
    }
}

/// The text of a comment with the given payload.
pub open spec fn comment_text(payload: Seq<u8>) -> Seq<char> {
    if payload.len() > 0 {
        lenient_text(payload)
    } else {
        Seq::empty()
    }
}

/// The outcome of `read_comment`.
pub open spec fn read_outcome(data: Seq<u8>) -> Result<Option<Seq<char>>, ErrorKind> {
    if !is_valid_jpeg(data) {
        Err(ErrorKind::InvalidFormat)
    } else {
        match stored_comment(data) {
            Ok(Some(payload)) => Ok(Some(comment_text(payload))),
            Ok(None) => Ok(None),
            Err(kind) => Err(kind),
        }
    }
}

/// The comment segment with the given payload.
pub open spec fn comment_segment(payload: Seq<u8>) -> Segment {
    Segment { marker: MARKER_COM, body: be16_bytes(payload.len() as int + 2) + payload }
}

/// `others` with `comment` in front of its first anchor, or at its end where
/// it has none.
pub open spec fn anchored(others: Seq<Segment>, comment: Segment) -> Seq<Segment> {
    match first_index(others, anchor_pred()) {
        Some(i) => others.take(i) + seq![comment] + others.skip(i),
        None => others.push(comment),
    }
}

/// `others` with `comment` in front of its first anchor, and unchanged where
/// it has none: what `anchored` has built before the last segment is known.
pub open spec fn anchored_so_far(others: Seq<Segment>, comment: Segment) -> Seq<Segment> {
    match first_index(others, anchor_pred()) {
        Some(i) => others.take(i) + seq![comment] + others.skip(i),
        None => others,
    }
}

/// How `anchored_so_far` grows when one more segment is known.
pub proof fn lemma_anchored_push(others: Seq<Segment>, comment: Segment, next: Segment)
    ensures
        anchored_so_far(others.push(next), comment) == (match first_index(others, anchor_pred()) {
            Some(_) => anchored_so_far(others, comment).push(next),
            None => if anchor_pred()(next) {
                others.push(comment).push(next)
            } else {
                others.push(next)
            },
        }),
{
    lemma_first_index_push(others, anchor_pred(), next);
    lemma_first_index(others, anchor_pred());
    let grown = others.push(next);
    match first_index(others, anchor_pred()) {
        Some(i) => {
            assert(grown.take(i) =~= others.take(i));
            assert(grown.skip(i) =~= others.skip(i).push(next));
            assert(grown.take(i) + seq![comment] + grown.skip(i) =~= (others.take(i)
                + seq![comment] + others.skip(i)).push(next));
        },
        None => {
            if anchor_pred()(next) {
                let i = others.len() as int;
                assert(grown.take(i) =~= others);
                assert(grown.skip(i) =~= seq![next]);
                assert(grown.take(i) + seq![comment] + grown.skip(i) =~= others.push(
                    comment,
                ).push(next));
            }
        },
    }
}

/// What one more segment adds to the bytes that writing a comment has built
/// while it walks a stream.
pub proof fn lemma_comment_step(done: Seq<Segment>, comment: Segment, next: Segment)
    ensures
        ({
            let others = done.filter(other_pred());
            let grown = done.push(next).filter(other_pred());
            let inserted = first_index(others, anchor_pred()) is Some;
            let anchor = next.marker == MARKER_DQT || next.marker == MARKER_SOS;
            &&& (first_index(grown, anchor_pred()) is Some) == (inserted || anchor)
            &&& emit(anchored_so_far(grown, comment)) == emit(anchored_so_far(others, comment))
                + (if !inserted && anchor {
                comment.bytes()
            } else {
                Seq::empty()
            }) + (if next.marker != MARKER_COM {
                next.bytes()
            } else {
                Seq::empty()
            })
        }),
{
    let others = done.filter(other_pred());
    let so_far = emit(anchored_so_far(others, comment));
    done.lemma_filter_push(next, other_pred());
    if next.marker != MARKER_COM {
        lemma_anchored_push(others, comment, next);
        lemma_first_index_push(others, anchor_pred(), next);
        lemma_emit_push(anchored_so_far(others, comment), next);
        lemma_emit_push(others, comment);
        lemma_emit_push(others.push(comment), next);
        lemma_emit_push(others, next);
        if first_index(others, anchor_pred()) is Some || !anchor_pred()(next) {
            assert(so_far + Seq::<u8>::empty() + next.bytes() =~= so_far + next.bytes());
        }
    } else {
        assert(so_far + Seq::<u8>::empty() + Seq::<u8>::empty() =~= so_far);
    }
}

/// What writing a comment has built before it has seen any segment, and what
/// it builds once it has seen the last.
pub proof fn lemma_comment_ends(others: Seq<Segment>, comment: Segment)
    ensures
        Seq::<Segment>::empty().filter(other_pred()) == Seq::<Segment>::empty(),
        first_index(Seq::<Segment>::empty(), anchor_pred()) is None,
        emit(anchored_so_far(Seq::<Segment>::empty(), comment)) == Seq::<u8>::empty(),
        emit(anchored(others, comment)) == emit(anchored_so_far(others, comment)) + (
        if first_index(others, anchor_pred()) is Some {
            Seq::empty()
        } else {
            comment.bytes()
        }),
{
    Seq::<Segment>::empty().lemma_filter_len(other_pred());
    assert(Seq::<Segment>::empty().filter(other_pred()) =~= Seq::<Segment>::empty());
    lemma_emit_push(others, comment);
    let so_far = emit(anchored_so_far(others, comment));
    assert(so_far + Seq::<u8>::empty() =~= so_far);
}

/// What writing a comment makes of a run of segments: every old comment goes,
/// and the new one stands in front of the first quantization table or scan.
pub open spec fn with_comment(segments: Seq<Segment>, comment: Segment) -> Seq<Segment> {
    anchored(segments.filter(other_pred()), comment)
}

/// The stream that writing a comment with the given payload builds from
/// `data`.
pub open spec fn commented_stream(data: Seq<u8>, payload: Seq<u8>) -> Seq<u8> {
    signature() + emit(with_comment(segments_from(data, 2), comment_segment(payload)))
}

/// The outcome of putting a comment with the given payload into any stream.
pub open spec fn insert_outcome(data: Seq<u8>, payload: Seq<u8>) -> Result<Seq<u8>, ErrorKind> {
    if payload.len() > MAX_COMMENT_LEN {
        Err(ErrorKind::InvalidFormat)
    } else if !intact_from(data, 2) {
        Err(ErrorKind::ParseError)
    } else {
        Ok(commented_stream(data, payload))
    }
}

/// The outcome of `write_comment`.
pub open spec fn write_outcome(data: Seq<u8>, text: Seq<char>) -> Result<Seq<u8>, ErrorKind> {
    let payload = encode_utf8(text);
    if !is_valid_jpeg(data) {
        Err(ErrorKind::InvalidFormat)
    } else if payload.len() > MAX_COMMENT_LEN {
        Err(ErrorKind::InvalidFormat)
    } else if !intact_from(data, 2) {
        Err(ErrorKind::ParseError)
    } else if !is_valid_jpeg(commented_stream(data, payload)) {
        Err(ErrorKind::InvalidFormat)
    } else {
        Ok(commented_stream(data, payload))
    }
}

} // verus!
