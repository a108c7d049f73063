//! What holds of the JPEG operations taken together.

use vstd::prelude::*;
use vstd::utf8::{decode_utf8, encode_utf8, encode_utf8_decode_utf8, encode_utf8_valid_utf8};
use crate::bytes::{be16_bytes, lemma_be16_round_trip};
use crate::error::ErrorKind;
use crate::exif::{is_valid_orientation, lemma_minimal_exif_round_trip, minimal_exif};
use crate::jpeg::rules::{
    anchor_pred, anchored, app0_pred, clean_outcome, cleaned, cleaned_stream, comment_pred,
    comment_segment, comment_text, commented_stream, exif_pred, exif_tag, is_exif, is_kept,
    kept_pred, orientation_segment, other_pred, placed, read_outcome, recorded_orientation,
    signature, stored_comment, with_comment, write_outcome, MAX_COMMENT_LEN,
};
use crate::jpeg::segment::{
    emit, intact_from, is_standalone, lemma_emit_concat, lemma_emit_one, lemma_emit_push,
    segment_at, segments_from, Segment, MARKER_COM, MARKER_SOS,
};
use crate::sequences::{
    all_satisfy, first_index, lemma_filter_all, lemma_filter_none, lemma_filter_preserves,
    lemma_first_index, lemma_first_index_is, lemma_first_index_none, none_satisfy,
};

verus! {

/// Whether a run of segments can stand in a stream: every segment is well
/// formed, and a scan, which takes the rest of a stream, is the last one.
pub open spec fn is_run(segments: Seq<Segment>) -> bool {
    forall|i: int|
        0 <= i < segments.len() ==> {
            &&& (#[trigger] segments[i]).well_formed()
            &&& segments[i].marker == MARKER_SOS ==> i == segments.len() - 1
        }
}

/// The segments read from a stream form a run.
pub proof fn lemma_walk_is_run(data: Seq<u8>, pos: int)
    requires
        0 <= pos,
    ensures
        is_run(segments_from(data, pos)),
    decreases data.len() - pos,
{
    if pos + 2 <= data.len() {
        match segment_at(data, pos) {
            None => {},
            Some(segment) => {
                let next = pos + 2 + segment.body.len();
                let rest = segments_from(data, next);
                let all = segments_from(data, pos);
                lemma_walk_is_run(data, next);
                assert(all == seq![segment] + rest);
                if segment.marker == MARKER_SOS {
                    assert(next == data.len());
                    assert(rest.len() == 0);
                }
                assert forall|i: int| 0 <= i < all.len() implies {
                    &&& (#[trigger] all[i]).well_formed()
                    &&& all[i].marker == MARKER_SOS ==> i == all.len() - 1
                } by {
                    if i > 0 {
                        assert(all[i] == rest[i - 1]);
                    }
                }
            },
        }
    }
}

/// Reading back the bytes of a run gives the run: behind any prefix, the
/// stream that a run emits is intact and holds the segments of the run.
pub proof fn lemma_read_emitted(prefix: Seq<u8>, segments: Seq<Segment>)
    requires
        is_run(segments),
    ensures
        segments_from(prefix + emit(segments), prefix.len() as int) == segments,
        intact_from(prefix + emit(segments), prefix.len() as int),
    decreases segments.len(),
{
    let data = prefix + emit(segments);
    let pos = prefix.len() as int;
    if segments.len() == 0 {
        assert(data =~= prefix);
        assert(segments_from(data, pos) =~= segments);
    } else {
        let first = segments[0];
        let rest = segments.skip(1);
        assert(segments =~= seq![first] + rest);
        lemma_emit_concat(seq![first], rest);
        lemma_emit_one(first);
        assert(emit(segments) == first.bytes() + emit(rest));
        assert(data[pos] == 0xFF);
        assert(data[pos + 1] == first.marker);
        assert(first.well_formed());
        assert forall|i: int| 0 <= i < rest.len() implies {
            &&& (#[trigger] rest[i]).well_formed()
            &&& rest[i].marker == MARKER_SOS ==> i == rest.len() - 1
        } by {
            assert(rest[i] == segments[i + 1]);
        }
        if first.marker == MARKER_SOS {
            assert(rest.len() == 0);
            assert(emit(rest) =~= Seq::<u8>::empty());
            assert(data.skip(pos + 2) =~= first.body);
        } else if is_standalone(first.marker) {
            assert(first.body =~= Seq::<u8>::empty());
        } else {
            assert(data[pos + 2] == first.body[0]);
            assert(data[pos + 3] == first.body[1]);
            assert(data.subrange(pos + 2, pos + 2 + first.body.len()) =~= first.body);
        }
        assert(segment_at(data, pos) == Some(first));
        let next_prefix = prefix + first.bytes();
        assert(data =~= next_prefix + emit(rest));
        lemma_read_emitted(next_prefix, rest);
        assert(next_prefix.len() == pos + 2 + first.body.len());
        assert(segments_from(data, pos) =~= seq![first] + rest);
    }
}

/// Where reading the segments of a stream from `pos` on stops: behind the
/// last segment that the bytes form.
pub open spec fn walk_end(data: Seq<u8>, pos: int) -> int
    decreases data.len() - pos,
{
    if pos < 0 || pos + 2 > data.len() {
        pos
    } else {
        match segment_at(data, pos) {
            None => pos,
            Some(segment) => walk_end(data, pos + 2 + segment.body.len()),
        }
    }
}

/// The segments of a stream emit the bytes they were read from: the stream
/// from `pos` to where reading stops. In an intact stream that is the end,
/// or one stray byte in front of it, which no operation carries over.
pub proof fn lemma_emit_walked(data: Seq<u8>, pos: int)
    requires
        0 <= pos <= data.len(),
    ensures
        pos <= walk_end(data, pos) <= data.len(),
        emit(segments_from(data, pos)) == data.subrange(pos, walk_end(data, pos)),
        intact_from(data, pos) ==> data.len() - 1 <= walk_end(data, pos),
    decreases data.len() - pos,
{
    if pos + 2 > data.len() {
        assert(emit(segments_from(data, pos)) =~= data.subrange(pos, pos));
    } else {
        match segment_at(data, pos) {
            None => {
                assert(emit(segments_from(data, pos)) =~= data.subrange(pos, pos));
            },
            Some(segment) => {
                let next = pos + 2 + segment.body.len();
                let rest = segments_from(data, next);
                lemma_emit_walked(data, next);
                lemma_emit_concat(seq![segment], rest);
                lemma_emit_one(segment);
                assert(segment.bytes() =~= data.subrange(pos, next));
                assert(data.subrange(pos, next) + data.subrange(next, walk_end(data, next))
                    =~= data.subrange(pos, walk_end(data, next)));
            },
        }
    }
}

/// The predicate that holds of well-formed segments.
pub open spec fn formed_pred() -> spec_fn(Segment) -> bool {
    |segment: Segment| segment.well_formed()
}

/// The predicate that holds of every segment but a scan.
pub open spec fn headers_pred() -> spec_fn(Segment) -> bool {
    |segment: Segment| segment.marker != MARKER_SOS
}

/// A run in other words: its segments are well formed, and all but the last
/// are no scan.
proof fn lemma_run_parts(segments: Seq<Segment>)
    ensures
        is_run(segments) <==> all_satisfy(segments, formed_pred()) && (segments.len() > 0
            ==> all_satisfy(segments.drop_last(), headers_pred())),
{
    if is_run(segments) {
        assert forall|j: int| 0 <= j < segments.len() implies formed_pred()(
            #[trigger] segments[j],
        ) by {}
        if segments.len() > 0 {
            let front = segments.drop_last();
            assert forall|j: int| 0 <= j < front.len() implies headers_pred()(
                #[trigger] front[j],
            ) by {
                assert(front[j] == segments[j]);
            }
        }
    }
    if all_satisfy(segments, formed_pred()) && (segments.len() > 0 ==> all_satisfy(
        segments.drop_last(),
        headers_pred(),
    )) {
        assert forall|i: int| 0 <= i < segments.len() implies {
            &&& (#[trigger] segments[i]).well_formed()
            &&& segments[i].marker == MARKER_SOS ==> i == segments.len() - 1
        } by {
            assert(formed_pred()(segments[i]));
            if i < segments.len() - 1 {
                assert(segments.drop_last()[i] == segments[i]);
                assert(headers_pred()(segments.drop_last()[i]));
            }
        }
    }
}

/// What a filter lets through of a run is a run.
pub proof fn lemma_filter_is_run(segments: Seq<Segment>, pred: spec_fn(Segment) -> bool)
    requires
        is_run(segments),
    ensures
        is_run(segments.filter(pred)),
{
    lemma_run_parts(segments);
    let kept = segments.filter(pred);
    lemma_filter_preserves(segments, pred, formed_pred());
    if segments.len() > 0 {
        let front = segments.drop_last();
        lemma_filter_preserves(front, pred, headers_pred());
        front.lemma_filter_push(segments.last(), pred);
        assert(front.push(segments.last()) =~= segments);
        if pred(segments.last()) {
            assert(kept.drop_last() =~= front.filter(pred));
        } else if kept.len() > 0 {
            let inner = kept.drop_last();
            assert forall|j: int| 0 <= j < inner.len() implies headers_pred()(
                #[trigger] inner[j],
            ) by {
                assert(inner[j] == front.filter(pred)[j]);
            }
        }
    }
    lemma_run_parts(kept);
}

/// A run stays a run when a well-formed segment that is no scan is let in
/// behind its first JFIF header, or in front of it.
pub proof fn lemma_placed_is_run(kept: Seq<Segment>, extra: Segment)
    requires
        is_run(kept),
        extra.well_formed(),
        extra.marker != MARKER_SOS,
    ensures
        is_run(placed(kept, extra)),
{
    lemma_first_index(kept, app0_pred());
    let out = placed(kept, extra);
    match first_index(kept, app0_pred()) {
        Some(i) => {
            assert forall|j: int| 0 <= j < out.len() implies {
                &&& (#[trigger] out[j]).well_formed()
                &&& out[j].marker == MARKER_SOS ==> j == out.len() - 1
            } by {
                if j <= i {
                    assert(out[j] == kept[j]);
                } else if j > i + 1 {
                    assert(out[j] == kept[j - 1]);
                }
            }
        },
        None => {
            assert forall|j: int| 0 <= j < out.len() implies {
                &&& (#[trigger] out[j]).well_formed()
                &&& out[j].marker == MARKER_SOS ==> j == out.len() - 1
            } by {
                if j > 0 {
                    assert(out[j] == kept[j - 1]);
                }
            }
        },
    }
}

/// The segment that records an orientation is a well-formed Exif segment,
/// which cleaning does not keep, and its orientation can be read back.
pub proof fn lemma_orientation_segment(orientation: u16)
    ensures
        orientation_segment(orientation).well_formed(),
        orientation_segment(orientation).bytes() == minimal_exif(orientation),
        is_exif(orientation_segment(orientation)),
        !is_kept(orientation_segment(orientation)),
        crate::exif::orientation_of(orientation_segment(orientation).body.skip(8)) == Some(
            orientation,
        ),
{
    let segment = orientation_segment(orientation);
    lemma_minimal_exif_round_trip(orientation);
    assert(segment.body.len() == 34);
    assert(segment.body[0] == 0x00 && segment.body[1] == 0x22);
    assert(segment.bytes() =~= minimal_exif(orientation));
    assert(segment.body.subrange(2, 6) =~= exif_tag());
    assert(segment.body.skip(8) =~= minimal_exif(orientation).skip(10));
}

/// What cleaning leaves of a run is a run.
pub proof fn lemma_cleaned_is_run(segments: Seq<Segment>)
    requires
        is_run(segments),
    ensures
        is_run(cleaned(segments)),
{
    lemma_filter_is_run(segments, kept_pred());
    match recorded_orientation(segments) {
        Some(orientation) => {
            if is_valid_orientation(orientation) {
                lemma_orientation_segment(orientation);
                lemma_placed_is_run(
                    segments.filter(kept_pred()),
                    orientation_segment(orientation),
                );
            }
        },
        None => {},
    }
}

/// What cleaning keeps satisfies the rule for keeping, and holds no Exif
/// segment.
pub proof fn lemma_kept_facts(segments: Seq<Segment>)
    ensures
        all_satisfy(segments.filter(kept_pred()), kept_pred()),
        none_satisfy(segments.filter(kept_pred()), exif_pred()),
        segments.filter(kept_pred()).filter(kept_pred()) == segments.filter(kept_pred()),
        recorded_orientation(segments.filter(kept_pred())) is None,
{
    let kept = segments.filter(kept_pred());
    lemma_filter_preserves(segments, kept_pred(), |segment: Segment| true);
    lemma_filter_all(kept, kept_pred());
    assert forall|j: int| 0 <= j < kept.len() implies !exif_pred()(#[trigger] kept[j]) by {
        assert(kept_pred()(kept[j]));
    }
    lemma_first_index_none(kept, exif_pred());
}

/// Where an Exif segment is let into a run that holds none, it is the first
/// Exif segment of the run.
pub proof fn lemma_placed_is_first(kept: Seq<Segment>, extra: Segment)
    requires
        none_satisfy(kept, exif_pred()),
        is_exif(extra),
    ensures
        first_index(placed(kept, extra), exif_pred()) is Some,
        placed(kept, extra)[first_index(placed(kept, extra), exif_pred())->Some_0] == extra,
{
    let out = placed(kept, extra);
    lemma_first_index(kept, app0_pred());
    let at = match first_index(kept, app0_pred()) {
        Some(i) => i + 1,
        None => 0,
    };
    assert forall|j: int| 0 <= j < at implies !exif_pred()(#[trigger] out[j]) by {
        assert(out[j] == kept[j]);
    }
    assert(out[at] == extra);
    lemma_first_index_is(out, exif_pred(), at);
}

/// Where a segment that cleaning does not keep is let into a run of
/// segments that it keeps, filtering gives the run back.
pub proof fn lemma_placed_filtered(kept: Seq<Segment>, extra: Segment)
    requires
        all_satisfy(kept, kept_pred()),
        !is_kept(extra),
    ensures
        placed(kept, extra).filter(kept_pred()) == kept,
{
    let out = placed(kept, extra);
    lemma_first_index(kept, app0_pred());
    let at = match first_index(kept, app0_pred()) {
        Some(i) => i + 1,
        None => 0,
    };
    let front = kept.take(at);
    let back = kept.skip(at);
    assert(out =~= front + seq![extra] + back);
    assert(kept =~= front + back);
    Seq::filter_distributes_over_add(front + seq![extra], back, kept_pred());
    Seq::filter_distributes_over_add(front, seq![extra], kept_pred());
    assert forall|j: int| 0 <= j < front.len() implies kept_pred()(#[trigger] front[j]) by {
        assert(front[j] == kept[j]);
    }
    assert forall|j: int| 0 <= j < back.len() implies kept_pred()(#[trigger] back[j]) by {
        assert(back[j] == kept[j + at]);
    }
    lemma_filter_all(front, kept_pred());
    lemma_filter_all(back, kept_pred());
    assert(none_satisfy(seq![extra], kept_pred()));
    lemma_filter_none(seq![extra], kept_pred());
    assert(front + Seq::<Segment>::empty() + back =~= kept);
}

/// Cleaning what cleaning has left changes nothing.
pub proof fn lemma_cleaned_twice(segments: Seq<Segment>)
    ensures
        cleaned(cleaned(segments)) == cleaned(segments),
{
    let kept = segments.filter(kept_pred());
    lemma_kept_facts(segments);
    match recorded_orientation(segments) {
        Some(orientation) => {
            if is_valid_orientation(orientation) {
                let extra = orientation_segment(orientation);
                lemma_orientation_segment(orientation);
                lemma_placed_is_first(kept, extra);
                lemma_placed_filtered(kept, extra);
                assert(cleaned(segments) == placed(kept, extra));
                assert(recorded_orientation(placed(kept, extra)) == Some(orientation));
            } else {
                assert(cleaned(segments) == kept);
            }
        },
        None => {
            assert(cleaned(segments) == kept);
        },
    }
}

/// The stream that cleaning builds is intact, holds the segments that
/// cleaning left, and is built again when it is cleaned.
pub proof fn lemma_cleaned_stream(data: Seq<u8>)
    ensures
        intact_from(cleaned_stream(data), 2),
        segments_from(cleaned_stream(data), 2) == cleaned(segments_from(data, 2)),
        cleaned_stream(cleaned_stream(data)) == cleaned_stream(data),
{
    let segments = segments_from(data, 2);
    lemma_walk_is_run(data, 2);
    lemma_cleaned_is_run(segments);
    assert(signature().len() == 2);
    lemma_read_emitted(signature(), cleaned(segments));
    lemma_cleaned_twice(segments);
}

/// Cleaning is idempotent: an image that `clean_metadata` has returned comes
/// back from it unchanged.
pub proof fn lemma_clean_idempotent(data: Seq<u8>)
    requires
        clean_outcome(data) is Ok,
    ensures
        clean_outcome(clean_outcome(data)->Ok_0) == clean_outcome(data),
{
    lemma_cleaned_stream(data);
}

/// Cleaning keeps the orientation: where an image recorded one of the eight
/// orientations, the image that `clean_metadata` returns records the same,
/// and where it recorded none of them, the image returned records none at
/// all.
pub proof fn lemma_clean_keeps_orientation(data: Seq<u8>)
    requires
        clean_outcome(data) is Ok,
    ensures
        recorded_orientation(segments_from(clean_outcome(data)->Ok_0, 2)) == (
        match recorded_orientation(segments_from(data, 2)) {
            Some(orientation) => if is_valid_orientation(orientation) {
                Some(orientation)
            } else {
                None
            },
            None => None,
        }),
{
    let segments = segments_from(data, 2);
    let kept = segments.filter(kept_pred());
    lemma_cleaned_stream(data);
    lemma_kept_facts(segments);
    match recorded_orientation(segments) {
        Some(orientation) => {
            if is_valid_orientation(orientation) {
                lemma_orientation_segment(orientation);
                lemma_placed_is_first(kept, orientation_segment(orientation));
            }
        },
        None => {},
    }
}

/// A comment segment whose payload fits is well formed, and its payload can
/// be read back.
pub proof fn lemma_comment_segment(payload: Seq<u8>)
    requires
        payload.len() <= MAX_COMMENT_LEN,
    ensures
        comment_segment(payload).well_formed(),
        comment_segment(payload).payload() == payload,
{
    let segment = comment_segment(payload);
    lemma_be16_round_trip(payload.len() as int + 2);
    assert(segment.body[0] == be16_bytes(payload.len() as int + 2)[0]);
    assert(segment.body[1] == be16_bytes(payload.len() as int + 2)[1]);
    assert(segment.payload() =~= payload);
}

/// Where a comment is let into a run that holds none, the run stays a run,
/// the comment is its first comment, and it is its only one.
pub proof fn lemma_anchored_facts(others: Seq<Segment>, comment: Segment)
    requires
        is_run(others),
        none_satisfy(others, comment_pred()),
        comment.well_formed(),
        comment.marker == MARKER_COM,
    ensures
        is_run(anchored(others, comment)),
        first_index(anchored(others, comment), comment_pred()) is Some,
        anchored(others, comment)[first_index(anchored(others, comment), comment_pred())->Some_0]
            == comment,
        anchored(others, comment).filter(comment_pred()) == seq![comment],
{
    let out = anchored(others, comment);
    lemma_first_index(others, anchor_pred());
    let at = match first_index(others, anchor_pred()) {
        Some(i) => i,
        None => others.len() as int,
    };
    let front = others.take(at);
    let back = others.skip(at);
    assert(out =~= front + seq![comment] + back);
    assert forall|j: int| 0 <= j < out.len() implies {
        &&& (#[trigger] out[j]).well_formed()
        &&& out[j].marker == MARKER_SOS ==> j == out.len() - 1
    } by {
        if j < at {
            assert(out[j] == others[j]);
            assert(!anchor_pred()(others[j]));
        } else if j > at {
            assert(out[j] == others[j - 1]);
        }
    }
    assert forall|j: int| 0 <= j < at implies !comment_pred()(#[trigger] out[j]) by {
        assert(out[j] == others[j]);
    }
    assert(out[at] == comment);
    lemma_first_index_is(out, comment_pred(), at);
    Seq::filter_distributes_over_add(front + seq![comment], back, comment_pred());
    Seq::filter_distributes_over_add(front, seq![comment], comment_pred());
    assert forall|j: int| 0 <= j < front.len() implies !comment_pred()(#[trigger] front[j]) by {
        assert(front[j] == others[j]);
    }
    assert forall|j: int| 0 <= j < back.len() implies !comment_pred()(#[trigger] back[j]) by {
        assert(back[j] == others[j + at]);
    }
    lemma_filter_none(front, comment_pred());
    lemma_filter_none(back, comment_pred());
    assert(all_satisfy(seq![comment], comment_pred()));
    lemma_filter_all(seq![comment], comment_pred());
    assert(Seq::<Segment>::empty() + seq![comment] + Seq::<Segment>::empty() =~= seq![comment]);
}

/// The stream that writing a comment builds is intact and holds the segments
/// that writing left: a run with the new comment as its first and only
/// comment.
pub proof fn lemma_commented_stream(data: Seq<u8>, payload: Seq<u8>)
    requires
        payload.len() <= MAX_COMMENT_LEN,
    ensures
        intact_from(commented_stream(data, payload), 2),
        segments_from(commented_stream(data, payload), 2) == with_comment(
            segments_from(data, 2),
            comment_segment(payload),
        ),
        stored_comment(commented_stream(data, payload)) == Ok::<Option<Seq<u8>>, ErrorKind>(
            Some(payload),
        ),
        segments_from(commented_stream(data, payload), 2).filter(comment_pred()) == seq![
            comment_segment(payload),
        ],
{
    let segments = segments_from(data, 2);
    let comment = comment_segment(payload);
    let others = segments.filter(other_pred());
    lemma_walk_is_run(data, 2);
    lemma_filter_is_run(segments, other_pred());
    lemma_filter_preserves(segments, other_pred(), |segment: Segment| true);
    assert forall|j: int| 0 <= j < others.len() implies !comment_pred()(#[trigger] others[j]) by {
        assert(other_pred()(others[j]));
    }
    lemma_comment_segment(payload);
    lemma_anchored_facts(others, comment);
    assert(signature().len() == 2);
    lemma_read_emitted(signature(), with_comment(segments, comment));
}

/// The text of a comment that holds the bytes of a text is that text.
pub proof fn lemma_comment_text(text: Seq<char>)
    ensures
        comment_text(encode_utf8(text)) == text,
{
    encode_utf8_valid_utf8(text);
    encode_utf8_decode_utf8(text);
    if encode_utf8(text).len() == 0 {
        assert(decode_utf8(encode_utf8(text)) =~= Seq::<char>::empty());
    }
}

/// A comment that was written can be read: from an image that
/// `write_comment` has returned for a text, `read_comment` returns that text.
pub proof fn lemma_write_then_read(data: Seq<u8>, text: Seq<char>)
    requires
        write_outcome(data, text) is Ok,
    ensures
        read_outcome(write_outcome(data, text)->Ok_0) == Ok::<
            Option<Seq<char>>,
            ErrorKind,
        >(Some(text)),
{
    lemma_commented_stream(data, encode_utf8(text));
    lemma_comment_text(text);
}

/// Writing leaves one comment: an image that `write_comment` has returned
/// for a text holds exactly one comment segment, that of the text, however
/// many comments the image held before.
pub proof fn lemma_write_leaves_one_comment(data: Seq<u8>, text: Seq<char>)
    requires
        write_outcome(data, text) is Ok,
    ensures
        segments_from(write_outcome(data, text)->Ok_0, 2).filter(comment_pred()) == seq![
            comment_segment(encode_utf8(text)),
        ],
{
    lemma_commented_stream(data, encode_utf8(text));
}

/// Cleaning leaves no comment: from an image that `clean_metadata` has
/// returned, `read_comment` returns none.
pub proof fn lemma_clean_drops_comments(data: Seq<u8>)
    requires
        clean_outcome(data) is Ok,
    ensures
        read_outcome(clean_outcome(data)->Ok_0) == Ok::<Option<Seq<char>>, ErrorKind>(
            None,
        ),
{
    let segments = segments_from(data, 2);
    let kept = segments.filter(kept_pred());
    let left = cleaned(segments);
    lemma_cleaned_stream(data);
    lemma_kept_facts(segments);
    assert forall|j: int| 0 <= j < kept.len() implies !comment_pred()(#[trigger] kept[j]) by {
        assert(kept_pred()(kept[j]));
    }
    if left != kept {
        lemma_first_index(kept, app0_pred());
        let at = match first_index(kept, app0_pred()) {
            Some(i) => i + 1,
            None => 0,
        };
        assert forall|j: int| 0 <= j < left.len() implies !comment_pred()(#[trigger] left[j]) by {
            if j < at {
                assert(left[j] == kept[j]);
            } else if j > at {
                assert(left[j] == kept[j - 1]);
            }
        }
    }
    lemma_first_index_none(left, comment_pred());
}

/// A run with a comment let in emits as many bytes as the run and the
/// comment together.
pub proof fn lemma_anchored_length(others: Seq<Segment>, comment: Segment)
    ensures
        emit(anchored(others, comment)).len() == emit(others).len() + comment.bytes().len(),
{
    lemma_first_index(others, anchor_pred());
    lemma_emit_one(comment);
    match first_index(others, anchor_pred()) {
        Some(i) => {
            let front = others.take(i);
            let back = others.skip(i);
            assert(others =~= front + back);
            lemma_emit_concat(front, back);
            lemma_emit_concat(front, seq![comment]);
            lemma_emit_concat(front + seq![comment], back);
        },
        None => {
            lemma_emit_push(others, comment);
        },
    }
}

/// A run without comments is what is left of it when its comments go.
pub proof fn lemma_no_comments(segments: Seq<Segment>)
    requires
        none_satisfy(segments, comment_pred()),
    ensures
        segments.filter(other_pred()) == segments,
{
    assert forall|j: int| 0 <= j < segments.len() implies other_pred()(#[trigger] segments[j]) by {
        assert(!comment_pred()(segments[j]));
    }
    lemma_filter_all(segments, other_pred());
}

/// How long a written image is: the segments that are no comment, and four
/// bytes and the text for the new comment. Where the image held no comment,
/// that is the image as far as its segments go, so all of it but a stray
/// byte behind its last segment, and four bytes and the text.
pub proof fn lemma_written_length(data: Seq<u8>, text: Seq<char>)
    requires
        write_outcome(data, text) is Ok,
    ensures
        write_outcome(data, text)->Ok_0.len() == 2 + emit(
            segments_from(data, 2).filter(other_pred()),
        ).len() + 4 + encode_utf8(text).len(),
        none_satisfy(segments_from(data, 2), comment_pred()) ==> write_outcome(
            data,
            text,
        )->Ok_0.len() == walk_end(data, 2) + 4 + encode_utf8(text).len(),
        data.len() - 1 <= walk_end(data, 2) <= data.len(),
{
    let segments = segments_from(data, 2);
    let payload = encode_utf8(text);
    let comment = comment_segment(payload);
    let out = commented_stream(data, payload);
    assert(write_outcome(data, text) == Ok::<Seq<u8>, ErrorKind>(out));
    assert(comment.bytes().len() == 4 + payload.len());
    lemma_anchored_length(segments.filter(other_pred()), comment);
    assert(out.len() == 2 + emit(with_comment(segments, comment)).len());
    lemma_emit_walked(data, 2);
    if none_satisfy(segments, comment_pred()) {
        lemma_no_comments(segments);
    }
}

} // verus!
