//! A JPEG stream as a sequence of marker segments.

use vstd::prelude::*;
use crate::bytes::{be16, read_u16};
use crate::error::{Error, ErrorKind};

verus! {

/// Start of image: the marker that opens every stream.
pub const MARKER_SOI: u8 = 0xD8;

/// Start of scan: the marker behind which the compressed image data lie.
pub const MARKER_SOS: u8 = 0xDA;

/// Quantization tables.
pub const MARKER_DQT: u8 = 0xDB;

/// Application segment 0, which holds the JFIF header.
pub const MARKER_APP0: u8 = 0xE0;

/// Application segment 1, which holds Exif or XMP data.
pub const MARKER_APP1: u8 = 0xE1;

/// Application segment 2, which holds ICC profiles.
pub const MARKER_APP2: u8 = 0xE2;

/// Comment.
pub const MARKER_COM: u8 = 0xFE;

/// One unit of a JPEG stream: a marker and the bytes that belong to it.
///
/// A standalone marker has no body. The body of a sized segment starts with
/// its two length bytes, which count themselves. The body of a start-of-scan
/// segment is everything that follows the marker, to the end of the stream.
pub struct Segment {
    pub marker: u8,
    pub body: Seq<u8>,
}

impl Segment {
    /// The segment as it lies in a stream.
    pub open spec fn bytes(self) -> Seq<u8> {
        seq![0xFFu8, self.marker] + self.body
    }

    /// The body of a sized segment without its length bytes.
    pub open spec fn payload(self) -> Seq<u8> {
        self.body.skip(2)
    }

    /// Whether the body is what the marker calls for.
    pub open spec fn well_formed(self) -> bool {
        if self.marker == MARKER_SOS {
            true
        } else if is_standalone(self.marker) {
            self.body.len() == 0
        } else {
            self.body.len() >= 2 && be16(self.body[0], self.body[1]) == self.body.len()
        }
    }
}

/// Markers that stand alone, with no length and no payload.
pub open spec fn is_standalone(marker: u8) -> bool {
    0xD0 <= marker <= 0xD9
}

/// Whether a stream is long enough to be an image and opens with the
/// start-of-image marker.
pub open spec fn has_signature(data: Seq<u8>) -> bool {
    data.len() >= 4 && data[0] == 0xFF && data[1] == MARKER_SOI
}

/// The segment that starts at `pos`, or `None` where the bytes there do not
/// form one: no `0xFF` in front of the marker, a length that is cut off or
/// below 2, or a body that runs past the end of the stream.
pub open spec fn segment_at(data: Seq<u8>, pos: int) -> Option<Segment>
    recommends
        0 <= pos,
        pos + 2 <= data.len(),
{
    let marker = data[pos + 1];
    if data[pos] != 0xFF {
        None
    } else if marker == MARKER_SOS {
        Some(Segment { marker, body: data.skip(pos + 2) })
    } else if is_standalone(marker) {
        Some(Segment { marker, body: Seq::empty() })
    } else if pos + 4 > data.len() {
        None
    } else {
        let size = be16(data[pos + 2], data[pos + 3]);
        if size < 2 || pos + 2 + size > data.len() {
            None
        } else {
            Some(Segment { marker, body: data.subrange(pos + 2, pos + 2 + size) })
        }
    }
}

/// The segments of `data` from `pos` on, up to the first place where the
/// bytes do not form a segment or fewer than two bytes are left. A
/// start-of-scan segment takes the rest of the stream, so it is always last.
pub open spec fn segments_from(data: Seq<u8>, pos: int) -> Seq<Segment>
    decreases data.len() - pos,
{
    if pos < 0 || pos + 2 > data.len() {
        Seq::empty()
    } else {
        match segment_at(data, pos) {
            None => Seq::empty(),
            Some(segment) => seq![segment] + segments_from(data, pos + 2 + segment.body.len()),
        }
    }
}

/// Whether `data` is a run of segments from `pos` on, with at most one stray
/// byte behind the last of them.
pub open spec fn intact_from(data: Seq<u8>, pos: int) -> bool
    decreases data.len() - pos,
{
    if pos < 0 || pos + 2 > data.len() {
        true
    } else {
        match segment_at(data, pos) {
            None => false,
            Some(segment) => intact_from(data, pos + 2 + segment.body.len()),
        }
    }
}

/// The bytes of a run of segments, one after the other.
pub open spec fn emit(segments: Seq<Segment>) -> Seq<u8>
    decreases segments.len(),
{
    if segments.len() == 0 {
        Seq::empty()
    } else {
        emit(segments.drop_last()) + segments.last().bytes()
    }
}

/// Where the body of a segment lies in a stream.
#[derive(Debug, Clone, Copy)]
pub struct Span {
    pub marker: u8,
    /// Offset of the first byte behind the marker.
    pub start: usize,
    /// Offset of the first byte behind the segment.
    pub end: usize,
}

impl Span {
    /// The segment that this span cuts out of `data`.
    pub open spec fn segment(self, data: Seq<u8>) -> Segment {
        Segment { marker: self.marker, body: data.subrange(self.start as int, self.end as int) }
    }
}

/// Reads the segment that starts at `pos`.
pub fn next_segment(data: &[u8], pos: usize) -> (res: Result<Span, Error>)
    requires
        pos + 2 <= data@.len(),
    ensures
        match res {
            Ok(span) => {
                &&& span.start == pos + 2
                &&& span.start <= span.end <= data@.len()
                &&& segment_at(data@, pos as int) == Some(span.segment(data@))
                &&& span.segment(data@).well_formed()
            },
            Err(e) => segment_at(data@, pos as int) is None && e.kind() == ErrorKind::ParseError,
        },
{
    if data[pos] != 0xFF {
        return Err(Error::ParseError("Invalid JPEG marker".to_string()));
    }
    let marker: u8 = data[pos + 1];
    let start: usize = pos + 2;
    let len: usize = data.len();
    if marker == MARKER_SOS {
        assert(data@.skip(start as int) =~= data@.subrange(start as int, len as int));
        return Ok(Span { marker, start, end: len });
    }
    if 0xD0 <= marker && marker <= 0xD9 {
        assert(data@.subrange(start as int, start as int) =~= Seq::<u8>::empty());
        return Ok(Span { marker, start, end: start });
    }
    if len - start < 2 {
        return Err(Error::ParseError("Unexpected end of JPEG data".to_string()));
    }
    let size: usize = read_u16(data, start, false) as usize;
    if size < 2 {
        return Err(Error::ParseError("Invalid segment size".to_string()));
    }
    if size > len - start {
        return Err(Error::ParseError("Segment extends beyond file".to_string()));
    }
    Ok(Span { marker, start, end: start + size })
}

/// One step of the walk over a stream: where a segment starts at `pos`, the
/// walk goes on behind it; where none does, the walk ends there.
pub proof fn lemma_walk_step(data: Seq<u8>, pos: int, done: Seq<Segment>)
    requires
        0 <= pos,
        pos + 2 <= data.len(),
    ensures
        match segment_at(data, pos) {
            Some(segment) => {
                let next = pos + 2 + segment.body.len();
                &&& done + segments_from(data, pos) == done.push(segment) + segments_from(
                    data,
                    next,
                )
                &&& intact_from(data, pos) == intact_from(data, next)
            },
            None => done + segments_from(data, pos) == done && !intact_from(data, pos),
        },
{
    match segment_at(data, pos) {
        Some(segment) => {
            let next = pos + 2 + segment.body.len();
            assert(done + (seq![segment] + segments_from(data, next)) =~= done.push(segment)
                + segments_from(data, next));
        },
        None => {
            assert(done + Seq::<Segment>::empty() =~= done);
        },
    }
}

/// The walk over a stream ends where fewer than two bytes are left.
pub proof fn lemma_walk_end(data: Seq<u8>, pos: int, done: Seq<Segment>)
    requires
        pos + 2 > data.len(),
    ensures
        done + segments_from(data, pos) == done,
        intact_from(data, pos),
{
    assert(done + Seq::<Segment>::empty() =~= done);
}

/// Appending one segment to a run appends its bytes to what the run emits.
pub proof fn lemma_emit_push(segments: Seq<Segment>, segment: Segment)
    ensures
        emit(segments.push(segment)) == emit(segments) + segment.bytes(),
{
    assert(segments.push(segment).drop_last() =~= segments);
}

/// Two runs, one after the other, emit the bytes of the first and then those
/// of the second.
pub proof fn lemma_emit_concat(front: Seq<Segment>, back: Seq<Segment>)
    ensures
        emit(front + back) == emit(front) + emit(back),
    decreases back.len(),
{
    if back.len() == 0 {
        assert(front + back =~= front);
        assert(emit(front) + emit(back) =~= emit(front));
    } else {
        lemma_emit_concat(front, back.drop_last());
        assert((front + back).drop_last() =~= front + back.drop_last());
        assert((front + back).last() == back.last());
        assert(emit(front + back) =~= emit(front) + emit(back));
    }
}

/// A run of one segment emits the bytes of that segment.
pub proof fn lemma_emit_one(segment: Segment)
    ensures
        emit(seq![segment]) == segment.bytes(),
{
    lemma_emit_push(Seq::empty(), segment);
    assert(seq![segment] =~= Seq::<Segment>::empty().push(segment));
    assert(emit(Seq::<Segment>::empty()) + segment.bytes() =~= segment.bytes());
}

} // verus!
