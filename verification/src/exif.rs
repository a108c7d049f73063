//! The orientation tag of an Exif block: reading it from a TIFF directory
//! and writing a block that holds nothing else.

use vstd::prelude::*;
use crate::bytes::{read_u16, read_u32, u16_at, u32_at};
use crate::error::Error;

verus! {

/// The TIFF tag that holds the orientation of an image.
pub const ORIENTATION_TAG: u16 = 0x0112;

/// The magic number that follows the byte order mark of a TIFF header.
pub const TIFF_MAGIC: u16 = 42;

/// Bytes of one directory entry: tag, type, count and value.
pub const ENTRY_LEN: usize = 12;

/// Length of the block that `create_minimal_exif` writes.
pub const MINIMAL_EXIF_LEN: usize = 36;

/// Where the TIFF header starts within the body of an Exif segment: after the
/// two length bytes and the six bytes of the `Exif` identifier.
pub const TIFF_START: usize = 8;

/// The byte order that a TIFF header announces: `Some(true)` for `II`
/// (little endian), `Some(false)` for `MM`, `None` for anything else.
pub open spec fn byte_order(tiff: Seq<u8>) -> Option<bool> {
    if tiff.len() < 2 {
        None
    } else if tiff[0] == 0x49 && tiff[1] == 0x49 {
        Some(true)
    } else if tiff[0] == 0x4D && tiff[1] == 0x4D {
        Some(false)
    } else {
        None
    }
}

/// The first directory of a TIFF block: its byte order, the offset of its
/// first entry and the number of entries it announces. `None` where the
/// header is cut short, has no byte order mark or magic number, or points
/// outside the block.
pub open spec fn first_directory(tiff: Seq<u8>) -> Option<(bool, int, int)> {
    if tiff.len() < 8 {
        None
    } else {
        match byte_order(tiff) {
            None => None,
            Some(little) => {
                let at = u32_at(tiff, 4, little);
                if u16_at(tiff, 2, little) != TIFF_MAGIC {
                    None
                } else if at + 2 > tiff.len() {
                    None
                } else {
                    Some((little, at + 2, u16_at(tiff, at, little)))
                }
            },
        }
    }
}

/// The value of the first orientation entry among the `remaining` entries
/// that start at `at`, looking only at entries that lie wholly inside the
/// block. The value is taken from the entry's own value field.
pub open spec fn scan_entries(tiff: Seq<u8>, little: bool, at: int, remaining: int) -> Option<u16>
    decreases remaining,
{
    if remaining <= 0 || at + ENTRY_LEN > tiff.len() {
        None
    } else if u16_at(tiff, at, little) == ORIENTATION_TAG {
        Some(u16_at(tiff, at + 8, little) as u16)
    } else {
        scan_entries(tiff, little, at + ENTRY_LEN, remaining - 1)
    }
}

/// The orientation that a TIFF block records in its first directory.
pub open spec fn orientation_of(tiff: Seq<u8>) -> Option<u16> {
    match first_directory(tiff) {
        None => None,
        Some((little, at, count)) => scan_entries(tiff, little, at, count),
    }
}

/// Whether a recorded orientation is one of the eight that Exif defines.
pub open spec fn is_valid_orientation(orientation: u16) -> bool {
    1 <= orientation <= 8
}

/// An APP1 segment, from its marker on, whose Exif block holds one directory
/// with the orientation entry alone, in little endian byte order.
pub open spec fn minimal_exif(orientation: u16) -> Seq<u8> {
    seq![
        0xFFu8, 0xE1,
        0x00, 0x22,
        0x45, 0x78, 0x69, 0x66, 0x00, 0x00,
        0x49, 0x49, 0x2A, 0x00,
        0x08, 0x00, 0x00, 0x00,
        0x01, 0x00,
        0x12, 0x01, 0x03, 0x00,
        0x01, 0x00, 0x00, 0x00,
        (orientation % 256) as u8, (orientation / 256) as u8, 0x00, 0x00,
        0x00, 0x00, 0x00, 0x00,
    ]
}

/// Reads the orientation from the TIFF part of an Exif block. A block that is
/// cut short or malformed has no orientation; it is never an error.
pub fn extract_orientation_from_exif(exif_data: &[u8]) -> (res: Option<u16>)
    ensures
        res == orientation_of(exif_data@),
{
    let len = exif_data.len();
    if len < 8 {
        return None;
    }
    let little = if exif_data[0] == 0x49 && exif_data[1] == 0x49 {
        true
    } else if exif_data[0] == 0x4D && exif_data[1] == 0x4D {
        false
    } else {
        return None;
    };
    if read_u16(exif_data, 2, little) != TIFF_MAGIC {
        return None;
    }
    let directory = read_u32(exif_data, 4, little) as usize;
    if directory > len - 2 {
        return None;
    }
    let count = read_u16(exif_data, directory, little);
    let mut at: usize = directory + 2;
    let mut seen: u16 = 0;
    while seen < count
        invariant
            len == exif_data@.len(),
            at <= len,
            seen <= count,
            orientation_of(exif_data@) == scan_entries(exif_data@, little, at as int, count - seen),
        decreases count - seen,
    {
        if len - at < ENTRY_LEN {
            return None;
        }
        if read_u16(exif_data, at, little) == ORIENTATION_TAG {
            return Some(read_u16(exif_data, at + 8, little));
        }
        at += ENTRY_LEN;
        seen += 1;
    }
    None
}

/// Builds the APP1 segment that records `orientation` and nothing else. The
/// segment has the same length whatever the orientation.
pub fn create_minimal_exif(orientation: u16) -> (res: Result<Vec<u8>, Error>)
    ensures
        res is Ok,
        res->Ok_0@ == minimal_exif(orientation),
        res->Ok_0@.len() == MINIMAL_EXIF_LEN,
{
    let mut exif: Vec<u8> = Vec::new();
    exif.push(0xFF);
    exif.push(0xE1);
    // The length is filled in once the payload is complete.
    exif.push(0x00);
    exif.push(0x00);
    // "Exif", then two zero bytes.
    exif.push(0x45);
    exif.push(0x78);
    exif.push(0x69);
    exif.push(0x66);
    exif.push(0x00);
    exif.push(0x00);
    // TIFF header: little endian, magic number, offset of the directory.
    exif.push(0x49);
    exif.push(0x49);
    exif.push(0x2A);
    exif.push(0x00);
    exif.push(0x08);
    exif.push(0x00);
    exif.push(0x00);
    exif.push(0x00);
    // One entry.
    exif.push(0x01);
    exif.push(0x00);
    // Tag, type SHORT, count 1, value.
    exif.push(0x12);
    exif.push(0x01);
    exif.push(0x03);
    exif.push(0x00);
    exif.push(0x01);
    exif.push(0x00);
    exif.push(0x00);
    exif.push(0x00);
    exif.push((orientation % 256) as u8);
    exif.push((orientation / 256) as u8);
    exif.push(0x00);
    exif.push(0x00);
    // No further directory.
    exif.push(0x00);
    exif.push(0x00);
    exif.push(0x00);
    exif.push(0x00);
    let size: usize = exif.len() - 2;
    exif[2] = (size / 256) as u8;
    exif[3] = (size % 256) as u8;
    assert(exif@ =~= minimal_exif(orientation));
    Ok(exif)
}

/// The block that `create_minimal_exif` writes for an orientation gives that
/// orientation back when its TIFF part is read.
pub proof fn lemma_minimal_exif_round_trip(orientation: u16)
    ensures
        minimal_exif(orientation).len() == MINIMAL_EXIF_LEN,
        orientation_of(minimal_exif(orientation).skip(10)) == Some(orientation),
{
    let tiff = minimal_exif(orientation).skip(10);
    assert(tiff.len() == 26);
    assert(byte_order(tiff) == Some(true));
    assert(u16_at(tiff, 2, true) == 42);
    assert(u32_at(tiff, 4, true) == 8);
    assert(u16_at(tiff, 8, true) == 1);
    assert(first_directory(tiff) == Some((true, 10int, 1int)));
    assert(u16_at(tiff, 10, true) == ORIENTATION_TAG);
    assert(u16_at(tiff, 18, true) == orientation);
}

} // verus!
