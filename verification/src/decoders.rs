//! The image decoders that vouch for a stream before and after it is
//! rewritten. Only the header of an image is read.

use vstd::prelude::*;
use crate::error::{Error, ErrorKind};

verus! {

/// What the header of a PNG image announces.
#[derive(Debug, Clone, Copy, PartialEq, Eq, Structural)]
pub struct PngHeader {
    pub width: u32,
    pub height: u32,
    /// Bits per sample, as the number the format stores.
    pub bit_depth: u8,
    /// The colour type, as the number the format stores.
    pub color_type: u8,
}

/// Width and height of the frame that the JPEG decoder finds in `bytes`, or
/// `None` where it reports an error or no frame.
pub uninterp spec fn jpeg_frame(bytes: Seq<u8>) -> Option<(u16, u16)>;

/// The header that the PNG decoder reads from `bytes`, or `None` where it
/// reports an error.
pub uninterp spec fn png_header(bytes: Seq<u8>) -> Option<PngHeader>;

/// Whether a frame size is that of an image with at least one pixel.
pub open spec fn is_sound_frame(frame: (u16, u16)) -> bool {
    frame.0 != 0 && frame.1 != 0
}

/// Whether a PNG header describes an image with at least one pixel, a bit
/// depth of 1, 2, 4, 8 or 16 and one of the five colour types.
pub open spec fn is_sound_header(header: PngHeader) -> bool {
    &&& header.width != 0
    &&& header.height != 0
    &&& (header.bit_depth == 1 || header.bit_depth == 2 || header.bit_depth == 4
        || header.bit_depth == 8 || header.bit_depth == 16)
    &&& (header.color_type == 0 || header.color_type == 2 || header.color_type == 3
        || header.color_type == 4 || header.color_type == 6)
}

/// Whether the JPEG decoder accepts `bytes` and finds a frame with at least
/// one pixel in it.
pub open spec fn jpeg_decodes(bytes: Seq<u8>) -> bool {
    jpeg_frame(bytes) is Some && is_sound_frame(jpeg_frame(bytes)->Some_0)
}

/// Whether the PNG decoder accepts `bytes` and reads a sound header from it.
pub open spec fn png_decodes(bytes: Seq<u8>) -> bool {
    png_header(bytes) is Some && is_sound_header(png_header(bytes)->Some_0)
}

/// Runs `jpeg_decoder::Decoder::read_info` on `data` and asks `info` for the
/// frame; an error comes back as the text that the decoder gives for it. The
/// decoder reads nothing but `data`, stops behind the frame header, and its
/// answer is taken to depend on those bytes alone; nothing else is claimed
/// of it.
#[verifier::external_body]
pub(crate) fn probe_jpeg(data: &[u8]) -> (res: Result<Option<(u16, u16)>, String>)
    ensures
        jpeg_frame(data@) == (match res {
            Ok(Some(frame)) => Some(frame),
            _ => None,
        }),
{
    let mut decoder = jpeg_decoder::Decoder::new(data);
    match decoder.read_info() {
        Ok(()) => Ok(decoder.info().map(|info| (info.width, info.height))),
        Err(e) => Err(e.to_string()),
    }
}

/// Runs `png::Decoder::read_info` on `data`, with the decoder's default
/// limits, and copies four fields of the header it returns; an error comes
/// back as the text that the decoder gives for it. The decoder reads nothing
/// but `data`, and its answer is taken to depend on those bytes alone;
/// nothing else is claimed of it.
#[verifier::external_body]
pub(crate) fn probe_png(data: &[u8]) -> (res: Result<PngHeader, String>)
    ensures
        png_header(data@) == (match res {
            Ok(header) => Some(header),
            Err(_) => None,
        }),
{
    match ::png::Decoder::new(std::io::Cursor::new(data)).read_info() {
        Ok(reader) => Ok(PngHeader {
            width: reader.info().width,
            height: reader.info().height,
            bit_depth: reader.info().bit_depth as u8,
            color_type: reader.info().color_type as u8,
        }),
        Err(e) => Err(e.to_string()),
    }
}

/// Judges what the JPEG decoder reported, an error being given by its text:
/// a frame with at least one pixel passes, anything else is an
/// `InvalidFormat` error.
pub fn check_jpeg_probe(probe: Result<Option<(u16, u16)>, String>) -> (res: Result<(), Error>)
    ensures
        res is Ok <==> (probe matches Ok(Some(frame)) && is_sound_frame(frame)),
        res is Err ==> res->Err_0.kind() == ErrorKind::InvalidFormat,
{
    match probe {
        Ok(Some(frame)) => {
            if frame.0 == 0 || frame.1 == 0 {
                Err(Error::InvalidFormat("Invalid image dimensions".to_string()))
            } else {
                Ok(())
            }
        },
        Ok(None) => Err(Error::InvalidFormat("Failed to get JPEG info".to_string())),
        Err(e) => {
            let mut message = "Invalid JPEG: ".to_string();
            message.append(e.as_str());
            Err(Error::InvalidFormat(message))
        },
    }
}

/// Judges what the PNG decoder reported, an error being given by its text: a
/// sound header passes, anything else is an `InvalidFormat` error.
pub fn check_png_probe(probe: Result<PngHeader, String>) -> (res: Result<(), Error>)
    ensures
        res is Ok <==> (probe matches Ok(header) && is_sound_header(header)),
        res is Err ==> res->Err_0.kind() == ErrorKind::InvalidFormat,
{
    match probe {
        Ok(header) => {
            if header.width == 0 || header.height == 0 {
                return Err(Error::InvalidFormat("Invalid image dimensions".to_string()));
            }
            let depth: u8 = header.bit_depth;
            if !(depth == 1 || depth == 2 || depth == 4 || depth == 8 || depth == 16) {
                return Err(Error::InvalidFormat("Invalid bit depth".to_string()));
            }
            let color: u8 = header.color_type;
            if !(color == 0 || color == 2 || color == 3 || color == 4 || color == 6) {
                return Err(Error::InvalidFormat("Invalid color type".to_string()));
            }
            Ok(())
        },
        Err(e) => {
            let mut message = "Invalid PNG: ".to_string();
            message.append(e.as_str());
            Err(Error::InvalidFormat(message))
        },
    }
}

/// Checks that the JPEG decoder can read the header of `data` and finds an
/// image with at least one pixel.
pub fn validate_jpeg_decode(data: &[u8]) -> (res: Result<(), Error>)
    ensures
        res is Ok <==> jpeg_decodes(data@),
        res is Err ==> res->Err_0.kind() == ErrorKind::InvalidFormat,
{
    check_jpeg_probe(probe_jpeg(data))
}

/// Checks that the PNG decoder can read `data` up to its image data and
/// finds a sound header.
pub fn validate_png_decode(data: &[u8]) -> (res: Result<(), Error>)
    ensures
        res is Ok <==> png_decodes(data@),
        res is Err ==> res->Err_0.kind() == ErrorKind::InvalidFormat,
{
    check_png_probe(probe_png(data))
}

} // verus!
