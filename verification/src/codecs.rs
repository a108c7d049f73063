//! Errors of the JPEG codecs, taken in as errors of this library, so that a
//! caller who decodes or encodes an image around these operations can pass
//! every failure on as one type.

use vstd::prelude::*;
use jpeg_decoder::Error as DecodeError;
use jpeg_encoder::EncodingError;
use crate::error::Error;

verus! {

/// The error type of the JPEG decoder, `jpeg_decoder::Error`, carried
/// through unopened. It is brought in under another name because its own is
/// that of this library's error type.
#[verifier::external_type_specification]
#[verifier::external_body]
pub struct ExDecodeError(DecodeError);

/// The error type of the JPEG encoder, `jpeg_encoder::EncodingError`,
/// carried through unopened.
#[verifier::external_type_specification]
#[verifier::external_body]
pub struct ExEncodingError(jpeg_encoder::EncodingError);

/// The text that `Display` of `jpeg_decoder::Error` gives for an error,
/// through `format!`. Nothing is claimed of the text.
#[verifier::external_body]
fn decode_error_text(err: &DecodeError) -> String {
    format!("{}", err)
}

/// The text that `Display` of `jpeg_encoder::EncodingError` gives for an
/// error, through `format!`. Nothing is claimed of the text.
#[verifier::external_body]
fn encoding_error_text(err: &EncodingError) -> String {
    format!("{}", err)
}

impl From<DecodeError> for Error {
    /// A parse error that tells what the decoder reported.
    fn from(err: DecodeError) -> (res: Error)
        ensures
            res is ParseError,
            "JPEG decode error: "@.is_prefix_of(res->ParseError_0@),
    {
        let mut message = "JPEG decode error: ".to_string();
        message.append(decode_error_text(&err).as_str());
        assert(message@.subrange(0, "JPEG decode error: "@.len() as int)
            =~= "JPEG decode error: "@);
        Error::ParseError(message)
    }
}

impl vstd::std_specs::convert::FromSpecImpl<DecodeError> for Error {
    /// The message holds the decoder's own words, which have no model here.
    open spec fn obeys_from_spec() -> bool {
        false
    }

    open spec fn from_spec(err: DecodeError) -> Error {
        arbitrary()
    }
}

impl From<EncodingError> for Error {
    /// A parse error that tells what the encoder reported.
    fn from(err: EncodingError) -> (res: Error)
        ensures
            res is ParseError,
            "JPEG encode error: "@.is_prefix_of(res->ParseError_0@),
    {
        let mut message = "JPEG encode error: ".to_string();
        message.append(encoding_error_text(&err).as_str());
        assert(message@.subrange(0, "JPEG encode error: "@.len() as int)
            =~= "JPEG encode error: "@);
        Error::ParseError(message)
    }
}

impl vstd::std_specs::convert::FromSpecImpl<EncodingError> for Error {
    /// The message holds the encoder's own words, which have no model here.
    open spec fn obeys_from_spec() -> bool {
        false
    }

    open spec fn from_spec(err: EncodingError) -> Error {
        arbitrary()
    }
}

} // verus!
