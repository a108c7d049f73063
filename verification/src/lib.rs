//! Metadata rewriting for JPEG and PNG byte streams.
//!
//! Every operation takes a whole image as bytes and returns a freshly built
//! stream, or a text read from one. A JPEG stream is modelled as a run of
//! marker segments and a PNG stream as a run of chunks; the rules of each
//! operation are stated over those runs, the executable code is proved to
//! follow them, and what the operations do one after the other is proved
//! from the rules.
//!
//! * [`jpeg`]: `clean_metadata`, `read_comment`, `write_comment`.
//! * [`png`]: `clean_chunks`, `read_text_chunks`, `add_text_chunk`.
//! * [`exif`]: the orientation tag of an Exif block.
//! * [`codecs`]: errors of the JPEG decoder and encoder as errors of this
//!   library.
//! * [`decoders`], [`checksum`], [`text`]: the image decoders, the CRC-32
//!   checksum and lenient UTF-8 decoding, which are called and not proved.
//!   Their results go by a name; the contracts say nothing else of them.

pub mod bytes;
pub mod checksum;
pub mod codecs;
pub mod decoders;
pub mod error;
pub mod exif;
pub mod jpeg;
pub mod png;
pub mod sequences;
pub mod text;

pub use crate::error::Error;
pub use crate::error::ErrorKind;
