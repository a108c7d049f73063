//! The error type shared by the JPEG and PNG operations.

use vstd::prelude::*;

verus! {

/// `std::io::Error`, carried through unopened.
#[verifier::external_type_specification]
#[verifier::external_body]
pub struct ExIoError(std::io::Error);

/// Why an operation gave no output.
#[derive(Debug)]
pub enum Error {
    /// The bytes are not an image of the expected format, or a text field
    /// breaks the rules of its container.
    InvalidFormat(String),
    /// A failure of a byte source, passed on as it came.
    Io(std::io::Error),
    /// The stream lost its structure part way through.
    ParseError(String),
}

/// The three kinds of [`Error`], without their payload.
#[derive(Debug, Clone, Copy, PartialEq, Eq, Structural)]
pub enum ErrorKind {
    InvalidFormat,
    Io,
    ParseError,
}

/// The text that `Display` gives for an I/O error.
#[verifier::external_body]
fn io_error_text(e: &std::io::Error) -> String {
    format!("{}", e)
}

impl Error {
    /// The I/O error behind this error, if it has one.
    pub fn source(&self) -> (res: Option<&std::io::Error>)
        ensures
            res is Some <==> self is Io,
            res is Some ==> *res->Some_0 == self->Io_0,
    {
        match self {
            Error::Io(e) => Some(e),
            _ => None,
        }
    }

    /// The error in words: its kind, a colon and the details.
    pub fn describe(&self) -> (text: String)
        ensures
            match self {
                Error::InvalidFormat(message) => text@ == "Invalid format: "@ + message@,
                Error::Io(_) => "IO error: "@.is_prefix_of(text@),
                Error::ParseError(message) => text@ == "Parse error: "@ + message@,
            },
    {
        match self {
            Error::InvalidFormat(message) => {
                let mut text = "Invalid format: ".to_string();
                text.append(message.as_str());
                text
            },
            Error::Io(e) => {
                let mut text = "IO error: ".to_string();
                let details = io_error_text(e);
                text.append(details.as_str());
                assert(text@.subrange(0, "IO error: "@.len() as int) =~= "IO error: "@);
                text
            },
            Error::ParseError(message) => {
                let mut text = "Parse error: ".to_string();
                text.append(message.as_str());
                text
            },
        }
    }

    /// The kind of this error.
    pub open spec fn spec_kind(&self) -> ErrorKind {
        match self {
            Error::InvalidFormat(_) => ErrorKind::InvalidFormat,
            Error::Io(_) => ErrorKind::Io,
            Error::ParseError(_) => ErrorKind::ParseError,
        }
    }

    /// The kind of this error.
    #[verifier::when_used_as_spec(spec_kind)]
    pub fn kind(&self) -> (k: ErrorKind)
        ensures
            k == self.spec_kind(),
    {
        match self {
            Error::InvalidFormat(_) => ErrorKind::InvalidFormat,
            Error::Io(_) => ErrorKind::Io,
            Error::ParseError(_) => ErrorKind::ParseError,
        }
    }
}

impl From<std::io::Error> for Error {
    fn from(err: std::io::Error) -> (res: Error) {
        Error::Io(err)
    }
}

impl vstd::std_specs::convert::FromSpecImpl<std::io::Error> for Error {
    open spec fn obeys_from_spec() -> bool {
        true
    }

    open spec fn from_spec(err: std::io::Error) -> Error {
        Error::Io(err)
    }
}

/// What a result that carries bytes says, with the payload of an error left
/// out.
pub open spec fn bytes_outcome(res: Result<Vec<u8>, Error>) -> Result<Seq<u8>, ErrorKind> {
    match res {
        Ok(bytes) => Ok(bytes@),
        Err(e) => Err(e.kind()),
    }
}

/// What a result that may carry a text says, with the payload of an error
/// left out.
pub open spec fn text_outcome(res: Result<Option<String>, Error>) -> Result<
    Option<Seq<char>>,
    ErrorKind,
> {
    match res {
        Ok(Some(text)) => Ok(Some(text@)),
        Ok(None) => Ok(None),
        Err(e) => Err(e.kind()),
    }
}

} // verus!
