use vstd::prelude::*;

verus! {

/// The class of an input/output failure, as far as the codecs care about it.
#[derive(Debug, Clone, Copy, PartialEq, Eq)]
pub enum IoErrorKind {
    /// The input ended before a fixed-size read could be completed.
    UnexpectedEof,
    /// The read was interrupted.
    Interrupted,
    /// The bytes read were not valid UTF-8 where text was expected.
    InvalidData,
    /// Any other failure of the underlying reader or writer.
    Other,
}

/// An input/output failure: its class and a human-readable description.
#[derive(Debug, Clone, PartialEq, Eq)]
pub struct IoError {
    pub kind: IoErrorKind,
    pub message: String,
}

/// The errors of this library.
#[non_exhaustive]
#[derive(Debug, Clone, PartialEq, Eq)]
pub enum Error {
    Io(IoError),
    UnknownEventKind(String),
    InvalidMemWidth(u8),
    InvalidInfoIndex(u8),
    Parse(String),
    InvalidNumber(String),
    UnknownSource(u8),
    InvalidFileName,
    InvalidFileExtension(String),
}

pub type Result<T> = core::result::Result<T, Error>;

/// The error is an I/O failure of one of the two classes that mark the end
/// of a stream.
pub open spec fn spec_is_eof(e: Error) -> bool {
    match e {
        Error::Io(io) => io.kind == IoErrorKind::UnexpectedEof || io.kind == IoErrorKind::Interrupted,
        _ => false,
    }
}

/// The error reports input that ended in the middle of a fixed-size read.
pub open spec fn is_truncation(e: Error) -> bool {
    e matches Error::Io(io) && io.kind == IoErrorKind::UnexpectedEof
}

impl Error {
    /// Whether this error marks the end of the input stream.
    pub fn is_eof(&self) -> (r: bool)
        ensures
            r == spec_is_eof(*self),
    {
        match self {
            Error::Io(io) => match io.kind {
                IoErrorKind::UnexpectedEof => true,
                IoErrorKind::Interrupted => true,
                _ => false,
            },
            _ => false,
        }
    }
}

} // verus!

verus! {

/// How a decoding step can fail on its input: the input ended too early, it
/// holds something that the format does not allow, or text that is not
/// valid UTF-8.
#[derive(Debug, Clone, Copy, PartialEq, Eq)]
pub enum Fault {
    Truncated,
    Malformed,
    InvalidText,
}

/// The error reports the given fault: truncation as an unexpected end of
/// input, malformed input as a parse error.
pub open spec fn reports(e: Error, f: Fault) -> bool {
    match f {
        Fault::Truncated => is_truncation(e),
        Fault::Malformed => e is Parse,
        Fault::InvalidText => e matches Error::Io(io) && io.kind == IoErrorKind::InvalidData,
    }
}

/// A parse error with the given description.
pub fn parse_error(msg: &str) -> (e: Error)
    ensures
        e is Parse,
{
    Error::Parse(msg.to_owned())
}

/// The error for input that ended in the middle of a fixed-size read: an
/// unexpected end of input, described as "failed to fill whole buffer".
pub fn truncated_input() -> (e: Error)
    ensures
        is_truncation(e),
        reports(e, Fault::Truncated),
        e matches Error::Io(io) && io.message@ == "failed to fill whole buffer"@,
{
    let message = "failed to fill whole buffer";
    let e = Error::Io(IoError { kind: IoErrorKind::UnexpectedEof, message: message.to_owned() });
    e
}

} // verus!
