//! The closed set of failures that the container engine reports.

use vstd::prelude::*;
use vstd::std_specs::convert::FromSpecImpl;

verus! {

/// The I/O failure that a caller reading or writing a file hands on unchanged.
/// It is carried as an opaque value.
#[verifier::external_type_specification]
#[verifier::external_body]
pub struct ExIoError(std::io::Error);

/// The failure that `String::from_utf8` reports for bytes that are not UTF-8.
/// It is carried as an opaque value.
#[verifier::external_type_specification]
#[verifier::external_body]
pub struct ExFromUtf8Error(std::string::FromUtf8Error);

/// Every way in which an operation of this crate can fail.
#[derive(Debug)]
pub enum PngError {
    /// A type code is not made of exactly four ASCII letters.
    ChunkTypeError,
    /// A chunk record is shorter than its fixed twelve bytes of framing, or
    /// shorter than its own length field announces.
    ChunkError,
    /// The checksum stored in a chunk record is not the checksum of its
    /// type code and payload.
    CRCError,
    /// A chunk header could not be read.
    ChunkHeaderError,
    /// No chunk of the requested type is in the container.
    NotFoundChunkType,
    /// Reading or writing a file failed.
    IOError(std::io::Error),
    /// A payload is not valid UTF-8.
    FromUTF8Error(std::string::FromUtf8Error),
    /// A buffer does not begin with the eight signature bytes.
    InValidPngHeader,
}

impl PngError {
    /// The message that describes the error.
    pub open spec fn spec_message(&self) -> Seq<char> {
        match self {
            PngError::ChunkTypeError => "Invalid chunk type"@,
            PngError::ChunkError => "Invalid chunk block"@,
            PngError::CRCError => "CRC rrror"@,
            PngError::ChunkHeaderError => "Chunk header error"@,
            PngError::NotFoundChunkType => "No such chunk type"@,
            PngError::IOError(_) => "IO error"@,
            PngError::FromUTF8Error(_) => "From UTF8 Error"@,
            PngError::InValidPngHeader => "Png Header Error"@,
        }
    }

    /// The message that describes the error.
    pub fn to_string(&self) -> (r: String)
        ensures
            r@ == self.spec_message(),
    {
        let message: &str = match self {
            PngError::ChunkTypeError => "Invalid chunk type",
            PngError::ChunkError => "Invalid chunk block",
            PngError::CRCError => "CRC rrror",
            PngError::ChunkHeaderError => "Chunk header error",
            PngError::NotFoundChunkType => "No such chunk type",
            PngError::IOError(_) => "IO error",
            PngError::FromUTF8Error(_) => "From UTF8 Error",
            PngError::InValidPngHeader => "Png Header Error",
        };
        message.to_owned()
    }
}

impl FromSpecImpl<std::io::Error> for PngError {
    open spec fn obeys_from_spec() -> bool {
        true
    }

    open spec fn from_spec(e: std::io::Error) -> Self {
        PngError::IOError(e)
    }
}

impl From<std::io::Error> for PngError {
    /// An I/O failure as an error of this crate.
    fn from(e: std::io::Error) -> (r: Self) {
        PngError::IOError(e)
    }
}

impl FromSpecImpl<std::string::FromUtf8Error> for PngError {
    open spec fn obeys_from_spec() -> bool {
        true
    }

    open spec fn from_spec(e: std::string::FromUtf8Error) -> Self {
        PngError::FromUTF8Error(e)
    }
}

impl From<std::string::FromUtf8Error> for PngError {
    /// A failed UTF-8 decoding as an error of this crate.
    fn from(e: std::string::FromUtf8Error) -> (r: Self) {
        PngError::FromUTF8Error(e)
    }
}

} // verus!
