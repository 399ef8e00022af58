//! What each command of the program computes from the bytes of a file.
//!
//! Reading and writing files and printing are left to the caller: these
//! functions take the bytes that were read and return what is to be written
//! or shown.

use crate::args::{DecodeArgs, EncodeArgs, PngMeArgs, PrintArgs, RemoveArgs};
use crate::chunk::{Chunk, ChunkView};
use crate::chunk_type::{is_type_text, ChunkType};
use crate::error::PngError;
use crate::png::{decode_png, first_of_type, png_bytes, png_text, Png};
use crate::text::{ascii_bytes, ascii_text};
use std::convert::TryFrom;
use vstd::prelude::*;
use vstd::slice::slice_to_vec;
use vstd::utf8::{decode_utf8, encode_utf8, valid_utf8};

verus! {

/// What a command hands back to the program.
pub enum Outcome {
    /// The bytes of the container with the message in it.
    Encoded(Vec<u8>),
    /// The message that was found, if a chunk of the type was there.
    Decoded(Option<String>),
    /// The container without the chunk, and the message that was in it.
    Removed(Png, String),
    /// The listing of the container.
    Printed(String),
}

/// The bytes that `encode` returns: those of the container that `file`
/// encodes, with one more chunk at its end, whose type code is spelled by
/// `code` and whose payload is `message` in UTF-8. An invalid type code is
/// reported before the file is looked at.
pub open spec fn spec_encode(code: Seq<char>, message: Seq<char>, file: Seq<u8>) -> Result<
    Seq<u8>,
    PngError,
> {
    if !is_type_text(code) {
        Err(PngError::ChunkTypeError)
    } else {
        match decode_png(file) {
            Err(e) => Err(e),
            Ok(chunks) => Ok(
                png_bytes(chunks.push(ChunkView::new(ascii_bytes(code), encode_utf8(message)))),
            ),
        }
    }
}

/// `r` is the text that `data` encodes in UTF-8, or the error for bytes
/// that are not UTF-8.
pub open spec fn is_text_of(data: Seq<u8>, r: Result<String, PngError>) -> bool {
    if valid_utf8(data) {
        r matches Ok(s) && s@ == decode_utf8(data)
    } else {
        r matches Err(e) && e is FromUTF8Error
    }
}

/// `r` is what `decode` returns: the failure of decoding `file`; or nothing
/// where no chunk has the type; or the payload of the first chunk of the
/// type as text; or the error for a payload that is not UTF-8.
pub open spec fn is_decoded(code: Seq<char>, file: Seq<u8>, r: Result<Option<String>, PngError>)
    -> bool {
    match decode_png(file) {
        Err(e) => r matches Err(f) && f == e,
        Ok(chunks) => match first_of_type(chunks, code) {
            None => r matches Ok(None),
            Some(i) => if valid_utf8(chunks[i].data) {
                r matches Ok(Some(s)) && s@ == decode_utf8(chunks[i].data)
            } else {
                r matches Err(e) && e is FromUTF8Error
            },
        },
    }
}

/// `r` is what `remove` returns: the failure of decoding `file`; or the
/// error for a type that no chunk has; or the container without the first
/// chunk of the type, with that chunk's payload as text; or the error for
/// a payload that is not UTF-8.
pub open spec fn is_removed(code: Seq<char>, file: Seq<u8>, r: Result<(Png, String), PngError>)
    -> bool {
    match decode_png(file) {
        Err(e) => r matches Err(f) && f == e,
        Ok(chunks) => match first_of_type(chunks, code) {
            None => r matches Err(e) && e == PngError::NotFoundChunkType,
            Some(i) => if valid_utf8(chunks[i].data) {
                r matches Ok((png, s)) && png@ == chunks.remove(i) && s@ == decode_utf8(
                    chunks[i].data,
                )
            } else {
                r matches Err(e) && e is FromUTF8Error
            },
        },
    }
}

/// `r` is what `print` returns: the failure of decoding `file`, or the
/// listing of the container.
pub open spec fn is_printed(file: Seq<u8>, r: Result<String, PngError>) -> bool {
    match decode_png(file) {
        Err(e) => r matches Err(f) && f == e,
        Ok(chunks) => r matches Ok(s) && s@ == ascii_text(png_text(chunks)),
    }
}

/// `r` is what `run` returns for `command` on a file with the bytes `file`.
pub open spec fn is_outcome(command: PngMeArgs, file: Seq<u8>, r: Result<Outcome, PngError>)
    -> bool {
    match command {
        PngMeArgs::Encode(args) => match spec_encode(args.chunk_type@, args.message@, file) {
            Err(e) => r matches Err(f) && f == e,
            Ok(bytes) => r matches Ok(Outcome::Encoded(b)) && b@ == bytes,
        },
        PngMeArgs::Decode(args) => match r {
            Ok(Outcome::Decoded(message)) => is_decoded(args.chunk_type@, file, Ok(message)),
            Ok(_) => false,
            Err(e) => is_decoded(args.chunk_type@, file, Err(e)),
        },
        PngMeArgs::Remove(args) => match r {
            Ok(Outcome::Removed(png, message)) => is_removed(
                args.chunk_type@,
                file,
                Ok((png, message)),
            ),
            Ok(_) => false,
            Err(e) => is_removed(args.chunk_type@, file, Err(e)),
        },
        PngMeArgs::Print(_) => match r {
            Ok(Outcome::Printed(text)) => is_printed(file, Ok(text)),
            Ok(_) => false,
            Err(e) => is_printed(file, Err(e)),
        },
    }
}

/// The text of a payload.
fn text_of(data: &[u8]) -> (r: Result<String, PngError>)
    ensures
        is_text_of(data@, r),
{
    match String::from_utf8(slice_to_vec(data)) {
        Ok(s) => Ok(s),
        Err(e) => Err(PngError::FromUTF8Error(e)),
    }
}

/// Hides the message in the container that `file` encodes, in a new last
/// chunk of the given type, and returns the bytes of the result.
pub fn encode(args: &EncodeArgs, file: &[u8]) -> (r: Result<Vec<u8>, PngError>)
    ensures
        match spec_encode(args.chunk_type@, args.message@, file@) {
            Err(e) => r matches Err(f) && f == e,
            Ok(bytes) => r matches Ok(b) && b@ == bytes,
        },
{
    let chunk_type = match ChunkType::from_str(args.chunk_type.as_str()) {
        Ok(t) => t,
        Err(e) => { return Err(e); },
    };
    let data = slice_to_vec(args.message.as_str().as_bytes());
    let chunk = Chunk::new(chunk_type, data);
    let mut png = match Png::try_from(file) {
        Ok(png) => png,
        Err(e) => { return Err(e); },
    };
    png.append_chunk(chunk);
    Ok(png.as_bytes())
}

/// The message in the first chunk of the given type, if there is one.
pub fn decode(args: &DecodeArgs, file: &[u8]) -> (r: Result<Option<String>, PngError>)
    ensures
        is_decoded(args.chunk_type@, file@, r),
{
    let png = match Png::try_from(file) {
        Ok(png) => png,
        Err(e) => { return Err(e); },
    };
    match png.chunk_by_type(args.chunk_type.as_str()) {
        Some(chunk) => match text_of(chunk.data()) {
            Ok(s) => Ok(Some(s)),
            Err(e) => Err(e),
        },
        None => Ok(None),
    }
}

/// Takes the first chunk of the given type out of the container and
/// returns what is left together with the message that the chunk held.
pub fn remove(args: &RemoveArgs, file: &[u8]) -> (r: Result<(Png, String), PngError>)
    ensures
        is_removed(args.chunk_type@, file@, r),
{
    let mut png = match Png::try_from(file) {
        Ok(png) => png,
        Err(e) => { return Err(e); },
    };
    let chunk = match png.remove_chunk(args.chunk_type.as_str()) {
        Ok(chunk) => chunk,
        Err(e) => { return Err(e); },
    };
    match text_of(chunk.data()) {
        Ok(s) => Ok((png, s)),
        Err(e) => Err(e),
    }
}

/// The listing of the container that `file` encodes.
pub fn print(args: &PrintArgs, file: &[u8]) -> (r: Result<String, PngError>)
    ensures
        is_printed(file@, r),
{
    match Png::try_from(file) {
        Ok(png) => Ok(png.to_string()),
        Err(e) => Err(e),
    }
}

/// Carries out `command` on the bytes of its file.
pub fn run(command: &PngMeArgs, file: &[u8]) -> (r: Result<Outcome, PngError>)
    ensures
        is_outcome(*command, file@, r),
{
    match command {
        PngMeArgs::Encode(args) => match encode(args, file) {
            Ok(bytes) => Ok(Outcome::Encoded(bytes)),
            Err(e) => Err(e),
        },
        PngMeArgs::Decode(args) => match decode(args, file) {
            Ok(message) => Ok(Outcome::Decoded(message)),
            Err(e) => Err(e),
        },
        PngMeArgs::Remove(args) => match remove(args, file) {
            Ok((png, message)) => Ok(Outcome::Removed(png, message)),
            Err(e) => Err(e),
        },
        PngMeArgs::Print(args) => match print(args, file) {
            Ok(text) => Ok(Outcome::Printed(text)),
            Err(e) => Err(e),
        },
    }
}

} // verus!
