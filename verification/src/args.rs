//! The commands of the `pngme` program and their arguments, as plain data.

use vstd::prelude::*;

verus! {

/// A path of the file system, from the standard library. It is carried as
/// an opaque value: nothing in this crate opens a file.
#[verifier::external_type_specification]
#[verifier::external_body]
pub struct ExPathBuf(std::path::PathBuf);

/// A command line: one command with its arguments.
#[derive(Debug)]
pub struct Cli {
    /// The command.
    pub commands: PngMeArgs,
}

/// The four commands.
#[derive(Debug)]
pub enum PngMeArgs {
    /// Hide a message in a file.
    Encode(EncodeArgs),
    /// Show the message hidden in a file.
    Decode(DecodeArgs),
    /// Take a message out of a file.
    Remove(RemoveArgs),
    /// List the chunks of a file.
    Print(PrintArgs),
}

/// The arguments of `encode`.
#[derive(Debug)]
pub struct EncodeArgs {
    /// The file to read.
    pub src_path: std::path::PathBuf,
    /// The type code of the chunk that will hold the message.
    pub chunk_type: String,
    /// The message.
    pub message: String,
    /// The file to write, if any.
    pub output_path: Option<std::path::PathBuf>,
}

/// The arguments of `decode`.
#[derive(Debug)]
pub struct DecodeArgs {
    /// The file to read.
    pub src_path: std::path::PathBuf,
    /// The type code of the chunk that holds the message.
    pub chunk_type: String,
}

/// The arguments of `remove`.
#[derive(Debug)]
pub struct RemoveArgs {
    /// The file to read.
    pub src_path: std::path::PathBuf,
    /// The type code of the chunk to take out.
    pub chunk_type: String,
}

/// The arguments of `print`.
#[derive(Debug)]
pub struct PrintArgs {
    /// The file to read.
    pub src_path: std::path::PathBuf,
}

} // verus!
