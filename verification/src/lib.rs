//! A container engine for the PNG chunk format.
//!
//! A byte stream is parsed into a sequence of typed, length-prefixed,
//! checksummed chunks; chunks can be looked up, appended and removed by their
//! four-letter type code; and the sequence is serialized back to bytes.
//! Every function carries a contract over a mathematical model of the data,
//! and the laws that relate decoding and encoding are proved beside them.

pub mod args;
pub mod bytes;
pub mod checksum;
pub mod chunk;
pub mod commands;
pub mod chunk_type;
pub mod error;
pub mod png;
pub mod text;
