//! Codec for the obfuscated message archives of a handheld game's text
//! engine: binary archive on one side, editable text on the other.
//!
//! An archive holds a key and a table of messages. A message is a
//! sequence of 16-bit code units, encrypted with a keystream that the
//! position of the message seeds, and read through a character map.
//!
//! - [`keystream`]: the two XOR keystreams.
//! - [`charmap`]: the character map and how it is built.
//! - [`trainer`], [`command`], [`message`]: what the tokens of a message
//!   mean, in both directions.
//! - [`archive`], [`bytes`]: the binary layout.
//! - [`decode`], [`encode`]: the functions that convert.
//! - [`serializer`], [`json`]: a decoded archive as a text file and as
//!   the records of a JSON file.
//! - [`diag`]: the warnings that the functions report.
//!
//! Every function states what it returns over the mathematical functions
//! of these modules, and Verus proves that it does, that it never reads
//! outside its input and that its arithmetic never overflows.
use vstd::prelude::*;

pub mod archive;
pub mod bytes;
pub mod charmap;
pub mod command;
pub mod decode;
pub mod diag;
pub mod encode;
pub mod json;
pub mod keystream;
pub mod message;
pub mod serializer;
pub mod text;
pub mod trainer;

verus! {

/// Options of one conversion run.
#[derive(Clone, Debug, PartialEq, Eq)]
pub struct Settings {
    /// Read or write JSON in place of plain text.
    pub json: bool,
    /// Language key of the JSON field to read or write.
    pub lang: String,
    /// Skip a file whose destination is not older than its source.
    pub newer_only: bool,
    /// Use the legacy syntax for commands, trainer names and the key line.
    pub msgenc_format: bool,
}

} // verus!
