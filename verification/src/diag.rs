//! Warnings: what a codec call reports when it has replaced something it
//! could not read by a placeholder. A warning never stops a conversion.
use vstd::prelude::*;

verus! {

/// The condition that a warning reports.
#[derive(Clone, Copy, Debug, PartialEq, Eq)]
pub enum WarningKind {
    /// Decoding: more than one code unit follows the message terminator.
    TrailingData,
    /// Decoding: a code unit that the character map does not hold.
    UnknownCode,
    /// Decoding: a command that the code sequence ends in the middle of.
    TruncatedCommand,
    /// A command whose code (decoding) or name (encoding) the character
    /// map does not hold.
    UnknownCommand,
    /// Encoding: a character that the character map does not hold.
    UnknownCharacter,
    /// Encoding: a bracketed alias that the character map does not hold.
    UnknownAlias,
    /// Encoding: a `[` without its `]`.
    UnmatchedBracket,
    /// Encoding: `\x` followed by four characters that are no
    /// hexadecimal number.
    InvalidEscape,
    /// Encoding: a `\` at the end of the text, or `\x` with fewer than
    /// four characters after it.
    IncompleteEscape,
    /// Encoding: a two-character escape that the character map does not hold.
    UnknownEscape,
    /// Encoding: a `{` without its `}`.
    UnmatchedBrace,
    /// Encoding: a command without a name.
    EmptyCommand,
    /// Encoding: a command without its special byte.
    MalformedCommand,
}

/// One warning: what happened, and where in the input of the call that
/// reported it (a character position when encoding, a code-unit position
/// when decoding).
#[derive(Clone, Copy, Debug, PartialEq, Eq)]
pub struct Warning {
    pub kind: WarningKind,
    pub position: usize,
}

/// The warning of kind `kind` at position `position`.
pub open spec fn spec_warning(kind: WarningKind, position: int) -> Warning {
    Warning { kind, position: position as usize }
}

/// What a codec call gives: the output, and the warnings in the order in
/// which the input gave rise to them.
pub struct Outcome<T> {
    pub out: Seq<T>,
    pub warnings: Seq<Warning>,
}

/// What reading one token of the input gives: its output, where the next
/// token begins, and its warnings.
pub struct Token<T> {
    pub out: Seq<T>,
    pub next: int,
    pub warnings: Seq<Warning>,
}

} // verus!
