//! Messages: a sequence of code units on one side, a line of text on the
//! other. A message is read token by token, from left to right.
use crate::charmap::CharmapView;
use crate::command::{
    spec_decode_command, spec_encode_command, spec_encode_command_legacy, spec_escape,
    COMMAND_MARKER,
};
use crate::diag::{spec_warning, Outcome, Token, Warning, WarningKind};
use crate::text::{spec_first, spec_parse_radix, spec_starts_with, CharClass};
use crate::trainer::{spec_decode_trainer_name, spec_encode_trainer_name, TRAINER_MARKER};
use vstd::prelude::*;

verus! {

/// The code unit that ends every message.
pub const TERMINATOR: u16 = 0xFFFF;

/// The code unit that stands for what could not be encoded.
pub const PLACEHOLDER: u16 = 0x0000;

/// One placeholder code, with a warning of kind `kind` at `pos`.
pub open spec fn spec_placeholder(kind: WarningKind, pos: int, next: int) -> Token<u16> {
    Token { out: seq![PLACEHOLDER], next, warnings: seq![spec_warning(kind, pos)] }
}

/// One code without a warning.
pub open spec fn spec_one_code(code: u16, next: int) -> Token<u16> {
    Token { out: seq![code], next, warnings: Seq::empty() }
}

/// The token that begins with the `[` at `pos`: the alias up to and
/// including the next `]`, if the character map holds it.
pub open spec fn spec_encode_alias(charmap: CharmapView, text: Seq<char>, pos: int) -> Token<u16> {
    let close = spec_first(text, pos + 1, CharClass::Is(']'));
    if close >= text.len() {
        spec_placeholder(WarningKind::UnmatchedBracket, pos, text.len() as int)
    } else {
        let alias = text.subrange(pos, close + 1);
        if charmap.encode.contains_key(alias) {
            spec_one_code(charmap.encode[alias], close + 1)
        } else {
            spec_placeholder(WarningKind::UnknownAlias, pos, close + 1)
        }
    }
}

/// The token that begins with the `\` at `pos`: `\x` and four characters
/// that write a code in hexadecimal, or a two-character escape that the
/// character map holds.
pub open spec fn spec_encode_escape(charmap: CharmapView, text: Seq<char>, pos: int) -> Token<u16> {
    if pos + 1 >= text.len() {
        spec_placeholder(WarningKind::IncompleteEscape, pos, text.len() as int)
    } else if text[pos + 1] == 'x' {
        if pos + 6 > text.len() {
            spec_placeholder(WarningKind::IncompleteEscape, pos, text.len() as int)
        } else {
            match spec_parse_radix(text.subrange(pos + 2, pos + 6), 16) {
                Some(value) => spec_one_code((value % 65536) as u16, pos + 6),
                None => spec_placeholder(WarningKind::InvalidEscape, pos, pos + 6),
            }
        }
    } else {
        let escape = seq!['\\', text[pos + 1]];
        if charmap.encode.contains_key(escape) {
            spec_one_code(charmap.encode[escape], pos + 2)
        } else {
            spec_placeholder(WarningKind::UnknownEscape, pos, pos + 2)
        }
    }
}

/// The token that begins with the `{` at `pos`: a trainer name or a
/// command, up to the next `}`. A legacy trainer name, `{TRNAME}`, takes
/// the rest of the message for the name.
pub open spec fn spec_encode_braces(
    charmap: CharmapView,
    text: Seq<char>,
    pos: int,
    legacy: bool,
) -> Token<u16> {
    let close = spec_first(text, pos + 1, CharClass::Is('}'));
    let body = text.subrange(pos + 1, close);
    if close >= text.len() {
        spec_placeholder(WarningKind::UnmatchedBrace, pos, text.len() as int)
    } else if body.len() == 0 {
        spec_placeholder(WarningKind::EmptyCommand, pos, close + 1)
    } else if spec_starts_with(body, "TRAINER_NAME:"@) {
        let name = spec_encode_trainer_name(charmap, text.subrange(pos + 14, close), pos + 14);
        Token { out: name.out, next: close + 1, warnings: name.warnings }
    } else if legacy && spec_starts_with(body, "TRNAME"@) {
        let name = spec_encode_trainer_name(
            charmap,
            text.subrange(close + 1, text.len() as int),
            close + 1,
        );
        Token { out: name.out, next: text.len() as int, warnings: name.warnings }
    } else if legacy {
        let command = spec_encode_command_legacy(charmap, body, pos + 1);
        Token { out: command.out, next: close + 1, warnings: command.warnings }
    } else {
        let command = spec_encode_command(charmap, body, pos + 1);
        Token { out: command.out, next: close + 1, warnings: command.warnings }
    }
}

/// The token at `pos`. A character that the map holds by itself is its
/// code, whatever the character. Otherwise `[` begins an alias, `\` an
/// escape and `{` a command or a trainer name; any other character is
/// replaced by the placeholder.
pub open spec fn spec_encode_token(
    charmap: CharmapView,
    text: Seq<char>,
    pos: int,
    legacy: bool,
) -> Token<u16> {
    let c = text[pos];
    if charmap.encode.contains_key(seq![c]) {
        spec_one_code(charmap.encode[seq![c]], pos + 1)
    } else if c == '[' {
        spec_encode_alias(charmap, text, pos)
    } else if c == '\\' {
        spec_encode_escape(charmap, text, pos)
    } else if c == '{' {
        spec_encode_braces(charmap, text, pos, legacy)
    } else {
        spec_placeholder(WarningKind::UnknownCharacter, pos, pos + 1)
    }
}

/// The codes and warnings of the text from `pos` on, the terminator included.
pub open spec fn spec_encode_from(
    charmap: CharmapView,
    text: Seq<char>,
    pos: int,
    legacy: bool,
) -> Outcome<u16>
    decreases text.len() - pos,
{
    if pos < 0 || pos >= text.len() {
        Outcome { out: seq![TERMINATOR], warnings: Seq::empty() }
    } else {
        let token = spec_encode_token(charmap, text, pos, legacy);
        if token.next <= pos {
            Outcome { out: token.out + seq![TERMINATOR], warnings: token.warnings }
        } else {
            let rest = spec_encode_from(charmap, text, token.next, legacy);
            Outcome { out: token.out + rest.out, warnings: token.warnings + rest.warnings }
        }
    }
}

/// What encoding a message gives: the codes of its tokens, then the
/// terminator `0xFFFF`; and the warnings, each at the position of the
/// token it is about.
pub open spec fn spec_encode_message(charmap: CharmapView, text: Seq<char>, legacy: bool) -> Outcome<
    u16,
> {
    spec_encode_from(charmap, text, 0, legacy)
}

/// The token at `pos` of a code sequence, which is not the terminator: a
/// command, a trainer name, the text of a code that the character map
/// holds, or the code as an escape.
pub open spec fn spec_decode_token(
    charmap: CharmapView,
    codes: Seq<u16>,
    pos: int,
    legacy: bool,
) -> Token<char> {
    let code = codes[pos];
    let tail = codes.subrange(pos, codes.len() as int);
    if code == COMMAND_MARKER {
        let command = spec_decode_command(charmap, tail, legacy, pos);
        Token { out: command.out, next: pos + command.next, warnings: command.warnings }
    } else if code == TRAINER_MARKER {
        let name = spec_decode_trainer_name(charmap, tail, legacy, pos);
        Token { out: name.out, next: pos + name.next, warnings: name.warnings }
    } else if charmap.decode.contains_key(code) {
        Token { out: charmap.decode[code], next: pos + 1, warnings: Seq::empty() }
    } else {
        Token {
            out: spec_escape(code),
            next: pos + 1,
            warnings: seq![spec_warning(WarningKind::UnknownCode, pos)],
        }
    }
}

/// The text and warnings of the codes from `pos` on. The terminator ends
/// the message; more than one code unit after it is reported and ignored.
pub open spec fn spec_decode_from(
    charmap: CharmapView,
    codes: Seq<u16>,
    pos: int,
    legacy: bool,
) -> Outcome<char>
    decreases codes.len() - pos,
{
    if pos < 0 || pos >= codes.len() {
        Outcome { out: Seq::empty(), warnings: Seq::empty() }
    } else if codes[pos] == TERMINATOR {
        Outcome {
            out: Seq::empty(),
            warnings: if codes.len() - pos - 1 > 1 {
                seq![spec_warning(WarningKind::TrailingData, pos)]
            } else {
                Seq::empty()
            },
        }
    } else {
        let token = spec_decode_token(charmap, codes, pos, legacy);
        if token.next <= pos || token.next >= codes.len() {
            Outcome { out: token.out, warnings: token.warnings }
        } else {
            let rest = spec_decode_from(charmap, codes, token.next, legacy);
            Outcome { out: token.out + rest.out, warnings: token.warnings + rest.warnings }
        }
    }
}

/// What decoding a message gives: the text of its tokens up to the
/// terminator, and the warnings, each at the position of the code unit it
/// is about.
pub open spec fn spec_decode_message(charmap: CharmapView, codes: Seq<u16>, legacy: bool) -> Outcome<
    char,
> {
    spec_decode_from(charmap, codes, 0, legacy)
}

/// Every encoded message ends with the terminator.
pub proof fn lemma_encode_ends(charmap: CharmapView, text: Seq<char>, pos: int, legacy: bool)
    ensures
        spec_encode_from(charmap, text, pos, legacy).out.len() > 0,
        spec_encode_from(charmap, text, pos, legacy).out.last() == TERMINATOR,
    decreases text.len() - pos,
{
    if 0 <= pos < text.len() {
        let token = spec_encode_token(charmap, text, pos, legacy);
        if token.next > pos {
            lemma_encode_ends(charmap, text, token.next, legacy);
        }
    }
}

/// Whether a character goes through both directions unchanged: the map
/// holds it by itself, its code is none of the three that the format
/// keeps for itself, and the map gives the character back for the code.
pub open spec fn spec_plain_char(charmap: CharmapView, c: char) -> bool {
    &&& charmap.encode.contains_key(seq![c])
    &&& charmap.encode[seq![c]] != TERMINATOR
    &&& charmap.encode[seq![c]] != COMMAND_MARKER
    &&& charmap.encode[seq![c]] != TRAINER_MARKER
    &&& charmap.decode.contains_key(charmap.encode[seq![c]])
    &&& charmap.decode[charmap.encode[seq![c]]] == seq![c]
}

/// Whether every character of a text goes through both directions unchanged.
pub open spec fn spec_plain_text(charmap: CharmapView, text: Seq<char>) -> bool {
    forall|i: int| 0 <= i < text.len() ==> spec_plain_char(charmap, #[trigger] text[i])
}

/// The code of each character of a text.
pub open spec fn spec_plain_codes(charmap: CharmapView, text: Seq<char>) -> Seq<u16> {
    Seq::new(text.len(), |i: int| charmap.encode[seq![text[i]]])
}

/// A text of plain characters encodes to the code of each character and
/// the terminator, without a warning.
pub proof fn lemma_encode_plain(charmap: CharmapView, text: Seq<char>, pos: int, legacy: bool)
    requires
        spec_plain_text(charmap, text),
        0 <= pos <= text.len(),
    ensures
        spec_encode_from(charmap, text, pos, legacy).out == spec_plain_codes(
            charmap,
            text,
        ).subrange(pos, text.len() as int) + seq![TERMINATOR],
        spec_encode_from(charmap, text, pos, legacy).warnings == Seq::<Warning>::empty(),
    decreases text.len() - pos,
{
    let codes = spec_plain_codes(charmap, text);
    let here = spec_encode_from(charmap, text, pos, legacy);
    if pos < text.len() {
        lemma_encode_plain(charmap, text, pos + 1, legacy);
        assert(spec_plain_char(charmap, text[pos]));
        assert(here.out =~= codes.subrange(pos, text.len() as int) + seq![TERMINATOR]);
        assert(here.warnings =~= Seq::<Warning>::empty());
    } else {
        assert(here.out =~= codes.subrange(pos, text.len() as int) + seq![TERMINATOR]);
    }
}

/// The codes of a text of plain characters, with the terminator, decode
/// to the text, without a warning.
pub proof fn lemma_decode_plain(charmap: CharmapView, text: Seq<char>, pos: int, legacy: bool)
    requires
        spec_plain_text(charmap, text),
        0 <= pos <= text.len(),
    ensures
        spec_decode_from(
            charmap,
            spec_plain_codes(charmap, text) + seq![TERMINATOR],
            pos,
            legacy,
        ).out == text.subrange(pos, text.len() as int),
        spec_decode_from(
            charmap,
            spec_plain_codes(charmap, text) + seq![TERMINATOR],
            pos,
            legacy,
        ).warnings == Seq::<Warning>::empty(),
    decreases text.len() - pos,
{
    let codes = spec_plain_codes(charmap, text) + seq![TERMINATOR];
    let here = spec_decode_from(charmap, codes, pos, legacy);
    if pos < text.len() {
        lemma_decode_plain(charmap, text, pos + 1, legacy);
        assert(spec_plain_char(charmap, text[pos]));
        assert(codes[pos] == charmap.encode[seq![text[pos]]]);
        let token = spec_decode_token(charmap, codes, pos, legacy);
        assert(token.out == seq![text[pos]]);
        assert(token.next == pos + 1);
        assert(here.out =~= text.subrange(pos, text.len() as int));
        assert(here.warnings =~= Seq::<Warning>::empty());
    } else {
        assert(codes[pos] == TERMINATOR);
        assert(here.out =~= text.subrange(pos, text.len() as int));
    }
}

/// A message of plain characters round-trips: decoding what encoding
/// gave gives the message back, and neither direction warns.
pub proof fn lemma_message_round_trip(charmap: CharmapView, text: Seq<char>, legacy: bool)
    requires
        spec_plain_text(charmap, text),
    ensures
        spec_decode_message(
            charmap,
            spec_encode_message(charmap, text, legacy).out,
            legacy,
        ).out == text,
        spec_encode_message(charmap, text, legacy).warnings == Seq::<Warning>::empty(),
        spec_decode_message(
            charmap,
            spec_encode_message(charmap, text, legacy).out,
            legacy,
        ).warnings == Seq::<Warning>::empty(),
{
    lemma_encode_plain(charmap, text, 0, legacy);
    lemma_decode_plain(charmap, text, 0, legacy);
    let codes = spec_plain_codes(charmap, text);
    assert(codes.subrange(0, text.len() as int) =~= codes);
    assert(text.subrange(0, text.len() as int) =~= text);
}

} // verus!
