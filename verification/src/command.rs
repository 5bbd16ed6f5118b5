//! Inline commands: a command code, a special byte folded into its low
//! byte, and parameters; written `{name, special, x, y}` in the
//! canonical syntax and `{name special, x, y}` in the legacy one.
use crate::charmap::CharmapView;
use crate::diag::{spec_warning, Outcome, Token, Warning, WarningKind};
use crate::text::{
    spec_decimal, spec_first, spec_hex4, spec_parse_code, spec_starts_with, spec_trim, CharClass,
};
use vstd::prelude::*;

verus! {

/// The code unit that opens a command.
pub const COMMAND_MARKER: u16 = 0xFFFE;

/// The part of a command code that names a family of commands.
pub const FAMILY_MASK: u16 = 0xFF00;

/// The part of a command code that holds the special byte of a family.
pub const SPECIAL_MASK: u16 = 0x00FF;

/// The pieces of `s` between its commas, from position `from` on, each
/// without the white space at its ends. There is always at least one.
pub open spec fn spec_split_trim(s: Seq<char>, from: int) -> Seq<Seq<char>>
    decreases s.len() - from,
{
    let comma = spec_first(s, from, CharClass::Is(','));
    if from < 0 || comma < from || comma >= s.len() {
        seq![spec_trim(s.subrange(from, s.len() as int))]
    } else {
        seq![spec_trim(s.subrange(from, comma))] + spec_split_trim(s, comma + 1)
    }
}

/// The runs of characters of `s`, from position `from` on, that are
/// neither white space nor commas.
pub open spec fn spec_tokens(s: Seq<char>, from: int) -> Seq<Seq<char>>
    decreases s.len() - from,
{
    let start = spec_first(s, from, CharClass::NotSeparator);
    let end = spec_first(s, start, CharClass::Separator);
    if from < 0 || start < from || start >= s.len() || end <= start || end > s.len() {
        Seq::empty()
    } else {
        seq![s.subrange(start, end)] + spec_tokens(s, end)
    }
}

/// The code unit of each token.
pub open spec fn spec_parse_codes(tokens: Seq<Seq<char>>) -> Seq<u16> {
    Seq::new(tokens.len(), |i: int| spec_parse_code(tokens[i]))
}

/// Whether the character map knows a command by this name.
pub open spec fn spec_command_known(charmap: CharmapView, name: Seq<char>) -> bool {
    charmap.command_codes.contains_key(name)
}

/// The code of a command name: the code that the character map holds for
/// the name; for a name that it does not hold, the name read as a number.
pub open spec fn spec_command_code(charmap: CharmapView, name: Seq<char>) -> u16 {
    if spec_command_known(charmap, name) {
        charmap.command_codes[name]
    } else {
        spec_parse_code(name)
    }
}

/// The warning for a command name that the character map does not hold.
pub open spec fn spec_command_name_warnings(charmap: CharmapView, name: Seq<char>, at: int) -> Seq<
    Warning,
> {
    if spec_command_known(charmap, name) {
        Seq::empty()
    } else {
        seq![spec_warning(WarningKind::UnknownCommand, at)]
    }
}

/// The number of parameters as the archive holds it: in 16 bits.
pub open spec fn spec_param_count(n: int) -> u16 {
    (n % 65536) as u16
}

/// What encoding the inside of a canonical command gives. The text is
/// split at its commas. The first piece names the command, the second is
/// the special byte, which is ORed into the command code, and the others
/// are the parameters. With fewer than two pieces the command is
/// replaced by the code `0`.
pub open spec fn spec_encode_command(charmap: CharmapView, s: Seq<char>, at: int) -> Outcome<u16> {
    let parts = spec_split_trim(s, 0);
    if parts.len() < 2 {
        Outcome { out: seq![0u16], warnings: seq![spec_warning(WarningKind::MalformedCommand, at)] }
    } else {
        let code = spec_command_code(charmap, parts[0]) | spec_parse_code(parts[1]);
        let params = parts.subrange(2, parts.len() as int);
        Outcome {
            out: seq![COMMAND_MARKER, code, spec_param_count(params.len() as int)]
                + spec_parse_codes(params),
            warnings: spec_command_name_warnings(charmap, parts[0], at),
        }
    }
}

/// What encoding the inside of a legacy command gives. The name is the
/// first run of characters that are no white space. The values are the
/// runs after it that are neither white space nor commas. Where the name
/// begins with `STRVAR_`, the first value is the special byte and is ORed
/// into the command code; all others are parameters. Text that is all
/// white space is replaced by the code `0`.
pub open spec fn spec_encode_command_legacy(charmap: CharmapView, s: Seq<char>, at: int) -> Outcome<
    u16,
> {
    let start = spec_first(s, 0, CharClass::NotSpace);
    if start >= s.len() {
        Outcome { out: seq![0u16], warnings: seq![spec_warning(WarningKind::EmptyCommand, at)] }
    } else {
        let end = spec_first(s, start, CharClass::Space);
        let name = s.subrange(start, end);
        let values = spec_tokens(s, end);
        let special = values.len() > 0 && spec_starts_with(name, "STRVAR_"@);
        let code = if special {
            spec_command_code(charmap, name) | spec_parse_code(values[0])
        } else {
            spec_command_code(charmap, name)
        };
        let params = if special {
            values.subrange(1, values.len() as int)
        } else {
            values
        };
        Outcome {
            out: seq![COMMAND_MARKER, code, spec_param_count(params.len() as int)]
                + spec_parse_codes(params),
            warnings: spec_command_name_warnings(charmap, name, at),
        }
    }
}

/// A code unit as an escape: `\x` and four hexadecimal digits.
pub open spec fn spec_escape(code: u16) -> Seq<char> {
    seq!['\\', 'x'] + spec_hex4(code)
}

/// Each parameter in decimal, with `, ` before it.
pub open spec fn spec_param_list(params: Seq<u16>) -> Seq<char>
    decreases params.len(),
{
    if params.len() == 0 {
        Seq::empty()
    } else {
        spec_param_list(params.drop_last()) + seq![',', ' '] + spec_decimal(params.last() as int)
    }
}

/// Whether a raw command code is read as a member of a family: the
/// character map does not hold the code itself, but holds the code with
/// its low byte cleared.
pub open spec fn spec_is_family(charmap: CharmapView, raw: u16) -> bool {
    !charmap.commands.contains_key(raw) && charmap.commands.contains_key(raw & FAMILY_MASK)
}

/// The code under which the name of a raw command code is looked up.
pub open spec fn spec_name_code(charmap: CharmapView, raw: u16) -> u16 {
    if spec_is_family(charmap, raw) {
        raw & FAMILY_MASK
    } else {
        raw
    }
}

/// The special byte of a raw command code: its low byte in a family, `0` otherwise.
pub open spec fn spec_special(charmap: CharmapView, raw: u16) -> u16 {
    if spec_is_family(charmap, raw) {
        raw & SPECIAL_MASK
    } else {
        0
    }
}

/// The name under which a command code is written: what the character
/// map holds, or `0x` and four hexadecimal digits.
pub open spec fn spec_command_name(charmap: CharmapView, code: u16) -> Seq<char> {
    if charmap.commands.contains_key(code) {
        charmap.commands[code]
    } else {
        seq!['0', 'x'] + spec_hex4(code)
    }
}

/// The values of a legacy command after its name: a space, then the
/// special byte if it is not zero and the parameters, separated by `, `;
/// nothing where there is no value.
pub open spec fn spec_legacy_values(special: u16, params: Seq<u16>) -> Seq<char> {
    if special != 0 {
        seq![' '] + spec_decimal(special as int) + spec_param_list(params)
    } else if params.len() > 0 {
        seq![' '] + spec_decimal(params[0] as int) + spec_param_list(
            params.subrange(1, params.len() as int),
        )
    } else {
        Seq::empty()
    }
}

/// The text of a command that the codes end in the middle of: the code
/// units that were read, as escapes. `codes` has fewer than `3 +
/// codes[2]` units.
pub open spec fn spec_truncated_command(codes: Seq<u16>) -> Seq<char> {
    if codes.len() < 2 {
        spec_escape(COMMAND_MARKER)
    } else if codes.len() < 3 {
        spec_escape(COMMAND_MARKER) + spec_escape(codes[1])
    } else {
        spec_escape(COMMAND_MARKER) + spec_escape(codes[1]) + spec_escape(codes[2])
    }
}

/// The values of a command after its name, in either syntax. The
/// canonical syntax writes the special byte always, with `, ` before it.
pub open spec fn spec_command_values(special: u16, params: Seq<u16>, legacy: bool) -> Seq<char> {
    if legacy {
        spec_legacy_values(special, params)
    } else {
        seq![',', ' '] + spec_decimal(special as int) + spec_param_list(params)
    }
}

/// The text of a complete command: `{`, the name, the values, `}`.
pub open spec fn spec_command_text(charmap: CharmapView, codes: Seq<u16>, legacy: bool) -> Seq<
    char,
> {
    seq!['{'] + spec_command_name(charmap, spec_name_code(charmap, codes[1]))
        + spec_command_values(
        spec_special(charmap, codes[1]),
        codes.subrange(3, 3 + codes[2]),
        legacy,
    ) + seq!['}']
}

/// The number of code units of the command at the head of `codes`: all
/// that a complete command has, `3 + codes[2]`, as soon as the number of
/// parameters can be read.
pub open spec fn spec_command_length(codes: Seq<u16>) -> int {
    if codes.len() < 2 {
        1
    } else if codes.len() < 3 {
        2
    } else {
        3 + codes[2]
    }
}

/// What decoding a command gives. `codes` begins with the marker; the raw
/// command code, the number of parameters and the parameters follow.
/// `next` is the number of code units used. Where the codes end before
/// the command does, what was read is written as escapes.
pub open spec fn spec_decode_command(
    charmap: CharmapView,
    codes: Seq<u16>,
    legacy: bool,
    at: int,
) -> Token<char> {
    if codes.len() < 3 || codes.len() < 3 + codes[2] {
        Token {
            out: spec_truncated_command(codes),
            next: spec_command_length(codes),
            warnings: seq![spec_warning(WarningKind::TruncatedCommand, at)],
        }
    } else {
        Token {
            out: spec_command_text(charmap, codes, legacy),
            next: spec_command_length(codes),
            warnings: if charmap.commands.contains_key(spec_name_code(charmap, codes[1])) {
                Seq::empty()
            } else {
                seq![spec_warning(WarningKind::UnknownCommand, at)]
            },
        }
    }
}

} // verus!
