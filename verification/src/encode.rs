//! Text to codes, and messages to an archive.
use crate::archive::{
    lemma_units_monotone, push_tagged, spec_archive_bytes, spec_archive_fits, spec_bodies,
    spec_body_bytes, spec_body_views, spec_code_bytes, spec_encode_archive,
    spec_encode_warnings, spec_entry_bytes, spec_offset, spec_table_bytes, spec_texts,
    spec_units, CodecError, MessageWarning,
};
use crate::bytes::{push_u16, push_u32};
use crate::charmap::{spec_lookup, Charmap};
use crate::command::{
    spec_command_code, spec_command_name_warnings, spec_encode_command,
    spec_encode_command_legacy, spec_param_count, spec_parse_codes, spec_split_trim,
    spec_tokens, COMMAND_MARKER,
};
use crate::diag::{Warning, WarningKind};
use crate::keystream::{crypt, spec_crypt, table_mask};
use crate::message::{
    spec_encode_alias, spec_encode_braces, spec_encode_escape, spec_encode_from,
    spec_encode_message, spec_encode_token, PLACEHOLDER, TERMINATOR,
};
use crate::text::{
    first, from_chars, lemma_first, parse_code, parse_radix, spec_pieces, spec_ranges_within,
    starts_with, to_chars, trim_range, CharClass,
};
use crate::trainer::{
    spec_encode_trainer_name, spec_name_char_warnings, spec_name_codes, spec_pack, TRAINER_MARKER,
};
use vstd::prelude::*;

verus! {

/// The code of a single character, if the character map holds it.
pub fn encode_char(charmap: &Charmap, c: char) -> (code: Option<u16>)
    ensures
        code == spec_lookup(charmap@.encode, seq![c]),
{
    let mut key = String::new();
    key.push(c);
    assert(key@ =~= seq![c]);
    charmap.encode_lookup(key.as_str())
}

/// Encodes a trainer name that stands at position `at` of its message.
pub(crate) fn encode_trainer_name_at(
    charmap: &Charmap,
    name: &[char],
    at: usize,
    diag: &mut Vec<Warning>,
) -> (codes: Vec<u16>)
    requires
        at + name.len() <= usize::MAX,
    ensures
        codes@ == spec_encode_trainer_name(charmap@, name@, at as int).out,
        final(diag)@ == old(diag)@ + spec_encode_trainer_name(charmap@, name@, at as int).warnings,
{
    let ghost codes = spec_name_codes(charmap@, name@);
    let mut out: Vec<u16> = Vec::new();
    out.push(TRAINER_MARKER);
    let mut bit: u16 = 0;
    let mut acc: u16 = 0;
    let mut k: usize = 0;
    while k < name.len()
        invariant
            k <= name.len(),
            at + name.len() <= usize::MAX,
            bit < 15,
            codes == spec_name_codes(charmap@, name@),
            seq![TRAINER_MARKER] + spec_pack(codes, 0, 0, 0) == out@ + spec_pack(
                codes,
                k as int,
                acc,
                bit,
            ),
            diag@ == old(diag)@ + spec_name_char_warnings(charmap@, name@, at as int, k as int),
        decreases name.len() - k,
    {
        let code: u16 = match encode_char(charmap, name[k]) {
            Some(code) => code,
            None => {
                diag.push(Warning { kind: WarningKind::UnknownCharacter, position: at + k });
                0
            },
        };
        assert(code == codes[k as int]);
        acc = acc | ((code & 0x1FF) << bit);
        bit = bit + 9;
        if bit >= 15 {
            out.push(acc & 0x7FFF);
            bit = bit - 15;
            acc = (code >> (9 - bit)) & 0x1FF;
        }
        k += 1;
    }
    if bit > 0 {
        acc = acc | (0xFFFFu16 << bit);
        out.push(acc & 0x7FFF);
    }
    out
}

/// Encodes a trainer name: the marker `0xF100`, then the nine-bit codes
/// of the characters, packed. A character that the map does not hold
/// counts as code `0` and is reported.
pub fn encode_trainer_name(charmap: &Charmap, name_str: &str, diag: &mut Vec<Warning>) -> (codes:
    Vec<u16>)
    ensures
        codes@ == spec_encode_trainer_name(charmap@, name_str@, 0).out,
        final(diag)@ == old(diag)@ + spec_encode_trainer_name(charmap@, name_str@, 0).warnings,
{
    let name = to_chars(name_str);
    encode_trainer_name_at(charmap, name.as_slice(), 0, diag)
}

/// Cuts `s` at its commas and trims each piece; gives the bounds of the pieces.
pub fn split_trim(s: &[char]) -> (ranges: Vec<(usize, usize)>)
    ensures
        spec_pieces(s@, ranges@) == spec_split_trim(s@, 0),
        spec_ranges_within(ranges@, s.len() as int),
{
    let mut ranges: Vec<(usize, usize)> = Vec::new();
    let mut from: usize = 0;
    let mut done = false;
    while !done
        invariant
            from <= s.len(),
            spec_ranges_within(ranges@, s.len() as int),
            !done ==> spec_split_trim(s@, 0) == spec_pieces(s@, ranges@) + spec_split_trim(
                s@,
                from as int,
            ),
            done ==> spec_split_trim(s@, 0) == spec_pieces(s@, ranges@),
        decreases s.len() - from + (if done { 0int } else { 1int }),
    {
        let comma = first(s, from, CharClass::Is(','));
        let piece = trim_range(s, from, comma);
        let ghost before = ranges@;
        ranges.push(piece);
        proof {
            assert(spec_pieces(s@, ranges@) =~= spec_pieces(s@, before) + seq![
                s@.subrange(piece.0 as int, piece.1 as int),
            ]);
            if comma >= s.len() {
                assert(s@.subrange(from as int, comma as int) == s@.subrange(
                    from as int,
                    s.len() as int,
                ));
            }
        }
        if comma >= s.len() {
            done = true;
        } else {
            from = comma + 1;
        }
    }
    ranges
}

/// Finds the runs of `s`, from `from` on, that are neither white space
/// nor commas; gives their bounds.
pub fn tokens(s: &[char], from: usize) -> (ranges: Vec<(usize, usize)>)
    requires
        from <= s.len(),
    ensures
        spec_pieces(s@, ranges@) == spec_tokens(s@, from as int),
        spec_ranges_within(ranges@, s.len() as int),
{
    let mut ranges: Vec<(usize, usize)> = Vec::new();
    let mut at: usize = from;
    let mut done = false;
    while !done
        invariant
            at <= s.len(),
            spec_ranges_within(ranges@, s.len() as int),
            !done ==> spec_tokens(s@, from as int) == spec_pieces(s@, ranges@) + spec_tokens(
                s@,
                at as int,
            ),
            done ==> spec_tokens(s@, from as int) == spec_pieces(s@, ranges@),
        decreases s.len() - at + (if done { 0int } else { 1int }),
    {
        let start = first(s, at, CharClass::NotSeparator);
        if start >= s.len() {
            done = true;
        } else {
            let end = first(s, start, CharClass::Separator);
            proof {
                lemma_first(s@, at as int, CharClass::NotSeparator);
                lemma_first(s@, start as int, CharClass::Separator);
                assert(end > start);
            }
            let ghost before = ranges@;
            ranges.push((start, end));
            proof {
                assert(spec_pieces(s@, ranges@) =~= spec_pieces(s@, before) + seq![
                    s@.subrange(start as int, end as int),
                ]);
            }
            at = end;
        }
    }
    ranges
}

/// Appends the code unit of each piece from number `from` on.
fn push_codes(out: &mut Vec<u16>, s: &[char], ranges: &Vec<(usize, usize)>, from: usize)
    requires
        from <= ranges.len(),
        spec_ranges_within(ranges@, s.len() as int),
    ensures
        final(out)@ == old(out)@ + spec_parse_codes(
            spec_pieces(s@, ranges@).subrange(from as int, ranges.len() as int),
        ),
{
    let ghost params = spec_pieces(s@, ranges@).subrange(from as int, ranges.len() as int);
    let mut k: usize = from;
    while k < ranges.len()
        invariant
            from <= k <= ranges.len(),
            spec_ranges_within(ranges@, s.len() as int),
            params == spec_pieces(s@, ranges@).subrange(from as int, ranges.len() as int),
            out@ == old(out)@ + spec_parse_codes(params).take(k - from),
        decreases ranges.len() - k,
    {
        let (a, b) = ranges[k];
        let code = parse_code(&s[a..b]);
        let ghost before = out@;
        out.push(code);
        proof {
            assert(params[k - from] == s@.subrange(a as int, b as int));
            assert(spec_parse_codes(params).take(k - from + 1) =~= spec_parse_codes(params).take(
                k - from,
            ).push(code));
        }
        k += 1;
    }
    proof {
        assert(spec_parse_codes(params).take(k - from) =~= spec_parse_codes(params));
    }
}

/// The code of a command name; reports a name that the map does not hold.
fn command_code_of(charmap: &Charmap, name: &[char], at: usize, diag: &mut Vec<Warning>) -> (code:
    u16)
    ensures
        code == spec_command_code(charmap@, name@),
        final(diag)@ == old(diag)@ + spec_command_name_warnings(charmap@, name@, at as int),
{
    let key = from_chars(name);
    match charmap.command_code(key.as_str()) {
        Some(code) => code,
        None => {
            diag.push(Warning { kind: WarningKind::UnknownCommand, position: at });
            parse_code(name)
        },
    }
}

/// Encodes the inside of a canonical command that stands at position
/// `at` of its message.
pub(crate) fn encode_command_at(charmap: &Charmap, s: &[char], at: usize, diag: &mut Vec<Warning>) -> (codes:
    Vec<u16>)
    ensures
        codes@ == spec_encode_command(charmap@, s@, at as int).out,
        final(diag)@ == old(diag)@ + spec_encode_command(charmap@, s@, at as int).warnings,
{
    let parts = split_trim(s);
    let mut out: Vec<u16> = Vec::new();
    if parts.len() < 2 {
        diag.push(Warning { kind: WarningKind::MalformedCommand, position: at });
        out.push(0);
        assert(out@ =~= seq![0u16]);
        return out;
    }
    let (name_start, name_end) = parts[0];
    let base = command_code_of(charmap, &s[name_start..name_end], at, diag);
    let (special_start, special_end) = parts[1];
    let special = parse_code(&s[special_start..special_end]);
    out.push(COMMAND_MARKER);
    out.push(base | special);
    out.push(((parts.len() - 2) % 65536) as u16);
    assert(out@ =~= seq![
        COMMAND_MARKER,
        (base | special) as u16,
        spec_param_count(parts.len() - 2),
    ]);
    push_codes(&mut out, s, &parts, 2);
    out
}

/// Encodes the inside of a legacy command that stands at position `at`
/// of its message.
pub(crate) fn encode_command_msgenc_at(
    charmap: &Charmap,
    s: &[char],
    at: usize,
    diag: &mut Vec<Warning>,
) -> (codes: Vec<u16>)
    ensures
        codes@ == spec_encode_command_legacy(charmap@, s@, at as int).out,
        final(diag)@ == old(diag)@ + spec_encode_command_legacy(charmap@, s@, at as int).warnings,
{
    let mut out: Vec<u16> = Vec::new();
    let start = first(s, 0, CharClass::NotSpace);
    if start >= s.len() {
        diag.push(Warning { kind: WarningKind::EmptyCommand, position: at });
        out.push(0);
        assert(out@ =~= seq![0u16]);
        return out;
    }
    let end = first(s, start, CharClass::Space);
    let name = &s[start..end];
    let values = tokens(s, end);
    let base = command_code_of(charmap, name, at, diag);
    let prefix = to_chars("STRVAR_");
    let special = values.len() > 0 && starts_with(name, prefix.as_slice());
    let code = if special {
        let (a, b) = values[0];
        base | parse_code(&s[a..b])
    } else {
        base
    };
    let skip: usize = if special {
        1
    } else {
        0
    };
    out.push(COMMAND_MARKER);
    out.push(code);
    out.push(((values.len() - skip) % 65536) as u16);
    assert(out@ =~= seq![COMMAND_MARKER, code, spec_param_count(values.len() - skip)]);
    proof {
        let pieces = spec_pieces(s@, values@);
        assert(pieces.subrange(0, pieces.len() as int) =~= pieces);
    }
    push_codes(&mut out, s, &values, skip);
    out
}

/// Appends the placeholder code and reports why.
fn push_placeholder(out: &mut Vec<u16>, diag: &mut Vec<Warning>, kind: WarningKind, pos: usize)
    ensures
        final(out)@ == old(out)@ + seq![PLACEHOLDER],
        final(diag)@ == old(diag)@ + seq![Warning { kind, position: pos }],
{
    out.push(PLACEHOLDER);
    diag.push(Warning { kind, position: pos });
}

/// Encodes the alias that begins with the `[` at `pos`.
fn encode_alias(
    charmap: &Charmap,
    text: &[char],
    pos: usize,
    out: &mut Vec<u16>,
    diag: &mut Vec<Warning>,
) -> (next: usize)
    requires
        pos < text.len(),
    ensures
        next == spec_encode_alias(charmap@, text@, pos as int).next,
        pos < next <= text.len(),
        final(out)@ == old(out)@ + spec_encode_alias(charmap@, text@, pos as int).out,
        final(diag)@ == old(diag)@ + spec_encode_alias(charmap@, text@, pos as int).warnings,
{
    let close = first(text, pos + 1, CharClass::Is(']'));
    if close >= text.len() {
        push_placeholder(out, diag, WarningKind::UnmatchedBracket, pos);
        return text.len();
    }
    let alias = from_chars(&text[pos..close + 1]);
    match charmap.encode_lookup(alias.as_str()) {
        Some(code) => {
            out.push(code);
        },
        None => {
            push_placeholder(out, diag, WarningKind::UnknownAlias, pos);
        },
    }
    close + 1
}

/// Encodes the escape that begins with the `\` at `pos`.
fn encode_escape(
    charmap: &Charmap,
    text: &[char],
    pos: usize,
    out: &mut Vec<u16>,
    diag: &mut Vec<Warning>,
) -> (next: usize)
    requires
        pos < text.len(),
    ensures
        next == spec_encode_escape(charmap@, text@, pos as int).next,
        pos < next <= text.len(),
        final(out)@ == old(out)@ + spec_encode_escape(charmap@, text@, pos as int).out,
        final(diag)@ == old(diag)@ + spec_encode_escape(charmap@, text@, pos as int).warnings,
{
    if pos + 1 >= text.len() {
        push_placeholder(out, diag, WarningKind::IncompleteEscape, pos);
        return text.len();
    }
    let c = text[pos + 1];
    if c == 'x' {
        if text.len() - pos < 6 {
            push_placeholder(out, diag, WarningKind::IncompleteEscape, pos);
            return text.len();
        }
        match parse_radix(&text[pos + 2..pos + 6], 16) {
            Some(value) => {
                out.push((value % 65536) as u16);
            },
            None => {
                push_placeholder(out, diag, WarningKind::InvalidEscape, pos);
            },
        }
        return pos + 6;
    }
    let mut escape = String::new();
    escape.push('\\');
    escape.push(c);
    assert(escape@ =~= seq!['\\', c]);
    match charmap.encode_lookup(escape.as_str()) {
        Some(code) => {
            out.push(code);
        },
        None => {
            push_placeholder(out, diag, WarningKind::UnknownEscape, pos);
        },
    }
    pos + 2
}

/// Encodes the command or trainer name that begins with the `{` at `pos`.
fn encode_braces(
    charmap: &Charmap,
    text: &[char],
    pos: usize,
    msgenc_format: bool,
    out: &mut Vec<u16>,
    diag: &mut Vec<Warning>,
) -> (next: usize)
    requires
        pos < text.len(),
    ensures
        next == spec_encode_braces(charmap@, text@, pos as int, msgenc_format).next,
        pos < next <= text.len(),
        final(out)@ == old(out)@ + spec_encode_braces(
            charmap@,
            text@,
            pos as int,
            msgenc_format,
        ).out,
        final(diag)@ == old(diag)@ + spec_encode_braces(
            charmap@,
            text@,
            pos as int,
            msgenc_format,
        ).warnings,
{
    let close = first(text, pos + 1, CharClass::Is('}'));
    if close >= text.len() {
        push_placeholder(out, diag, WarningKind::UnmatchedBrace, pos);
        return text.len();
    }
    if close == pos + 1 {
        push_placeholder(out, diag, WarningKind::EmptyCommand, pos);
        return close + 1;
    }
    let body = &text[pos + 1..close];
    let canonical_name = to_chars("TRAINER_NAME:");
    let legacy_name = to_chars("TRNAME");
    proof {
        reveal_strlit("TRAINER_NAME:");
    }
    if starts_with(body, canonical_name.as_slice()) {
        proof {
            assert(body@.subrange(13, body@.len() as int) =~= text@.subrange(
                pos + 14,
                close as int,
            ));
        }
        let mut codes = encode_trainer_name_at(charmap, &body[13..body.len()], pos + 14, diag);
        out.append(&mut codes);
        close + 1
    } else if msgenc_format && starts_with(body, legacy_name.as_slice()) {
        let mut codes = encode_trainer_name_at(
            charmap,
            &text[close + 1..text.len()],
            close + 1,
            diag,
        );
        out.append(&mut codes);
        text.len()
    } else if msgenc_format {
        let mut codes = encode_command_msgenc_at(charmap, body, pos + 1, diag);
        out.append(&mut codes);
        close + 1
    } else {
        let mut codes = encode_command_at(charmap, body, pos + 1, diag);
        out.append(&mut codes);
        close + 1
    }
}

/// Encodes the token at `pos` and says where the next one begins.
fn encode_token(
    charmap: &Charmap,
    text: &[char],
    pos: usize,
    msgenc_format: bool,
    out: &mut Vec<u16>,
    diag: &mut Vec<Warning>,
) -> (next: usize)
    requires
        pos < text.len(),
    ensures
        next == spec_encode_token(charmap@, text@, pos as int, msgenc_format).next,
        pos < next <= text.len(),
        final(out)@ == old(out)@ + spec_encode_token(
            charmap@,
            text@,
            pos as int,
            msgenc_format,
        ).out,
        final(diag)@ == old(diag)@ + spec_encode_token(
            charmap@,
            text@,
            pos as int,
            msgenc_format,
        ).warnings,
{
    let c = text[pos];
    match encode_char(charmap, c) {
        Some(code) => {
            out.push(code);
            pos + 1
        },
        None => {
            if c == '[' {
                encode_alias(charmap, text, pos, out, diag)
            } else if c == '\\' {
                encode_escape(charmap, text, pos, out, diag)
            } else if c == '{' {
                encode_braces(charmap, text, pos, msgenc_format, out, diag)
            } else {
                push_placeholder(out, diag, WarningKind::UnknownCharacter, pos);
                pos + 1
            }
        },
    }
}

/// Encodes the characters of a message.
pub fn encode_chars_to_message(
    charmap: &Charmap,
    text: &[char],
    msgenc_format: bool,
    diag: &mut Vec<Warning>,
) -> (codes: Vec<u16>)
    ensures
        codes@ == spec_encode_message(charmap@, text@, msgenc_format).out,
        final(diag)@ == old(diag)@ + spec_encode_message(charmap@, text@, msgenc_format).warnings,
        codes@.len() > 0 && codes@.last() == TERMINATOR,
{
    let mut out: Vec<u16> = Vec::new();
    let mut pos: usize = 0;
    while pos < text.len()
        invariant
            pos <= text.len(),
            spec_encode_message(charmap@, text@, msgenc_format).out == out@ + spec_encode_from(
                charmap@,
                text@,
                pos as int,
                msgenc_format,
            ).out,
            old(diag)@ + spec_encode_message(charmap@, text@, msgenc_format).warnings == diag@
                + spec_encode_from(charmap@, text@, pos as int, msgenc_format).warnings,
        decreases text.len() - pos,
    {
        let ghost token = spec_encode_token(charmap@, text@, pos as int, msgenc_format);
        let ghost out_before = out@;
        let ghost diag_before = diag@;
        let next = encode_token(charmap, text, pos, msgenc_format, &mut out, diag);
        proof {
            let rest = spec_encode_from(charmap@, text@, next as int, msgenc_format);
            let here = spec_encode_from(charmap@, text@, pos as int, msgenc_format);
            assert(here.out == token.out + rest.out);
            assert(here.warnings == token.warnings + rest.warnings);
            assert(out@ + rest.out =~= out_before + here.out);
            assert(diag@ + rest.warnings =~= diag_before + here.warnings);
        }
        pos = next;
    }
    out.push(TERMINATOR);
    out
}

/// Encodes a message: the code of each token of the text, then the
/// terminator `0xFFFF`. What cannot be encoded becomes the code `0` and
/// is reported; encoding never fails.
pub fn encode_string_to_message(
    charmap: &Charmap,
    text: &str,
    msgenc_format: bool,
    diag: &mut Vec<Warning>,
) -> (codes: Vec<u16>)
    ensures
        codes@ == spec_encode_message(charmap@, text@, msgenc_format).out,
        final(diag)@ == old(diag)@ + spec_encode_message(charmap@, text@, msgenc_format).warnings,
        codes@.len() > 0 && codes@.last() == TERMINATOR,
{
    let chars = to_chars(text);
    encode_chars_to_message(charmap, chars.as_slice(), msgenc_format, diag)
}

/// Encodes the inside of a canonical command, `name, special, x, y`.
/// The result is the marker `0xFFFE`, the command code with the special
/// byte ORed in, the number of parameters, and the parameters.
pub fn encode_command(charmap: &Charmap, command_str: &str, diag: &mut Vec<Warning>) -> (codes:
    Vec<u16>)
    ensures
        codes@ == spec_encode_command(charmap@, command_str@, 0).out,
        final(diag)@ == old(diag)@ + spec_encode_command(charmap@, command_str@, 0).warnings,
{
    let s = to_chars(command_str);
    encode_command_at(charmap, s.as_slice(), 0, diag)
}

/// Encodes the inside of a legacy command, `name special, x, y`.
pub fn encode_command_msgenc(charmap: &Charmap, command_str: &str, diag: &mut Vec<Warning>) -> (codes:
    Vec<u16>)
    ensures
        codes@ == spec_encode_command_legacy(charmap@, command_str@, 0).out,
        final(diag)@ == old(diag)@ + spec_encode_command_legacy(charmap@, command_str@, 0).warnings,
{
    let s = to_chars(command_str);
    encode_command_msgenc_at(charmap, s.as_slice(), 0, diag)
}

/// Encrypts the code units of the message with 1-based index `index`:
/// each unit is XORed with its key of the body keystream.
pub fn encrypt_message(decrypted_message: &Vec<u16>, index: u16) -> (encrypted_message: Vec<u16>)
    ensures
        encrypted_message@ == spec_crypt(decrypted_message@, index),
{
    crypt(decrypted_message.as_slice(), index)
}

/// Encodes and encrypts each message. Gives nothing where the bodies do
/// not fit an archive.
fn encode_bodies(
    charmap: &Charmap,
    messages: &[String],
    msgenc_format: bool,
    diag: &mut Vec<MessageWarning>,
) -> (bodies: Option<Vec<Vec<u16>>>)
    requires
        messages.len() <= 65535,
    ensures
        bodies is Some <==> spec_archive_fits(
            spec_bodies(charmap@, spec_texts(messages@), msgenc_format),
        ),
        bodies is Some ==> spec_body_views(bodies->0@) == spec_bodies(
            charmap@,
            spec_texts(messages@),
            msgenc_format,
        ),
        bodies is Some ==> final(diag)@ == old(diag)@ + spec_encode_warnings(
            charmap@,
            spec_texts(messages@),
            msgenc_format,
            messages.len() as int,
        ),
{
    let ghost texts = spec_texts(messages@);
    let ghost all = spec_bodies(charmap@, texts, msgenc_format);
    let n = messages.len();
    let mut bodies: Vec<Vec<u16>> = Vec::with_capacity(n);
    let mut units: u64 = 0;
    let mut i: usize = 0;
    while i < n
        invariant
            i <= n,
            n == messages.len(),
            n <= 65535,
            texts == spec_texts(messages@),
            all == spec_bodies(charmap@, texts, msgenc_format),
            bodies.len() == i,
            forall|j: int| 0 <= j < i ==> (#[trigger] bodies[j])@ == all[j],
            units == spec_units(all, i as int),
            4 + 8 * n + 2 * units <= u32::MAX,
            diag@ == old(diag)@ + spec_encode_warnings(charmap@, texts, msgenc_format, i as int),
        decreases n - i,
    {
        let mut warnings: Vec<Warning> = Vec::new();
        let codes = encode_string_to_message(
            charmap,
            messages[i].as_str(),
            msgenc_format,
            &mut warnings,
        );
        let body = encrypt_message(&codes, (i + 1) as u16);
        assert(body@ == all[i as int]);
        assert(warnings@ =~= spec_encode_message(
            charmap@,
            texts[i as int],
            msgenc_format,
        ).warnings);
        let length = body.len() as u64;
        if length > 0xFFFF_FFFF || 4 + 8 * (n as u64) + 2 * (units + length) > 0xFFFF_FFFF {
            proof {
                lemma_units_monotone(all, i + 1, n as int);
            }
            return None;
        }
        units = units + length;
        push_tagged(diag, &warnings, i);
        bodies.push(body);
        i += 1;
    }
    assert(spec_body_views(bodies@) =~= all);
    Some(bodies)
}

/// Appends the masked table of the bodies.
fn push_table(out: &mut Vec<u8>, bodies: &Vec<Vec<u16>>, key: u16)
    requires
        spec_archive_fits(spec_body_views(bodies@)),
    ensures
        final(out)@ == old(out)@ + spec_table_bytes(
            spec_body_views(bodies@),
            key,
            bodies.len() as int,
        ),
{
    let ghost all = spec_body_views(bodies@);
    let n = bodies.len();
    let mut units: u64 = 0;
    let mut i: usize = 0;
    while i < n
        invariant
            i <= n,
            n == bodies.len(),
            all == spec_body_views(bodies@),
            spec_archive_fits(all),
            units == spec_units(all, i as int),
            out@ == old(out)@ + spec_table_bytes(all, key, i as int),
        decreases n - i,
    {
        proof {
            lemma_units_monotone(all, i as int, n as int);
            lemma_units_monotone(all, i + 1, n as int);
        }
        let offset: u32 = (4 + 8 * (n as u64) + 2 * units) as u32;
        let length: u32 = bodies[i].len() as u32;
        let mask = table_mask((i + 1) as u16, key);
        let ghost before = out@;
        push_u32(out, offset ^ mask);
        push_u32(out, length ^ mask);
        proof {
            assert(offset == spec_offset(all, i as int));
            assert(length == all[i as int].len());
            assert(out@ =~= before + spec_entry_bytes(all, key, i as int));
            assert(out@ =~= old(out)@ + spec_table_bytes(all, key, i + 1));
        }
        units = units + length as u64;
        i += 1;
    }
}

/// Appends the bytes of the code units of one body.
fn push_body(out: &mut Vec<u8>, body: &Vec<u16>)
    ensures
        final(out)@ == old(out)@ + spec_code_bytes(body@, body.len() as int),
{
    let mut j: usize = 0;
    while j < body.len()
        invariant
            j <= body.len(),
            out@ == old(out)@ + spec_code_bytes(body@, j as int),
        decreases body.len() - j,
    {
        let ghost before = out@;
        push_u16(out, body[j]);
        assert(out@ =~= old(out)@ + spec_code_bytes(body@, j + 1));
        j += 1;
    }
}

/// Appends the bytes of the bodies, one after the other.
fn push_bodies(out: &mut Vec<u8>, bodies: &Vec<Vec<u16>>)
    ensures
        final(out)@ == old(out)@ + spec_body_bytes(
            spec_body_views(bodies@),
            bodies.len() as int,
        ),
{
    let ghost all = spec_body_views(bodies@);
    let mut i: usize = 0;
    while i < bodies.len()
        invariant
            i <= bodies.len(),
            all == spec_body_views(bodies@),
            out@ == old(out)@ + spec_body_bytes(all, i as int),
        decreases bodies.len() - i,
    {
        push_body(out, &bodies[i]);
        assert(out@ =~= old(out)@ + spec_body_bytes(all, i + 1));
        i += 1;
    }
}

/// Encodes messages into an archive: the message count and the key, the
/// masked table, then the encrypted bodies in the order of the messages,
/// without gaps. The offset of a body is the size of the header and the
/// table plus the bytes of the bodies before it.
///
/// Gives `ArchiveTooLarge` where the messages are more than 65535 or the
/// archive would pass `u32::MAX` bytes.
pub fn encode_messages(
    charmap: &Charmap,
    key: u16,
    messages: &[String],
    msgenc_format: bool,
    diag: &mut Vec<MessageWarning>,
) -> (r: Result<Vec<u8>, CodecError>)
    ensures
        r is Ok <==> spec_archive_fits(
            spec_bodies(charmap@, spec_texts(messages@), msgenc_format),
        ),
        r is Ok ==> r->Ok_0@ == spec_encode_archive(
            charmap@,
            key,
            spec_texts(messages@),
            msgenc_format,
        ),
        r is Ok ==> final(diag)@ == old(diag)@ + spec_encode_warnings(
            charmap@,
            spec_texts(messages@),
            msgenc_format,
            messages.len() as int,
        ),
        r is Err ==> r == Err::<Vec<u8>, CodecError>(CodecError::ArchiveTooLarge),
        r is Err ==> final(diag)@ == old(diag)@,
{
    if messages.len() > 65535 {
        return Err(CodecError::ArchiveTooLarge);
    }
    let mut warnings: Vec<MessageWarning> = Vec::new();
    let bodies = match encode_bodies(charmap, messages, msgenc_format, &mut warnings) {
        Some(bodies) => bodies,
        None => {
            return Err(CodecError::ArchiveTooLarge);
        },
    };
    let mut out: Vec<u8> = Vec::new();
    push_u16(&mut out, bodies.len() as u16);
    push_u16(&mut out, key);
    push_table(&mut out, &bodies, key);
    push_bodies(&mut out, &bodies);
    diag.append(&mut warnings);
    assert(out@ =~= spec_archive_bytes(spec_body_views(bodies@), key));
    Ok(out)
}

} // verus!
