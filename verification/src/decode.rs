//! Codes to text, and an archive to messages.
use crate::archive::{
    push_tagged, spec_body, spec_count, spec_decode_archive, spec_decode_warnings,
    spec_decoded_message, spec_entry, spec_entry_fits, spec_key, spec_message_codes,
    spec_well_formed, Archive, CodecError, MessageWarning, TableEntry,
};
use crate::bytes::{read_u16_at, read_u32_at, spec_read_u16};
use crate::charmap::Charmap;
use crate::command::{
    spec_command_name, spec_command_text, spec_command_values, spec_decode_command, spec_escape,
    spec_is_family, spec_legacy_values, spec_param_list, spec_truncated_command, COMMAND_MARKER,
    FAMILY_MASK, SPECIAL_MASK,
};
use crate::diag::{Warning, WarningKind};
use crate::keystream::{crypt, spec_crypt, table_mask};
use crate::message::{spec_decode_from, spec_decode_message, spec_decode_token, TERMINATOR};
use crate::text::{push_decimal, push_hex4, spec_decimal};
use crate::trainer::{
    spec_decode_trainer_name, spec_name_code_warnings, spec_name_text, spec_unpack, Unpacked,
    NAME_END, TRAINER_MARKER,
};
use vstd::prelude::*;

verus! {

/// Decrypts the code units of the message with 1-based index `index`:
/// each unit is XORed with its key of the body keystream.
pub fn decrypt_message(encrypted_message: &Vec<u16>, index: u16) -> (decrypted_message: Vec<u16>)
    ensures
        decrypted_message@ == spec_crypt(encrypted_message@, index),
{
    crypt(encrypted_message.as_slice(), index)
}

/// Appends a code unit as an escape, `\x` and four hexadecimal digits.
fn push_escape(out: &mut String, code: u16)
    ensures
        final(out)@ == old(out)@ + spec_escape(code),
{
    out.push('\\');
    out.push('x');
    push_hex4(out, code);
    assert(out@ =~= old(out)@ + spec_escape(code));
}

/// Appends each of `codes[from..to]` in decimal, with `, ` before it.
fn push_params(out: &mut String, codes: &[u16], from: usize, to: usize)
    requires
        from <= to <= codes.len(),
    ensures
        final(out)@ == old(out)@ + spec_param_list(codes@.subrange(from as int, to as int)),
{
    let mut k: usize = from;
    assert(codes@.subrange(from as int, from as int) =~= Seq::<u16>::empty());
    while k < to
        invariant
            from <= k <= to <= codes.len(),
            out@ == old(out)@ + spec_param_list(codes@.subrange(from as int, k as int)),
        decreases to - k,
    {
        let ghost before = out@;
        out.push(',');
        out.push(' ');
        push_decimal(out, codes[k] as u64);
        proof {
            let longer = codes@.subrange(from as int, k + 1);
            assert(longer.drop_last() =~= codes@.subrange(from as int, k as int));
            assert(out@ =~= old(out)@ + spec_param_list(longer));
        }
        k += 1;
    }
}

/// Appends the code units that were read of a command that the codes
/// end in the middle of.
fn push_truncated_command(out: &mut String, codes: &[u16])
    ensures
        final(out)@ == old(out)@ + spec_truncated_command(codes@),
{
    push_escape(out, COMMAND_MARKER);
    if codes.len() >= 2 {
        push_escape(out, codes[1]);
        if codes.len() >= 3 {
            push_escape(out, codes[2]);
        }
    }
    assert(out@ =~= old(out)@ + spec_truncated_command(codes@));
}

/// Appends the name of the command `code`; reports a code without a name.
fn push_command_name(
    out: &mut String,
    charmap: &Charmap,
    code: u16,
    at: usize,
    diag: &mut Vec<Warning>,
)
    ensures
        final(out)@ == old(out)@ + spec_command_name(charmap@, code),
        final(diag)@ == old(diag)@ + if charmap@.commands.contains_key(code) {
            Seq::<Warning>::empty()
        } else {
            seq![Warning { kind: WarningKind::UnknownCommand, position: at }]
        },
{
    match charmap.command_name(code) {
        Some(name) => {
            out.push_str(name.as_str());
            assert(diag@ =~= old(diag)@ + Seq::<Warning>::empty());
        },
        None => {
            out.push('0');
            out.push('x');
            push_hex4(out, code);
            diag.push(Warning { kind: WarningKind::UnknownCommand, position: at });
            assert(out@ =~= old(out)@ + spec_command_name(charmap@, code));
        },
    }
}

/// Appends the values of a complete command: the special byte and the
/// `count` parameters that follow the first three code units.
fn push_command_values(
    out: &mut String,
    codes: &[u16],
    special: u16,
    count: usize,
    msgenc_format: bool,
)
    requires
        3 + count <= codes.len(),
    ensures
        final(out)@ == old(out)@ + spec_command_values(
            special,
            codes@.subrange(3, 3 + count),
            msgenc_format,
        ),
{
    let ghost params = codes@.subrange(3, 3 + count);
    if msgenc_format {
        if special != 0 {
            out.push(' ');
            push_decimal(out, special as u64);
            push_params(out, codes, 3, 3 + count);
            assert(out@ =~= old(out)@ + spec_legacy_values(special, params));
        } else if count > 0 {
            out.push(' ');
            push_decimal(out, codes[3] as u64);
            push_params(out, codes, 4, 3 + count);
            proof {
                assert(params.subrange(1, params.len() as int) =~= codes@.subrange(4, 3 + count));
                assert(out@ =~= old(out)@ + spec_legacy_values(special, params));
            }
        } else {
            assert(out@ =~= old(out)@ + spec_legacy_values(special, params));
        }
    } else {
        out.push(',');
        out.push(' ');
        push_decimal(out, special as u64);
        push_params(out, codes, 3, 3 + count);
        assert(out@ =~= old(out)@ + (seq![',', ' '] + spec_decimal(special as int)
            + spec_param_list(params)));
    }
}

/// Decodes the command at the head of `message_slice`, which stands at
/// position `at` of its message.
pub(crate) fn decode_command_at(
    charmap: &Charmap,
    message_slice: &[u16],
    msgenc_format: bool,
    at: usize,
    diag: &mut Vec<Warning>,
) -> (r: (String, usize))
    ensures
        r.0@ == spec_decode_command(charmap@, message_slice@, msgenc_format, at as int).out,
        r.1 == spec_decode_command(charmap@, message_slice@, msgenc_format, at as int).next,
        final(diag)@ == old(diag)@ + spec_decode_command(
            charmap@,
            message_slice@,
            msgenc_format,
            at as int,
        ).warnings,
{
    let mut out = String::new();
    let length: usize = if message_slice.len() < 2 {
        1
    } else if message_slice.len() < 3 {
        2
    } else {
        3 + message_slice[2] as usize
    };
    if message_slice.len() < 3 || message_slice.len() < length {
        push_truncated_command(&mut out, message_slice);
        diag.push(Warning { kind: WarningKind::TruncatedCommand, position: at });
        return (out, length);
    }
    let raw = message_slice[1];
    let family = match charmap.command_name(raw) {
        Some(_) => false,
        None => match charmap.command_name(raw & FAMILY_MASK) {
            Some(_) => true,
            None => false,
        },
    };
    assert(family == spec_is_family(charmap@, raw));
    let code: u16 = if family {
        raw & FAMILY_MASK
    } else {
        raw
    };
    let special: u16 = if family {
        raw & SPECIAL_MASK
    } else {
        0
    };
    out.push('{');
    push_command_name(&mut out, charmap, code, at, diag);
    push_command_values(&mut out, message_slice, special, length - 3, msgenc_format);
    out.push('}');
    assert(out@ =~= spec_command_text(charmap@, message_slice@, msgenc_format));
    (out, length)
}

/// Decodes the command at the head of `message_slice`: the marker
/// `0xFFFE`, the raw command code, the number of parameters and the
/// parameters. Gives the text of the command and the number of code
/// units it takes.
pub fn decode_command(
    charmap: &Charmap,
    message_slice: &[u16],
    msgenc_format: bool,
    diag: &mut Vec<Warning>,
) -> (r: (String, usize))
    ensures
        r.0@ == spec_decode_command(charmap@, message_slice@, msgenc_format, 0).out,
        r.1 == spec_decode_command(charmap@, message_slice@, msgenc_format, 0).next,
        final(diag)@ == old(diag)@ + spec_decode_command(
            charmap@,
            message_slice@,
            msgenc_format,
            0,
        ).warnings,
{
    decode_command_at(charmap, message_slice, msgenc_format, 0, diag)
}

/// Decodes the trainer name at the head of `message_slice`, which stands
/// at position `at` of its message. Gives the text of the name and the
/// number of code units it takes, less one.
pub(crate) fn decode_trainer_name_at(
    charmap: &Charmap,
    message_slice: &[u16],
    msgenc_format: bool,
    at: usize,
    diag: &mut Vec<Warning>,
) -> (r: (String, usize))
    ensures
        r.0@ == spec_decode_trainer_name(charmap@, message_slice@, msgenc_format, at as int).out,
        r.1 + 1 == spec_decode_trainer_name(
            charmap@,
            message_slice@,
            msgenc_format,
            at as int,
        ).next,
        1 <= r.1,
        r.1 <= message_slice.len() || r.1 == 1,
        final(diag)@ == old(diag)@ + spec_decode_trainer_name(
            charmap@,
            message_slice@,
            msgenc_format,
            at as int,
        ).warnings,
{
    let mut out = String::new();
    if msgenc_format {
        out.push_str("{TRNAME}");
    } else {
        out.push_str("{TRAINER_NAME:");
    }
    let ghost opening = out@;
    let ghost whole = spec_unpack(message_slice@, 1, 0);
    let ghost mut done: Seq<u16> = Seq::empty();
    let mut bit: u16 = 0;
    let mut index: usize = 1;
    let mut stop = false;
    while !stop && index < message_slice.len()
        invariant
            1 <= index,
            bit < 15,
            whole == spec_unpack(message_slice@, 1, 0),
            !stop ==> whole.codes == done + spec_unpack(message_slice@, index as int, bit).codes,
            !stop ==> whole.end == spec_unpack(message_slice@, index as int, bit).end,
            stop ==> whole == (Unpacked { codes: done, end: index as int }),
            index <= message_slice.len() || index == 1,
            out@ == opening + spec_name_text(charmap@, done),
            diag@ == old(diag)@ + spec_name_code_warnings(charmap@, done, at as int),
        decreases message_slice.len() - index + (if stop { 0int } else { 1int }), 15 - bit,
    {
        let mut code: u16 = (message_slice[index] >> bit) & 0x1FF;
        bit = bit + 9;
        if bit >= 15 {
            bit = bit - 15;
            index = index + 1;
            if bit != 0 && index < message_slice.len() {
                code = code | ((message_slice[index] << (9 - bit)) & 0x1FF);
            }
        }
        if code == NAME_END {
            stop = true;
            proof {
                assert(done + Seq::<u16>::empty() =~= done);
            }
        } else {
            let ghost before = out@;
            match charmap.decode_lookup(code) {
                Some(text) => {
                    out.push_str(text.as_str());
                },
                None => {
                    out.push('0');
                    out.push('x');
                    push_hex4(&mut out, code);
                    diag.push(Warning { kind: WarningKind::UnknownCode, position: at });
                },
            }
            proof {
                let longer = done.push(code);
                assert(longer.drop_last() =~= done);
                assert(out@ =~= opening + spec_name_text(charmap@, longer));
                assert(whole.codes =~= longer + spec_unpack(
                    message_slice@,
                    index as int,
                    bit,
                ).codes);
                done = longer;
            }
        }
    }
    proof {
        if !stop {
            assert(done + Seq::<u16>::empty() =~= done);
        }
    }
    if !msgenc_format {
        out.push('}');
    }
    (out, index)
}

/// Decodes the trainer name at the head of `message_slice`: the marker
/// `0xF100`, then packed nine-bit codes up to the end mark `0x1FF`. Gives
/// the text of the name and the number of code units it takes.
pub fn decode_trainer_name(
    charmap: &Charmap,
    message_slice: &[u16],
    msgenc_format: bool,
    diag: &mut Vec<Warning>,
) -> (r: (String, usize))
    requires
        message_slice.len() < usize::MAX,
    ensures
        r.0@ == spec_decode_trainer_name(charmap@, message_slice@, msgenc_format, 0).out,
        r.1 == spec_decode_trainer_name(charmap@, message_slice@, msgenc_format, 0).next,
        final(diag)@ == old(diag)@ + spec_decode_trainer_name(
            charmap@,
            message_slice@,
            msgenc_format,
            0,
        ).warnings,
{
    let (text, end) = decode_trainer_name_at(charmap, message_slice, msgenc_format, 0, diag);
    (text, end + 1)
}

/// Decodes the token at `pos`, which is not the terminator. Gives the
/// number of code units it takes, or a number no smaller than the number
/// of code units left where the token takes them all.
fn decode_token(
    charmap: &Charmap,
    codes: &[u16],
    pos: usize,
    msgenc_format: bool,
    result: &mut String,
    diag: &mut Vec<Warning>,
) -> (used: usize)
    requires
        pos < codes.len(),
    ensures
        final(result)@ == old(result)@ + spec_decode_token(
            charmap@,
            codes@,
            pos as int,
            msgenc_format,
        ).out,
        final(diag)@ == old(diag)@ + spec_decode_token(
            charmap@,
            codes@,
            pos as int,
            msgenc_format,
        ).warnings,
        1 <= used,
        used >= codes.len() - pos <==> spec_decode_token(
            charmap@,
            codes@,
            pos as int,
            msgenc_format,
        ).next >= codes.len(),
        used < codes.len() - pos ==> pos + used == spec_decode_token(
            charmap@,
            codes@,
            pos as int,
            msgenc_format,
        ).next,
{
    let code = codes[pos];
    if code == COMMAND_MARKER {
        let (text, taken) = decode_command_at(
            charmap,
            &codes[pos..codes.len()],
            msgenc_format,
            pos,
            diag,
        );
        result.push_str(text.as_str());
        taken
    } else if code == TRAINER_MARKER {
        let (text, end) = decode_trainer_name_at(
            charmap,
            &codes[pos..codes.len()],
            msgenc_format,
            pos,
            diag,
        );
        result.push_str(text.as_str());
        if end >= codes.len() - pos {
            end
        } else {
            end + 1
        }
    } else {
        match charmap.decode_lookup(code) {
            Some(text) => {
                result.push_str(text.as_str());
                assert(diag@ =~= old(diag)@ + Seq::<Warning>::empty());
            },
            None => {
                push_escape(result, code);
                diag.push(Warning { kind: WarningKind::UnknownCode, position: pos });
            },
        }
        1
    }
}

/// Decodes a message: the text of each token, up to the terminator
/// `0xFFFF` or the end of the codes. A code that the character map does
/// not hold is written as an escape and reported; decoding never fails.
pub fn decode_message_to_string(
    charmap: &Charmap,
    decrypted_message: &Vec<u16>,
    msgenc_format: bool,
    diag: &mut Vec<Warning>,
) -> (result: String)
    ensures
        result@ == spec_decode_message(charmap@, decrypted_message@, msgenc_format).out,
        final(diag)@ == old(diag)@ + spec_decode_message(
            charmap@,
            decrypted_message@,
            msgenc_format,
        ).warnings,
{
    let codes = decrypted_message.as_slice();
    let ghost whole = spec_decode_message(charmap@, codes@, msgenc_format);
    let mut result = String::new();
    let mut i: usize = 0;
    let mut stop = false;
    while !stop && i < codes.len()
        invariant
            i <= codes.len(),
            codes@ == decrypted_message@,
            whole == spec_decode_message(charmap@, codes@, msgenc_format),
            !stop ==> whole.out == result@ + spec_decode_from(
                charmap@,
                codes@,
                i as int,
                msgenc_format,
            ).out,
            !stop ==> old(diag)@ + whole.warnings == diag@ + spec_decode_from(
                charmap@,
                codes@,
                i as int,
                msgenc_format,
            ).warnings,
            stop ==> whole.out == result@,
            stop ==> old(diag)@ + whole.warnings == diag@,
        decreases codes.len() - i + (if stop { 0int } else { 1int }),
    {
        let ghost here = spec_decode_from(charmap@, codes@, i as int, msgenc_format);
        let ghost result_before = result@;
        let ghost diag_before = diag@;
        if codes[i] == TERMINATOR {
            if codes.len() - i - 1 > 1 {
                diag.push(Warning { kind: WarningKind::TrailingData, position: i });
            }
            stop = true;
            proof {
                assert(result_before + here.out =~= result@);
                assert(diag_before + here.warnings =~= diag@);
            }
        } else {
            let ghost token = spec_decode_token(charmap@, codes@, i as int, msgenc_format);
            let used = decode_token(charmap, codes, i, msgenc_format, &mut result, diag);
            if used >= codes.len() - i {
                stop = true;
                proof {
                    assert(here.out == token.out);
                    assert(here.warnings == token.warnings);
                }
            } else {
                proof {
                    let rest = spec_decode_from(charmap@, codes@, token.next, msgenc_format);
                    assert(here.out == token.out + rest.out);
                    assert(here.warnings == token.warnings + rest.warnings);
                    assert(result@ + rest.out =~= result_before + here.out);
                    assert(diag@ + rest.warnings =~= diag_before + here.warnings);
                }
                i = i + used;
            }
        }
    }
    proof {
        if !stop {
            let here = spec_decode_from(charmap@, codes@, i as int, msgenc_format);
            assert(result@ + here.out =~= result@);
            assert(diag@ + here.warnings =~= diag@);
        }
    }
    result
}

/// Reads and unmasks the table of an archive whose header is there.
/// Gives nothing if the table or a body that it points to passes the
/// end of the archive.
fn read_table(bytes: &[u8], count: u16, key: u16) -> (table: Option<Vec<TableEntry>>)
    requires
        bytes.len() >= 4,
        count == spec_count(bytes@),
        key == spec_key(bytes@),
    ensures
        table is Some <==> spec_well_formed(bytes@),
        table is Some ==> table->0.len() == count && forall|i: int|
            0 <= i < count ==> table->0[i] == spec_entry(bytes@, i),
{
    if (bytes.len() - 4) / 8 < count as usize {
        return None;
    }
    let mut table: Vec<TableEntry> = Vec::with_capacity(count as usize);
    let mut i: u16 = 0;
    while i < count
        invariant
            i <= count,
            bytes.len() >= 4 + 8 * count,
            count == spec_count(bytes@),
            key == spec_key(bytes@),
            table.len() == i,
            forall|j: int| 0 <= j < i ==> table[j] == spec_entry(bytes@, j),
            forall|j: int|
                0 <= j < i ==> spec_entry_fits(#[trigger] spec_entry(bytes@, j), bytes.len() as int),
        decreases count - i,
    {
        let at: usize = 4 + 8 * (i as usize);
        let mask = table_mask(i + 1, key);
        let entry = TableEntry {
            offset: read_u32_at(bytes, at) ^ mask,
            length: read_u32_at(bytes, at + 4) ^ mask,
        };
        assert(entry == spec_entry(bytes@, i as int));
        if entry.offset as u64 + 2 * (entry.length as u64) > bytes.len() as u64 {
            assert(!spec_entry_fits(spec_entry(bytes@, i as int), bytes.len() as int));
            return None;
        }
        table.push(entry);
        i += 1;
    }
    Some(table)
}

/// Reads the code units of the body of an entry.
fn read_body(bytes: &[u8], entry: TableEntry) -> (body: Vec<u16>)
    requires
        spec_entry_fits(entry, bytes.len() as int),
    ensures
        body@ == spec_body(bytes@, entry),
{
    let offset = entry.offset as usize;
    let length = entry.length as usize;
    let mut body: Vec<u16> = Vec::with_capacity(length);
    let mut j: usize = 0;
    while j < length
        invariant
            j <= length,
            offset == entry.offset,
            length == entry.length,
            offset + 2 * length <= bytes.len(),
            body.len() == j,
            forall|k: int| 0 <= k < j ==> body[k] == spec_read_u16(bytes@, offset + 2 * k),
        decreases length - j,
    {
        body.push(read_u16_at(bytes, offset + 2 * j));
        j += 1;
    }
    assert(body@ =~= spec_body(bytes@, entry));
    body
}

/// Decodes an archive: reads the message count and the key, unmasks the
/// table, and for each entry, in the order of the table, decrypts and
/// decodes the body that it points to.
///
/// The offsets and lengths of a file are never trusted: an archive
/// shorter than its header, its table or one of its bodies gives
/// `MalformedArchive`, and nothing outside the bytes is ever read.
pub fn decode_archive(
    charmap: &Charmap,
    archive_file: &Vec<u8>,
    msgenc_format: bool,
    diag: &mut Vec<MessageWarning>,
) -> (r: Result<Archive, CodecError>)
    ensures
        r is Ok <==> spec_well_formed(archive_file@),
        r is Ok ==> r->Ok_0@ == spec_decode_archive(charmap@, archive_file@, msgenc_format),
        r is Ok ==> final(diag)@ == old(diag)@ + spec_decode_warnings(
            charmap@,
            archive_file@,
            msgenc_format,
            spec_count(archive_file@),
        ),
        r is Err ==> r == Err::<Archive, CodecError>(CodecError::MalformedArchive),
        r is Err ==> final(diag)@ == old(diag)@,
{
    let bytes = archive_file.as_slice();
    if bytes.len() < 4 {
        return Err(CodecError::MalformedArchive);
    }
    let count = read_u16_at(bytes, 0);
    let key = read_u16_at(bytes, 2);
    let table = match read_table(bytes, count, key) {
        Some(table) => table,
        None => {
            return Err(CodecError::MalformedArchive);
        },
    };
    let mut messages: Vec<String> = Vec::with_capacity(count as usize);
    let mut i: usize = 0;
    while i < table.len()
        invariant
            i <= table.len(),
            table.len() == count,
            bytes@ == archive_file@,
            spec_well_formed(bytes@),
            count == spec_count(bytes@),
            forall|j: int| 0 <= j < count ==> table[j] == spec_entry(bytes@, j),
            messages.len() == i,
            forall|j: int|
                0 <= j < i ==> messages[j]@ == spec_decoded_message(
                    charmap@,
                    bytes@,
                    j,
                    msgenc_format,
                ).out,
            diag@ == old(diag)@ + spec_decode_warnings(
                charmap@,
                bytes@,
                msgenc_format,
                i as int,
            ),
        decreases table.len() - i,
    {
        let entry = table[i];
        assert(spec_entry_fits(spec_entry(bytes@, i as int), bytes.len() as int));
        let body = read_body(bytes, entry);
        let codes = decrypt_message(&body, (i + 1) as u16);
        assert(codes@ == spec_message_codes(bytes@, i as int));
        let mut warnings: Vec<Warning> = Vec::new();
        let text = decode_message_to_string(charmap, &codes, msgenc_format, &mut warnings);
        assert(warnings@ =~= spec_decoded_message(
            charmap@,
            bytes@,
            i as int,
            msgenc_format,
        ).warnings);
        push_tagged(diag, &warnings, i);
        messages.push(text);
        i += 1;
    }
    let archive = Archive { key, messages };
    assert(archive@.messages =~= spec_decode_archive(
        charmap@,
        archive_file@,
        msgenc_format,
    ).messages);
    Ok(archive)
}

} // verus!
