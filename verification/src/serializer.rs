//! A decoded archive as plain text: a key line, then one message per line.
use crate::archive::{
    spec_bodies, spec_encode_archive, spec_encode_warnings, spec_archive_fits, spec_texts, Archive,
    ArchiveView, CodecError, MessageWarning,
};
use crate::charmap::Charmap;
use crate::encode::encode_messages;
use crate::text::{
    first, from_chars, parse_code, push_hex4, spec_first, spec_hex4, spec_parse_code,
    spec_pieces, spec_ranges_within, spec_starts_with, spec_trim, spec_trim_start, starts_with,
    to_chars, trim_range, CharClass,
};
use vstd::prelude::*;

verus! {

/// The lines of a text from position `from` on. A line ends at a line
/// feed; a carriage return just before the line feed belongs to the line
/// ending. A text that ends in a line ending has no empty last line.
pub open spec fn spec_lines(s: Seq<char>, from: int) -> Seq<Seq<char>>
    decreases s.len() - from,
{
    let newline = spec_first(s, from, CharClass::Is('\n'));
    if from < 0 || from >= s.len() {
        Seq::empty()
    } else if newline < from || newline >= s.len() {
        seq![s.subrange(from, s.len() as int)]
    } else if from < newline && s[newline - 1] == '\r' {
        seq![s.subrange(from, newline - 1)] + spec_lines(s, newline + 1)
    } else {
        seq![s.subrange(from, newline)] + spec_lines(s, newline + 1)
    }
}

/// Cuts a text into its lines; gives the bounds of the lines.
pub fn lines(s: &[char]) -> (ranges: Vec<(usize, usize)>)
    ensures
        spec_pieces(s@, ranges@) == spec_lines(s@, 0),
        spec_ranges_within(ranges@, s.len() as int),
{
    let mut ranges: Vec<(usize, usize)> = Vec::new();
    let mut from: usize = 0;
    while from < s.len()
        invariant
            from <= s.len(),
            spec_ranges_within(ranges@, s.len() as int),
            spec_lines(s@, 0) == spec_pieces(s@, ranges@) + spec_lines(s@, from as int),
        decreases s.len() - from,
    {
        let newline = first(s, from, CharClass::Is('\n'));
        let end = if newline < s.len() && from < newline && s[newline - 1] == '\r' {
            newline - 1
        } else {
            newline
        };
        let ghost before = ranges@;
        ranges.push((from, end));
        proof {
            assert(spec_pieces(s@, ranges@) =~= spec_pieces(s@, before) + seq![
                s@.subrange(from as int, end as int),
            ]);
        }
        if newline >= s.len() {
            from = s.len();
        } else {
            from = newline + 1;
        }
    }
    proof {
        assert(spec_pieces(s@, ranges@) + Seq::<Seq<char>>::empty() =~= spec_pieces(s@, ranges@));
    }
    ranges
}

/// Whether a line is a comment: `//` after any white space.
pub open spec fn spec_is_comment(line: Seq<char>) -> bool {
    spec_starts_with(
        line.subrange(spec_trim_start(line, 0, line.len() as int), line.len() as int),
        "//"@,
    )
}

/// Whether a line carries the key of the archive.
pub open spec fn spec_is_key_line(line: Seq<char>) -> bool {
    spec_starts_with(line, "// Key: "@)
}

/// The key that a key line carries: the number after `// Key: `, in
/// hexadecimal after `0x` or in decimal, and `0` where there is no number.
pub open spec fn spec_key_of(line: Seq<char>) -> u16 {
    spec_parse_code(spec_trim(line.subrange("// Key: "@.len() as int, line.len() as int)))
}

/// The key of a text file: that of its first line if that is a key
/// line; `0` otherwise. The legacy syntax has no key line.
pub open spec fn spec_text_key(lines: Seq<Seq<char>>, legacy: bool) -> u16 {
    if !legacy && lines.len() > 0 && spec_is_key_line(lines[0]) {
        spec_key_of(lines[0])
    } else {
        0
    }
}

/// The messages among the first `n` lines: the lines that are no comments.
pub open spec fn spec_text_messages(lines: Seq<Seq<char>>, n: int) -> Seq<Seq<char>>
    decreases n,
{
    if n <= 0 {
        Seq::empty()
    } else if spec_is_comment(lines[n - 1]) {
        spec_text_messages(lines, n - 1)
    } else {
        spec_text_messages(lines, n - 1).push(lines[n - 1])
    }
}

/// What a plain text file holds: the key, and one message per line that
/// is no comment.
pub open spec fn spec_read_text(text: Seq<char>, legacy: bool) -> ArchiveView {
    let lines = spec_lines(text, 0);
    ArchiveView {
        key: spec_text_key(lines, legacy),
        messages: spec_text_messages(lines, lines.len() as int),
    }
}

fn is_comment(line: &[char]) -> (r: bool)
    ensures
        r == spec_is_comment(line@),
{
    let start = first(line, 0, CharClass::NotSpace);
    let marker = to_chars("//");
    proof {
        lemma_skip_space(line@, 0);
    }
    starts_with(&line[start..line.len()], marker.as_slice())
}

/// Skipping white space from the left is finding what is no white space.
proof fn lemma_skip_space(line: Seq<char>, from: int)
    requires
        0 <= from <= line.len(),
    ensures
        spec_trim_start(line, from, line.len() as int) == spec_first(
            line,
            from,
            CharClass::NotSpace,
        ),
    decreases line.len() - from,
{
    if from < line.len() {
        lemma_skip_space(line, from + 1);
    }
}

/// Reads a plain text file: the key from a leading `// Key: ` line
/// (canonical syntax only), and one message from each line that is no
/// comment.
pub fn read_text(text: &str, msgenc_format: bool) -> (archive: Archive)
    ensures
        archive@ == spec_read_text(text@, msgenc_format),
{
    let chars = to_chars(text);
    let s = chars.as_slice();
    let ranges = lines(s);
    let ghost all = spec_lines(s@, 0);
    let mut key: u16 = 0;
    if !msgenc_format && ranges.len() > 0 {
        let (a, b) = ranges[0];
        let line = &s[a..b];
        assert(line@ == all[0]);
        let prefix = to_chars("// Key: ");
        if starts_with(line, prefix.as_slice()) {
            let (from, to) = trim_range(line, prefix.len(), line.len());
            key = parse_code(&line[from..to]);
        }
    }
    let mut messages: Vec<String> = Vec::new();
    let mut i: usize = 0;
    while i < ranges.len()
        invariant
            i <= ranges.len(),
            spec_ranges_within(ranges@, s.len() as int),
            all == spec_pieces(s@, ranges@),
            spec_texts(messages@) == spec_text_messages(all, i as int),
        decreases ranges.len() - i,
    {
        let (a, b) = ranges[i];
        let line = &s[a..b];
        assert(line@ == all[i as int]);
        if !is_comment(line) {
            let ghost before = messages@;
            messages.push(from_chars(line));
            assert(spec_texts(messages@) =~= spec_texts(before).push(line@));
        }
        i += 1;
    }
    Archive { key, messages }
}

/// The first `n` messages, each with a line feed after it.
pub open spec fn spec_write_lines(messages: Seq<Seq<char>>, n: int) -> Seq<char>
    decreases n,
{
    if n <= 0 {
        Seq::empty()
    } else {
        spec_write_lines(messages, n - 1) + messages[n - 1] + seq!['\n']
    }
}

/// The line that carries a key: `// Key: 0x` and four hexadecimal digits.
pub open spec fn spec_key_line(key: u16) -> Seq<char> {
    "// Key: 0x"@ + spec_hex4(key) + seq!['\n']
}

/// The plain text file of an archive: the key line (canonical syntax
/// only), then one message per line, in the order of the archive.
pub open spec fn spec_write_text(archive: ArchiveView, legacy: bool) -> Seq<char> {
    if legacy {
        spec_write_lines(archive.messages, archive.messages.len() as int)
    } else {
        spec_key_line(archive.key) + spec_write_lines(
            archive.messages,
            archive.messages.len() as int,
        )
    }
}

/// Writes an archive as plain text.
pub fn write_text(archive: &Archive, msgenc_format: bool) -> (text: String)
    ensures
        text@ == spec_write_text(archive@, msgenc_format),
{
    let mut text = String::new();
    if !msgenc_format {
        text.push_str("// Key: 0x");
        push_hex4(&mut text, archive.key);
        text.push('\n');
        assert(text@ =~= spec_key_line(archive.key));
    }
    let ghost head = text@;
    let ghost messages = spec_texts(archive.messages@);
    let mut i: usize = 0;
    while i < archive.messages.len()
        invariant
            i <= archive.messages.len(),
            messages == spec_texts(archive.messages@),
            text@ == head + spec_write_lines(messages, i as int),
        decreases archive.messages.len() - i,
    {
        text.push_str(archive.messages[i].as_str());
        text.push('\n');
        assert(text@ =~= head + spec_write_lines(messages, i + 1));
        i += 1;
    }
    assert(text@ =~= spec_write_text(archive@, msgenc_format));
    text
}

/// Encodes a plain text file into an archive.
pub fn encode_text(
    charmap: &Charmap,
    text: &str,
    msgenc_format: bool,
    diag: &mut Vec<MessageWarning>,
) -> (r: Result<Vec<u8>, CodecError>)
    ensures
        r is Ok <==> spec_archive_fits(
            spec_bodies(charmap@, spec_read_text(text@, msgenc_format).messages, msgenc_format),
        ),
        r is Ok ==> r->Ok_0@ == spec_encode_archive(
            charmap@,
            spec_read_text(text@, msgenc_format).key,
            spec_read_text(text@, msgenc_format).messages,
            msgenc_format,
        ),
        r is Ok ==> final(diag)@ == old(diag)@ + spec_encode_warnings(
            charmap@,
            spec_read_text(text@, msgenc_format).messages,
            msgenc_format,
            spec_read_text(text@, msgenc_format).messages.len() as int,
        ),
        r is Err ==> r == Err::<Vec<u8>, CodecError>(CodecError::ArchiveTooLarge),
        r is Err ==> final(diag)@ == old(diag)@,
{
    let archive = read_text(text, msgenc_format);
    encode_messages(charmap, archive.key, archive.messages.as_slice(), msgenc_format, diag)
}

/// `s` without the byte order marks at its beginning.
pub open spec fn spec_strip_bom(s: Seq<char>) -> Seq<char> {
    s.subrange(spec_first(s, 0, CharClass::Not('\u{FEFF}')), s.len() as int)
}

/// Takes the byte order marks from the beginning of a text.
pub fn strip_bom(text: &str) -> (stripped: String)
    ensures
        stripped@ == spec_strip_bom(text@),
{
    let chars = to_chars(text);
    let start = first(chars.as_slice(), 0, CharClass::Not('\u{FEFF}'));
    from_chars(&chars.as_slice()[start..chars.len()])
}

} // verus!
