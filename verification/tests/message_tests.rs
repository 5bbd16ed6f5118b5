use message_archive::charmap::Charmap;
use message_archive::decode::decode_message_to_string;
use message_archive::diag::{Warning, WarningKind};
use message_archive::encode::{encode_char, encode_chars_to_message, encode_string_to_message};

fn charmap() -> Charmap {
    let mut charmap = Charmap::new();
    charmap.add_char(0x0041, "A");
    charmap.add_char(0x0042, "B");
    charmap.add_char(0x0043, "C");
    charmap.add_char(0x0010, "X");
    charmap.add_char(0x0020, "Y");
    charmap.add_char(0x00E0, "\\n");
    charmap.add_char(0x0160, "é");
    charmap.add_char(0x0161, "{");
    charmap.add_alias(0x0150, "[PK]");
    charmap.add_alias(0x0041, "a");
    charmap.add_command(0x1200, "MOVE");
    charmap.add_command(0x0200, "STRVAR_1");
    charmap.add_command(0x0300, "WAIT");
    charmap
}

fn encode(text: &str, msgenc_format: bool) -> (Vec<u16>, Vec<Warning>) {
    let mut diag = Vec::new();
    let codes = encode_string_to_message(&charmap(), text, msgenc_format, &mut diag);
    (codes, diag)
}

fn decode(codes: &[u16], msgenc_format: bool) -> (String, Vec<Warning>) {
    let mut diag = Vec::new();
    let text = decode_message_to_string(&charmap(), &codes.to_vec(), msgenc_format, &mut diag);
    (text, diag)
}

fn warn(kind: WarningKind, position: usize) -> Warning {
    Warning { kind, position }
}

#[test]
fn mapped_characters_encode_to_their_codes() {
    assert_eq!(encode("ABé", false), (vec![0x41, 0x42, 0x160, 0xFFFF], vec![]));
}

#[test]
fn an_empty_message_is_the_terminator() {
    assert_eq!(encode("", false), (vec![0xFFFF], vec![]));
    assert_eq!(encode("", true), (vec![0xFFFF], vec![]));
}

#[test]
fn a_single_character_alias_encodes_like_a_character() {
    assert_eq!(encode("aA", false), (vec![0x41, 0x41, 0xFFFF], vec![]));
}

#[test]
fn an_unmapped_character_becomes_the_placeholder() {
    assert_eq!(
        encode("A?B", false),
        (vec![0x41, 0, 0x42, 0xFFFF], vec![warn(WarningKind::UnknownCharacter, 1)])
    );
}

#[test]
fn a_bracketed_alias_encodes_to_its_code() {
    assert_eq!(encode("[PK]A", false), (vec![0x150, 0x41, 0xFFFF], vec![]));
}

#[test]
fn an_unknown_alias_becomes_the_placeholder() {
    assert_eq!(
        encode("A[ZZ]B", false),
        (vec![0x41, 0, 0x42, 0xFFFF], vec![warn(WarningKind::UnknownAlias, 1)])
    );
}

#[test]
fn an_unmatched_bracket_takes_the_rest_of_the_message() {
    assert_eq!(
        encode("A[PKAB", false),
        (vec![0x41, 0, 0xFFFF], vec![warn(WarningKind::UnmatchedBracket, 1)])
    );
}

#[test]
fn a_hexadecimal_escape_encodes_to_its_code() {
    assert_eq!(encode("\\x0041\\xfffeA", false), (vec![0x41, 0xFFFE, 0x41, 0xFFFF], vec![]));
}

#[test]
fn a_hexadecimal_escape_needs_four_hexadecimal_digits() {
    assert_eq!(
        encode("\\x00G1A", false),
        (vec![0, 0x41, 0xFFFF], vec![warn(WarningKind::InvalidEscape, 0)])
    );
    assert_eq!(
        encode("A\\x004", false),
        (vec![0x41, 0, 0xFFFF], vec![warn(WarningKind::IncompleteEscape, 1)])
    );
    assert_eq!(encode("\\x", false), (vec![0, 0xFFFF], vec![warn(WarningKind::IncompleteEscape, 0)]));
}

#[test]
fn a_hexadecimal_escape_reads_a_sign_as_the_number_parser_does() {
    assert_eq!(encode("\\x+041", false), (vec![0x41, 0xFFFF], vec![]));
}

#[test]
fn a_backslash_at_the_end_becomes_the_placeholder() {
    assert_eq!(
        encode("A\\", false),
        (vec![0x41, 0, 0xFFFF], vec![warn(WarningKind::IncompleteEscape, 1)])
    );
}

#[test]
fn a_named_escape_encodes_to_its_code() {
    assert_eq!(encode("A\\nB", false), (vec![0x41, 0xE0, 0x42, 0xFFFF], vec![]));
}

#[test]
fn an_unknown_named_escape_becomes_the_placeholder() {
    assert_eq!(
        encode("A\\qB", false),
        (vec![0x41, 0, 0x42, 0xFFFF], vec![warn(WarningKind::UnknownEscape, 1)])
    );
}

#[test]
fn a_mapped_character_is_never_read_as_syntax() {
    // `{` is mapped by itself in this character map
    assert_eq!(encode("{A", false), (vec![0x161, 0x41, 0xFFFF], vec![]));
}

#[test]
fn a_canonical_command_in_a_message() {
    let mut unmapped_brace = Charmap::new();
    unmapped_brace.add_char(0x0041, "A");
    unmapped_brace.add_command(0x1200, "MOVE");
    let mut diag = Vec::new();
    let codes = encode_string_to_message(&unmapped_brace, "A{MOVE, 52, 5, 6}A", false, &mut diag);
    assert_eq!(codes, vec![0x41, 0xFFFE, 0x1234, 2, 5, 6, 0x41, 0xFFFF]);
    assert!(diag.is_empty());
}

fn plain() -> Charmap {
    let mut charmap = Charmap::new();
    charmap.add_char(0x0041, "A");
    charmap.add_char(0x0010, "X");
    charmap.add_char(0x0020, "Y");
    charmap.add_command(0x1200, "MOVE");
    charmap.add_command(0x0200, "STRVAR_1");
    charmap.add_command(0x0300, "WAIT");
    charmap
}

fn encode_plain(text: &str, msgenc_format: bool) -> (Vec<u16>, Vec<Warning>) {
    let mut diag = Vec::new();
    let codes = encode_string_to_message(&plain(), text, msgenc_format, &mut diag);
    (codes, diag)
}

#[test]
fn an_empty_command_becomes_the_placeholder() {
    assert_eq!(
        encode_plain("A{}A", false),
        (vec![0x41, 0, 0x41, 0xFFFF], vec![warn(WarningKind::EmptyCommand, 1)])
    );
}

#[test]
fn an_unmatched_brace_takes_the_rest_of_the_message() {
    assert_eq!(
        encode_plain("A{MOVE, 1", false),
        (vec![0x41, 0, 0xFFFF], vec![warn(WarningKind::UnmatchedBrace, 1)])
    );
}

#[test]
fn a_command_reports_at_the_position_of_its_text() {
    assert_eq!(
        encode_plain("AA{MOVE}", false),
        (vec![0x41, 0x41, 0, 0xFFFF], vec![warn(WarningKind::MalformedCommand, 3)])
    );
    assert_eq!(
        encode_plain("A{JUMP, 1}", false),
        (vec![0x41, 0xFFFE, 1, 0, 0xFFFF], vec![warn(WarningKind::UnknownCommand, 2)])
    );
}

#[test]
fn a_canonical_trainer_name_in_a_message() {
    assert_eq!(
        encode_plain("A{TRAINER_NAME:XY}A", false),
        (vec![0x41, 0xF100, 0x4010, 0x7FF8, 0x41, 0xFFFF], vec![])
    );
}

#[test]
fn a_canonical_trainer_name_is_read_in_the_legacy_syntax_too() {
    assert_eq!(
        encode_plain("{TRAINER_NAME:XY}", true),
        (vec![0xF100, 0x4010, 0x7FF8, 0xFFFF], vec![])
    );
}

#[test]
fn a_trainer_name_reports_at_the_position_of_the_character() {
    assert_eq!(
        encode_plain("A{TRAINER_NAME:X?}", false).1,
        vec![warn(WarningKind::UnknownCharacter, 16)]
    );
    assert_eq!(encode_plain("{TRNAME}?", true).1, vec![warn(WarningKind::UnknownCharacter, 8)]);
}

#[test]
fn a_legacy_trainer_name_takes_the_rest_of_the_message() {
    assert_eq!(
        encode_plain("A{TRNAME}XY", true),
        (vec![0x41, 0xF100, 0x4010, 0x7FF8, 0xFFFF], vec![])
    );
}

#[test]
fn a_legacy_trainer_name_is_a_command_in_the_canonical_syntax() {
    assert_eq!(
        encode_plain("{TRNAME}XY", false),
        (vec![0, 0x10, 0x20, 0xFFFF], vec![warn(WarningKind::MalformedCommand, 1)])
    );
}

#[test]
fn a_legacy_command_in_a_message() {
    assert_eq!(
        encode_plain("A{STRVAR_1 3, 1, 2}{WAIT 5}", true),
        (vec![0x41, 0xFFFE, 0x0203, 2, 1, 2, 0xFFFE, 0x0300, 1, 5, 0xFFFF], vec![])
    );
}

#[test]
fn encode_chars_is_encode_string() {
    let text = "A{MOVE, 1, 2}[X]\\x1234?";
    let chars: Vec<char> = text.chars().collect();
    let mut diag = Vec::new();
    let from_chars = encode_chars_to_message(&plain(), &chars, false, &mut diag);
    assert_eq!((from_chars, diag), encode_plain(text, false));
}

#[test]
fn encode_char_looks_a_character_up() {
    assert_eq!(encode_char(&charmap(), 'A'), Some(0x41));
    assert_eq!(encode_char(&charmap(), 'é'), Some(0x160));
    assert_eq!(encode_char(&charmap(), 'Z'), None);
    assert_eq!(encode_char(&charmap(), '['), None);
}

#[test]
fn codes_decode_to_their_text() {
    assert_eq!(decode(&[0x41, 0x42, 0x160, 0xE0, 0xFFFF], false), ("ABé\\n".to_string(), vec![]));
}

#[test]
fn one_code_and_the_terminator_decode_to_one_character() {
    assert_eq!(decode(&[0x0041, 0xFFFF], false), ("A".to_string(), vec![]));
}

#[test]
fn no_codes_decode_to_no_text() {
    assert_eq!(decode(&[], false), (String::new(), vec![]));
    assert_eq!(decode(&[0xFFFF], false), (String::new(), vec![]));
}

#[test]
fn codes_without_terminator_decode_to_their_end() {
    assert_eq!(decode(&[0x41, 0x42], false), ("AB".to_string(), vec![]));
}

#[test]
fn an_unknown_code_is_written_as_an_escape() {
    assert_eq!(
        decode(&[0x41, 0x9ABC, 0x000F, 0xFFFF], false),
        (
            "A\\x9ABC\\x000F".to_string(),
            vec![warn(WarningKind::UnknownCode, 1), warn(WarningKind::UnknownCode, 2)]
        )
    );
}

#[test]
fn one_code_unit_after_the_terminator_is_no_matter() {
    assert_eq!(decode(&[0x41, 0xFFFF, 0x42], false), ("A".to_string(), vec![]));
}

#[test]
fn more_after_the_terminator_is_reported_and_ignored() {
    assert_eq!(
        decode(&[0x41, 0xFFFF, 0x42, 0x43], false),
        ("A".to_string(), vec![warn(WarningKind::TrailingData, 1)])
    );
}

#[test]
fn a_command_in_a_message_decodes_with_its_family() {
    let codes = [0x41, 0xFFFE, 0x1234, 0x0002, 0x0005, 0x0006, 0x42, 0xFFFF];
    assert_eq!(decode(&codes, false), ("A{MOVE, 52, 5, 6}B".to_string(), vec![]));
    assert_eq!(decode(&codes, true), ("A{MOVE 52, 5, 6}B".to_string(), vec![]));
}

#[test]
fn a_command_cut_by_the_end_of_the_message() {
    assert_eq!(
        decode(&[0x41, 0xFFFE, 0x1234, 0x0003, 0x0001], false),
        ("A\\xFFFE\\x1234\\x0003".to_string(), vec![warn(WarningKind::TruncatedCommand, 1)])
    );
    assert_eq!(
        decode(&[0x41, 0xFFFE], false),
        ("A\\xFFFE".to_string(), vec![warn(WarningKind::TruncatedCommand, 1)])
    );
}

#[test]
fn a_trainer_name_in_a_message() {
    let codes = [0x41, 0xF100, 0x4010, 0x7FF8, 0x42, 0xFFFF];
    assert_eq!(decode(&codes, false), ("A{TRAINER_NAME:XY}B".to_string(), vec![]));
    assert_eq!(decode(&codes, true), ("A{TRNAME}XYB".to_string(), vec![]));
}

#[test]
fn a_trainer_name_at_the_end_of_a_message() {
    assert_eq!(decode(&[0xF100, 0x7E10, 0xFFFF], false), ("{TRAINER_NAME:X}".to_string(), vec![]));
    assert_eq!(decode(&[0xF100], false), ("{TRAINER_NAME:}".to_string(), vec![]));
}

#[test]
fn escapes_of_unknown_codes_encode_back() {
    let codes = vec![0x41, 0x9ABC, 0x000F, 0xF0F0, 0xFFFF];
    let (text, _) = decode(&codes, false);
    assert_eq!(encode(&text, false).0, codes);
}

#[test]
fn messages_of_mapped_characters_round_trip() {
    for text in ["", "A", "ABC", "XYXY", "éABé", "CCCCCCCCCCCCCCCCCCCCCCCCCCCCCCCCCC"] {
        for msgenc_format in [false, true] {
            let (codes, warnings) = encode(text, msgenc_format);
            assert!(warnings.is_empty());
            assert_eq!(decode(&codes, msgenc_format), (text.to_string(), vec![]));
        }
    }
}
