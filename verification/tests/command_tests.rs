use message_archive::charmap::Charmap;
use message_archive::decode::decode_command;
use message_archive::diag::{Warning, WarningKind};
use message_archive::encode::{encode_command, encode_command_msgenc, split_trim, tokens};

fn charmap() -> Charmap {
    let mut charmap = Charmap::new();
    charmap.add_command(0x1200, "MOVE");
    charmap.add_command(0x0200, "STRVAR_1");
    charmap.add_command(0x0300, "WAIT");
    charmap.add_command(0x0301, "WAIT_ONE");
    charmap
}

fn chars(s: &str) -> Vec<char> {
    s.chars().collect()
}

fn warn(kind: WarningKind, position: usize) -> Warning {
    Warning { kind, position }
}

#[test]
fn a_family_member_decodes_with_its_special_byte() {
    let mut diag = Vec::new();
    let codes = [0xFFFE, 0x1234, 0x0002, 0x0005, 0x0006];
    let (text, used) = decode_command(&charmap(), &codes, false, &mut diag);
    assert_eq!(text, "{MOVE, 52, 5, 6}");
    assert_eq!(used, 5);
    assert!(diag.is_empty());
}

#[test]
fn a_family_member_decodes_in_the_legacy_syntax() {
    let mut diag = Vec::new();
    let codes = [0xFFFE, 0x1234, 0x0002, 0x0005, 0x0006];
    let (text, used) = decode_command(&charmap(), &codes, true, &mut diag);
    assert_eq!(text, "{MOVE 52, 5, 6}");
    assert_eq!(used, 5);
}

#[test]
fn an_exact_code_has_special_byte_zero() {
    let mut diag = Vec::new();
    let codes = [0xFFFE, 0x1200, 0x0002, 0x0005, 0x0006, 0x0041];
    let (text, used) = decode_command(&charmap(), &codes, false, &mut diag);
    assert_eq!(text, "{MOVE, 0, 5, 6}");
    assert_eq!(used, 5);
}

#[test]
fn the_legacy_syntax_omits_a_zero_special_byte() {
    let mut diag = Vec::new();
    let codes = [0xFFFE, 0x1200, 0x0002, 0x0005, 0x0006];
    assert_eq!(decode_command(&charmap(), &codes, true, &mut diag).0, "{MOVE 5, 6}");
    let codes = [0xFFFE, 0x1200, 0x0001, 0x0009];
    assert_eq!(decode_command(&charmap(), &codes, true, &mut diag).0, "{MOVE 9}");
}

#[test]
fn a_command_without_values() {
    let mut diag = Vec::new();
    let codes = [0xFFFE, 0x1200, 0x0000];
    assert_eq!(decode_command(&charmap(), &codes, true, &mut diag), ("{MOVE}".to_string(), 3));
    assert_eq!(decode_command(&charmap(), &codes, false, &mut diag), ("{MOVE, 0}".to_string(), 3));
}

#[test]
fn an_exact_code_wins_over_its_family() {
    let mut diag = Vec::new();
    let codes = [0xFFFE, 0x0301, 0x0000];
    assert_eq!(decode_command(&charmap(), &codes, false, &mut diag).0, "{WAIT_ONE, 0}");
    let codes = [0xFFFE, 0x0302, 0x0000];
    assert_eq!(decode_command(&charmap(), &codes, false, &mut diag).0, "{WAIT, 2}");
}

#[test]
fn an_unknown_command_is_written_by_its_code() {
    let mut diag = Vec::new();
    let codes = [0xFFFE, 0x7777, 0x0001, 0xFFFF];
    let (text, used) = decode_command(&charmap(), &codes, false, &mut diag);
    assert_eq!(text, "{0x7777, 0, 65535}");
    assert_eq!(used, 4);
    assert_eq!(diag, vec![warn(WarningKind::UnknownCommand, 0)]);
}

#[test]
fn a_stray_marker_is_written_as_an_escape() {
    let mut diag = Vec::new();
    let (text, used) = decode_command(&charmap(), &[0xFFFE], false, &mut diag);
    assert_eq!(text, "\\xFFFE");
    assert_eq!(used, 1);
    assert_eq!(diag, vec![warn(WarningKind::TruncatedCommand, 0)]);
}

#[test]
fn a_command_without_its_count_is_written_as_escapes() {
    let mut diag = Vec::new();
    let (text, used) = decode_command(&charmap(), &[0xFFFE, 0x1234], false, &mut diag);
    assert_eq!(text, "\\xFFFE\\x1234");
    assert_eq!(used, 2);
    assert_eq!(diag, vec![warn(WarningKind::TruncatedCommand, 0)]);
}

#[test]
fn a_command_without_all_its_parameters_is_written_as_escapes() {
    let mut diag = Vec::new();
    let (text, used) = decode_command(&charmap(), &[0xFFFE, 0x1234, 0x0003, 0x0001], true, &mut diag);
    assert_eq!(text, "\\xFFFE\\x1234\\x0003");
    assert_eq!(used, 6);
    assert_eq!(diag, vec![warn(WarningKind::TruncatedCommand, 0)]);
}

#[test]
fn an_empty_slice_decodes_like_a_stray_marker() {
    let mut diag = Vec::new();
    assert_eq!(decode_command(&charmap(), &[], false, &mut diag), ("\\xFFFE".to_string(), 1));
}

#[test]
fn a_canonical_command_encodes_name_special_and_parameters() {
    let mut diag = Vec::new();
    let codes = encode_command(&charmap(), "MOVE, 52, 5, 6", &mut diag);
    assert_eq!(codes, vec![0xFFFE, 0x1234, 2, 5, 6]);
    assert!(diag.is_empty());
}

#[test]
fn a_canonical_command_takes_hexadecimal_values_and_any_spacing() {
    let mut diag = Vec::new();
    let codes = encode_command(&charmap(), "  MOVE ,0x34,  0x10 ,\t65535", &mut diag);
    assert_eq!(codes, vec![0xFFFE, 0x1234, 2, 16, 65535]);
}

#[test]
fn a_canonical_command_without_parameters() {
    let mut diag = Vec::new();
    assert_eq!(encode_command(&charmap(), "WAIT, 0", &mut diag), vec![0xFFFE, 0x0300, 0]);
}

#[test]
fn a_canonical_command_without_special_byte_is_replaced() {
    let mut diag = Vec::new();
    assert_eq!(encode_command(&charmap(), "MOVE", &mut diag), vec![0]);
    assert_eq!(encode_command(&charmap(), "", &mut diag), vec![0]);
    assert_eq!(
        diag,
        vec![warn(WarningKind::MalformedCommand, 0), warn(WarningKind::MalformedCommand, 0)]
    );
}

#[test]
fn an_unknown_name_is_read_as_a_number() {
    let mut diag = Vec::new();
    assert_eq!(encode_command(&charmap(), "0x7777, 0, 65535", &mut diag), vec![0xFFFE, 0x7777, 1, 65535]);
    assert_eq!(encode_command(&charmap(), "513, 1", &mut diag), vec![0xFFFE, 0x0201, 0]);
    assert_eq!(encode_command(&charmap(), "JUMP, 1", &mut diag), vec![0xFFFE, 0x0001, 0]);
    assert_eq!(
        diag,
        vec![
            warn(WarningKind::UnknownCommand, 0),
            warn(WarningKind::UnknownCommand, 0),
            warn(WarningKind::UnknownCommand, 0),
        ]
    );
}

#[test]
fn a_value_that_is_no_number_counts_as_zero() {
    let mut diag = Vec::new();
    assert_eq!(encode_command(&charmap(), "MOVE, x, , 1 2", &mut diag), vec![0xFFFE, 0x1200, 2, 0, 0]);
    assert!(diag.is_empty());
}

#[test]
fn a_value_keeps_its_low_sixteen_bits() {
    let mut diag = Vec::new();
    assert_eq!(encode_command(&charmap(), "MOVE, 0, 65537", &mut diag), vec![0xFFFE, 0x1200, 1, 1]);
    assert_eq!(encode_command(&charmap(), "MOVE, 0x10001", &mut diag), vec![0xFFFE, 0x1201, 0]);
}

#[test]
fn a_legacy_command_of_the_string_family_takes_a_special_byte() {
    let mut diag = Vec::new();
    let codes = encode_command_msgenc(&charmap(), "STRVAR_1 3, 1, 2", &mut diag);
    assert_eq!(codes, vec![0xFFFE, 0x0203, 2, 1, 2]);
    assert!(diag.is_empty());
}

#[test]
fn a_legacy_command_of_another_family_has_parameters_only() {
    let mut diag = Vec::new();
    assert_eq!(encode_command_msgenc(&charmap(), "WAIT 5", &mut diag), vec![0xFFFE, 0x0300, 1, 5]);
    assert_eq!(encode_command_msgenc(&charmap(), "MOVE 52, 5, 6", &mut diag), vec![0xFFFE, 0x1200, 3, 52, 5, 6]);
}

#[test]
fn a_legacy_command_without_values() {
    let mut diag = Vec::new();
    assert_eq!(encode_command_msgenc(&charmap(), "WAIT", &mut diag), vec![0xFFFE, 0x0300, 0]);
    assert_eq!(encode_command_msgenc(&charmap(), "STRVAR_1", &mut diag), vec![0xFFFE, 0x0200, 0]);
    assert_eq!(encode_command_msgenc(&charmap(), "  STRVAR_1  ", &mut diag), vec![0xFFFE, 0x0200, 0]);
}

#[test]
fn legacy_values_are_separated_by_commas_or_white_space() {
    let mut diag = Vec::new();
    assert_eq!(
        encode_command_msgenc(&charmap(), "WAIT 1 2,3 ,, 4,", &mut diag),
        vec![0xFFFE, 0x0300, 4, 1, 2, 3, 4]
    );
}

#[test]
fn a_legacy_name_ends_at_white_space_only() {
    let mut diag = Vec::new();
    assert_eq!(encode_command_msgenc(&charmap(), "WAIT,5", &mut diag), vec![0xFFFE, 0, 0]);
    assert_eq!(diag, vec![warn(WarningKind::UnknownCommand, 0)]);
}

#[test]
fn a_legacy_command_of_white_space_is_replaced() {
    let mut diag = Vec::new();
    assert_eq!(encode_command_msgenc(&charmap(), "  \t ", &mut diag), vec![0]);
    assert_eq!(encode_command_msgenc(&charmap(), "", &mut diag), vec![0]);
    assert_eq!(
        diag,
        vec![warn(WarningKind::EmptyCommand, 0), warn(WarningKind::EmptyCommand, 0)]
    );
}

#[test]
fn an_unknown_legacy_name_of_the_string_family_still_takes_a_special_byte() {
    let mut diag = Vec::new();
    assert_eq!(encode_command_msgenc(&charmap(), "STRVAR_9 7, 8", &mut diag), vec![0xFFFE, 0x0007, 1, 8]);
    assert_eq!(diag, vec![warn(WarningKind::UnknownCommand, 0)]);
}

#[test]
fn the_parameter_count_wraps_at_sixteen_bits() {
    let mut diag = Vec::new();
    let mut text = String::from("MOVE, 0");
    for _ in 0..65537 {
        text.push_str(",1");
    }
    let codes = encode_command(&charmap(), &text, &mut diag);
    assert_eq!(codes.len(), 3 + 65537);
    assert_eq!(codes[2], 1);
}

#[test]
fn split_trim_cuts_at_commas() {
    let s = chars(" a , b,,c ");
    assert_eq!(split_trim(&s), vec![(1, 2), (5, 6), (7, 7), (8, 9)]);
    let (a, b) = split_trim(&chars(""))[0];
    assert_eq!(a, b);
    assert_eq!(split_trim(&chars("")).len(), 1);
    assert_eq!(split_trim(&chars(",")).len(), 2);
}

#[test]
fn tokens_cuts_at_commas_and_white_space() {
    let s = chars("ab 1, 22 ,3");
    assert_eq!(tokens(&s, 2), vec![(3, 4), (6, 8), (10, 11)]);
    assert_eq!(tokens(&s, 0), vec![(0, 2), (3, 4), (6, 8), (10, 11)]);
    assert!(tokens(&chars(" , ,"), 0).is_empty());
}

#[test]
fn canonical_commands_round_trip() {
    let charmap = charmap();
    for text in ["{MOVE, 52, 5, 6}", "{MOVE, 0}", "{WAIT, 255, 65535}", "{STRVAR_1, 3, 1, 2}", "{WAIT_ONE, 0, 7}"] {
        let mut diag = Vec::new();
        let codes = encode_command(&charmap, &text[1..text.len() - 1], &mut diag);
        let (decoded, used) = decode_command(&charmap, &codes, false, &mut diag);
        assert_eq!(decoded, text);
        assert_eq!(used, codes.len());
        assert!(diag.is_empty());
    }
}
