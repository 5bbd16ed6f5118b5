use message_archive::archive::Archive;
use message_archive::charmap::Charmap;
use message_archive::decode::decode_archive;
use message_archive::serializer::{encode_text, lines, read_text, strip_bom, write_text};

fn strings(texts: &[&str]) -> Vec<String> {
    texts.iter().map(|t| t.to_string()).collect()
}

fn charmap() -> Charmap {
    let mut charmap = Charmap::new();
    charmap.add_char(0x0041, "A");
    charmap.add_char(0x0042, "B");
    charmap.add_char(0x0043, "C");
    charmap
}

fn read(text: &str, msgenc_format: bool) -> (u16, Vec<String>) {
    let Archive { key, messages } = read_text(text, msgenc_format);
    (key, messages)
}

#[test]
fn lines_end_at_line_feeds() {
    let text: Vec<char> = "ab\n\ncd\r\ne\rf\n".chars().collect();
    assert_eq!(lines(&text), vec![(0, 2), (3, 3), (4, 6), (8, 11)]);
}

#[test]
fn lines_agree_with_std() {
    for text in ["", "\n", "a", "a\n", "a\nb", "a\r\nb\r\n", "\r\n", "a\r", "a\r\n\r", "\n\n", "\r\r\n", "x\n\ry"] {
        let chars: Vec<char> = text.chars().collect();
        let found: Vec<String> =
            lines(&chars).iter().map(|(a, b)| chars[*a..*b].iter().collect()).collect();
        let expected: Vec<String> = text.lines().map(|l| l.to_string()).collect();
        assert_eq!(found, expected);
    }
}

#[test]
fn a_text_file_holds_a_key_and_one_message_per_line() {
    assert_eq!(
        read("// Key: 0x1234\nAB\n// a comment\n\nC\r\n", false),
        (0x1234, strings(&["AB", "", "C"]))
    );
}

#[test]
fn a_key_may_be_decimal() {
    assert_eq!(read("// Key:   513  \nA", false), (513, strings(&["A"])));
}

#[test]
fn a_key_that_is_no_number_is_zero() {
    assert_eq!(read("// Key: 12AB\nA", false), (0, strings(&["A"])));
    assert_eq!(read("// Key: \nA", false), (0, strings(&["A"])));
}

#[test]
fn a_key_keeps_its_low_sixteen_bits() {
    assert_eq!(read("// Key: 0x12345\n", false).0, 0x2345);
}

#[test]
fn a_text_file_without_key_line_has_key_zero() {
    assert_eq!(read("AB\nC", false), (0, strings(&["AB", "C"])));
    assert_eq!(read("", false), (0, vec![]));
    assert_eq!(read("//Key: 0x1234\nA", false), (0, strings(&["A"])));
}

#[test]
fn a_key_line_counts_only_as_the_first_line() {
    assert_eq!(read("A\n// Key: 0x1234\nB", false), (0, strings(&["A", "B"])));
    assert_eq!(read("// Key: 1\n// Key: 2\nB", false), (1, strings(&["B"])));
}

#[test]
fn the_legacy_syntax_has_no_key_line() {
    assert_eq!(read("// Key: 0x1234\nAB", true), (0, strings(&["AB"])));
}

#[test]
fn comments_may_follow_white_space() {
    assert_eq!(read("  \t// note\nA // not a comment\n /", false), (0, strings(&["A // not a comment", " /"])));
}

#[test]
fn an_archive_is_written_with_its_key_line() {
    let archive = Archive { key: 0x00AB, messages: strings(&["AB", "", "C"]) };
    assert_eq!(write_text(&archive, false), "// Key: 0x00AB\nAB\n\nC\n");
}

#[test]
fn the_legacy_syntax_writes_no_key_line() {
    let archive = Archive { key: 0x00AB, messages: strings(&["AB", "", "C"]) };
    assert_eq!(write_text(&archive, true), "AB\n\nC\n");
}

#[test]
fn an_archive_without_messages_is_written() {
    let archive = Archive { key: 0xFFFF, messages: vec![] };
    assert_eq!(write_text(&archive, false), "// Key: 0xFFFF\n");
    assert_eq!(write_text(&archive, true), "");
}

#[test]
fn a_written_archive_is_read_back() {
    for key in [0u16, 9, 0x1234, 0xFFFF] {
        let messages = strings(&["AB", "", "{MOVE, 1, 2}", "a / b", "x\\ny"]);
        let archive = Archive { key, messages: messages.clone() };
        assert_eq!(read(&write_text(&archive, false), false), (key, messages));
    }
}

#[test]
fn a_text_file_encodes_to_an_archive() {
    let mut diag = Vec::new();
    let bytes = encode_text(&charmap(), "// Key: 0x1234\nAB\n\n", false, &mut diag).unwrap();
    assert_eq!(
        bytes,
        vec![
            2, 0, 52, 18, 112, 101, 100, 101, 103, 101, 100, 101, 210, 202, 200, 202, 201, 202, 200,
            202, 146, 27, 82, 101, 178, 81, 89, 200
        ]
    );
    let archive = decode_archive(&charmap(), &bytes, false, &mut diag).unwrap();
    assert_eq!(write_text(&archive, false), "// Key: 0x1234\nAB\n\n");
}

#[test]
fn byte_order_marks_are_taken_from_the_beginning() {
    assert_eq!(strip_bom("\u{FEFF}{\"key\": 1}"), "{\"key\": 1}");
    assert_eq!(strip_bom("\u{FEFF}\u{FEFF}a\u{FEFF}"), "a\u{FEFF}");
    assert_eq!(strip_bom("abc"), "abc");
    assert_eq!(strip_bom(""), "");
    assert_eq!(strip_bom("\u{FEFF}"), "");
}
