use message_archive::charmap::{
    build_charmap, key_code, Charmap, CharmapError, RawCharEntry, RawCommandEntry,
    RejectedAlias,
};
use message_archive::Settings;

fn entry(code: &str, text: Option<&str>, aliases: Option<&[&str]>) -> RawCharEntry {
    RawCharEntry {
        code: code.to_string(),
        text: text.map(|t| t.to_string()),
        aliases: aliases.map(|a| a.iter().map(|t| t.to_string()).collect()),
    }
}

fn command(code: &str, name: &str) -> RawCommandEntry {
    RawCommandEntry { code: code.to_string(), name: name.to_string() }
}

fn name(charmap: &Charmap, code: u16) -> Option<String> {
    charmap.command_name(code).cloned()
}

fn text(charmap: &Charmap, code: u16) -> Option<String> {
    charmap.decode_lookup(code).cloned()
}

#[test]
fn a_new_map_holds_nothing() {
    let charmap = Charmap::new();
    assert_eq!(charmap.encode_lookup("A"), None);
    assert_eq!(text(&charmap, 0x41), None);
    assert_eq!(name(&charmap, 0x41), None);
    assert_eq!(charmap.command_code("MOVE"), None);
}

#[test]
fn a_character_is_mapped_both_ways() {
    let mut charmap = Charmap::new();
    charmap.add_char(0x0041, "A");
    assert_eq!(charmap.encode_lookup("A"), Some(0x41));
    assert_eq!(text(&charmap, 0x41), Some("A".to_string()));
    assert_eq!(charmap.encode_lookup("B"), None);
    assert_eq!(text(&charmap, 0x42), None);
}

#[test]
fn a_text_keeps_its_first_code_and_a_code_takes_its_last_text() {
    let mut charmap = Charmap::new();
    charmap.add_char(0x0041, "A");
    charmap.add_char(0x0042, "A");
    charmap.add_char(0x0041, "B");
    assert_eq!(charmap.encode_lookup("A"), Some(0x41));
    assert_eq!(charmap.encode_lookup("B"), Some(0x41));
    assert_eq!(text(&charmap, 0x41), Some("B".to_string()));
    assert_eq!(text(&charmap, 0x42), Some("A".to_string()));
}

#[test]
fn an_empty_text_changes_nothing() {
    let mut charmap = Charmap::new();
    charmap.add_char(0x0041, "");
    assert_eq!(text(&charmap, 0x41), None);
    assert_eq!(charmap.encode_lookup(""), None);
}

#[test]
fn an_alias_is_one_character_or_wrapped_in_brackets() {
    let mut charmap = Charmap::new();
    assert!(charmap.add_alias(1, "x"));
    assert!(charmap.add_alias(2, "é"));
    assert!(charmap.add_alias(3, "[PK]"));
    assert!(charmap.add_alias(4, "[]"));
    assert!(!charmap.add_alias(5, ""));
    assert!(!charmap.add_alias(6, "PK"));
    assert!(!charmap.add_alias(7, "[PK"));
    assert!(!charmap.add_alias(8, "PK]"));
    assert_eq!(charmap.encode_lookup("x"), Some(1));
    assert_eq!(charmap.encode_lookup("é"), Some(2));
    assert_eq!(charmap.encode_lookup("[PK]"), Some(3));
    assert_eq!(charmap.encode_lookup("[]"), Some(4));
    assert_eq!(charmap.encode_lookup("PK"), None);
    assert_eq!(charmap.encode_lookup("[PK"), None);
    assert_eq!(text(&charmap, 3), None);
}

#[test]
fn an_alias_that_stands_for_a_code_keeps_it() {
    let mut charmap = Charmap::new();
    charmap.add_char(0x0041, "A");
    assert!(charmap.add_alias(1, "[PK]"));
    assert!(!charmap.add_alias(2, "[PK]"));
    assert!(!charmap.add_alias(3, "A"));
    assert_eq!(charmap.encode_lookup("[PK]"), Some(1));
    assert_eq!(charmap.encode_lookup("A"), Some(0x41));
}

#[test]
fn a_command_is_mapped_both_ways() {
    let mut charmap = Charmap::new();
    assert!(charmap.add_command(0x1200, "MOVE"));
    assert_eq!(name(&charmap, 0x1200), Some("MOVE".to_string()));
    assert_eq!(charmap.command_code("MOVE"), Some(0x1200));
    assert_eq!(charmap.command_code("move"), None);
    assert_eq!(name(&charmap, 0x1201), None);
}

#[test]
fn a_command_code_keeps_its_first_name() {
    let mut charmap = Charmap::new();
    assert!(charmap.add_command(0x1200, "MOVE"));
    assert!(!charmap.add_command(0x1200, "JUMP"));
    assert_eq!(name(&charmap, 0x1200), Some("MOVE".to_string()));
    assert_eq!(charmap.command_code("JUMP"), None);
}

#[test]
fn a_command_name_stands_for_its_first_code() {
    let mut charmap = Charmap::new();
    assert!(charmap.add_command(0x1300, "MOVE"));
    assert!(charmap.add_command(0x1200, "MOVE"));
    assert_eq!(charmap.command_code("MOVE"), Some(0x1300));
    assert_eq!(name(&charmap, 0x1200), Some("MOVE".to_string()));
    assert_eq!(name(&charmap, 0x1300), Some("MOVE".to_string()));
}

#[test]
fn a_key_is_a_hexadecimal_number_of_sixteen_bits() {
    assert_eq!(key_code("0041"), Some(0x41));
    assert_eq!(key_code("ffff"), Some(0xFFFF));
    assert_eq!(key_code("F"), Some(0xF));
    assert_eq!(key_code("+1a"), Some(0x1A));
    assert_eq!(key_code("0000FFFF"), Some(0xFFFF));
    assert_eq!(key_code("10000"), None);
    assert_eq!(key_code("0x41"), None);
    assert_eq!(key_code(""), None);
    assert_eq!(key_code("12 "), None);
    assert_eq!(key_code("-1"), None);
}

#[test]
fn a_key_is_read_as_std_reads_it() {
    for key in ["0", "41", "FFFF", "10000", "+7", "", "g", "0x1", "00000001", "FFFFFFFFF"] {
        assert_eq!(key_code(key), u16::from_str_radix(key, 16).ok());
    }
}

#[test]
fn a_charmap_is_built_from_its_tables() {
    let entries = vec![
        entry("0041", Some("A"), Some(&["a", "[AY]"])),
        entry("0042", Some("B"), None),
        entry("00E0", Some("\\n"), Some(&[])),
        entry("0150", None, Some(&["[PK]", "PK", ""])),
    ];
    let commands = vec![command("1200", "MOVE"), command("0200", "STRVAR_1")];
    let charmap = build_charmap(&entries, &commands, &mut Vec::new()).ok().unwrap();
    assert_eq!(charmap.encode_lookup("A"), Some(0x41));
    assert_eq!(charmap.encode_lookup("a"), Some(0x41));
    assert_eq!(charmap.encode_lookup("[AY]"), Some(0x41));
    assert_eq!(charmap.encode_lookup("B"), Some(0x42));
    assert_eq!(charmap.encode_lookup("\\n"), Some(0xE0));
    assert_eq!(charmap.encode_lookup("[PK]"), Some(0x150));
    assert_eq!(charmap.encode_lookup("PK"), None);
    assert_eq!(text(&charmap, 0x41), Some("A".to_string()));
    assert_eq!(text(&charmap, 0xE0), Some("\\n".to_string()));
    assert_eq!(text(&charmap, 0x150), None);
    assert_eq!(name(&charmap, 0x1200), Some("MOVE".to_string()));
    assert_eq!(charmap.command_code("STRVAR_1"), Some(0x0200));
}

#[test]
fn the_text_of_any_entry_wins_over_the_alias_of_any_other() {
    let entries = vec![
        entry("0001", Some("x"), Some(&["y", "[Q]"])),
        entry("0002", Some("y"), Some(&["x", "[Q]"])),
    ];
    let charmap = build_charmap(&entries, &Vec::new(), &mut Vec::new()).ok().unwrap();
    assert_eq!(charmap.encode_lookup("x"), Some(1));
    assert_eq!(charmap.encode_lookup("y"), Some(2));
    assert_eq!(charmap.encode_lookup("[Q]"), Some(1));
}

#[test]
fn aliases_that_are_not_taken_are_reported() {
    let entries = vec![
        entry("0001", Some("x"), Some(&["y", "[Q]", "", "QQ"])),
        entry("0002", None, None),
        entry("0003", Some("y"), Some(&["[Q]", "[R]", "[R]"])),
    ];
    let mut rejected = vec![RejectedAlias { entry: 9, alias: 9 }];
    assert!(build_charmap(&entries, &Vec::new(), &mut rejected).is_ok());
    assert_eq!(
        rejected,
        vec![
            RejectedAlias { entry: 9, alias: 9 },
            RejectedAlias { entry: 0, alias: 0 },
            RejectedAlias { entry: 0, alias: 2 },
            RejectedAlias { entry: 0, alias: 3 },
            RejectedAlias { entry: 2, alias: 0 },
            RejectedAlias { entry: 2, alias: 2 },
        ]
    );
}

#[test]
fn a_failed_build_reports_no_alias() {
    let entries = vec![entry("0001", Some("x"), Some(&["", "QQ"]))];
    let commands = vec![command("xx", "MOVE")];
    let mut rejected = Vec::new();
    assert!(build_charmap(&entries, &commands, &mut rejected).is_err());
    assert!(rejected.is_empty());
}

#[test]
fn a_bad_key_of_the_character_table_fails() {
    let entries = vec![entry("0041", Some("A"), None), entry("zz", Some("B"), None)];
    let commands = vec![command("xx", "MOVE")];
    assert_eq!(build_charmap(&entries, &commands, &mut Vec::new()).err(), Some(CharmapError::InvalidCharKey));
    let entries = vec![entry("10000", None, None)];
    assert_eq!(build_charmap(&entries, &Vec::new(), &mut Vec::new()).err(), Some(CharmapError::InvalidCharKey));
}

#[test]
fn a_bad_key_of_the_command_table_fails() {
    let entries = vec![entry("0041", Some("A"), None)];
    let commands = vec![command("1200", "MOVE"), command("", "JUMP")];
    assert_eq!(build_charmap(&entries, &commands, &mut Vec::new()).err(), Some(CharmapError::InvalidCommandKey));
}

#[test]
fn empty_tables_give_an_empty_map() {
    let charmap = build_charmap(&Vec::new(), &Vec::new(), &mut Vec::new()).ok().unwrap();
    assert_eq!(charmap.encode_lookup("A"), None);
}

#[test]
fn settings_hold_the_options_of_a_run() {
    let settings = Settings {
        json: true,
        lang: "fr_FR".to_string(),
        newer_only: false,
        msgenc_format: true,
    };
    let copy = settings.clone();
    assert!(copy.json && copy.msgenc_format && !copy.newer_only);
    assert_eq!(copy.lang, "fr_FR");
}
