use message_archive::archive::CodecError;
use message_archive::charmap::Charmap;
use message_archive::json::{
    encode_json, merge_record, merge_records, message_id, select_messages, set_field,
    to_content, JsonInput, JsonMessage, LangMessage, MessageContent,
};
use message_archive::serializer::encode_text;

fn strings(texts: &[&str]) -> Vec<String> {
    texts.iter().map(|t| t.to_string()).collect()
}

fn charmap() -> Charmap {
    let mut charmap = Charmap::new();
    charmap.add_char(0x0041, "A");
    charmap.add_char(0x0042, "B");
    charmap.add_char(0x0043, "C");
    charmap
}

fn pieces(content: MessageContent) -> Result<String, Vec<String>> {
    match content {
        MessageContent::Single(line) => Ok(line),
        MessageContent::Multi(lines) => Err(lines),
    }
}

fn record(id: &str, fields: Vec<(&str, MessageContent)>) -> JsonMessage {
    JsonMessage {
        id: id.to_string(),
        lang_message: fields
            .into_iter()
            .map(|(lang, content)| LangMessage { lang: lang.to_string(), content })
            .collect(),
    }
}

fn single(text: &str) -> MessageContent {
    MessageContent::Single(text.to_string())
}

fn multi(texts: &[&str]) -> MessageContent {
    MessageContent::Multi(strings(texts))
}

fn plain(records: &[JsonMessage]) -> Vec<(String, Vec<(String, Result<String, Vec<String>>)>)> {
    records
        .iter()
        .map(|r| {
            let fields = r
                .lang_message
                .iter()
                .map(|f| {
                    let content = match &f.content {
                        MessageContent::Single(line) => Ok(line.clone()),
                        MessageContent::Multi(lines) => Err(lines.clone()),
                    };
                    (f.lang.clone(), content)
                })
                .collect();
            (r.id.clone(), fields)
        })
        .collect()
}

#[test]
fn a_message_without_marker_stays_one_line() {
    assert_eq!(pieces(to_content("Hello")), Ok("Hello".to_string()));
    assert_eq!(pieces(to_content("")), Ok(String::new()));
    assert_eq!(pieces(to_content("a\nb\\")), Ok("a\nb\\".to_string()));
    assert_eq!(pieces(to_content("a\\tb\\N")), Ok("a\\tb\\N".to_string()));
}

#[test]
fn a_message_is_cut_right_after_each_marker() {
    assert_eq!(pieces(to_content("one\\ntwo\\rthree\\ffour")), Err(strings(&["one\\n", "two\\r", "three\\f", "four"])));
}

#[test]
fn a_message_that_ends_in_a_marker_has_no_empty_last_piece() {
    assert_eq!(pieces(to_content("one\\n")), Err(strings(&["one\\n"])));
    assert_eq!(pieces(to_content("\\n\\n")), Err(strings(&["\\n", "\\n"])));
}

#[test]
fn a_marker_may_follow_a_backslash() {
    assert_eq!(pieces(to_content("a\\\\nb")), Err(strings(&["a\\\\n", "b"])));
}

#[test]
fn the_pieces_of_a_message_give_the_message_back() {
    for message in ["", "plain", "one\\ntwo", "\\n", "\\r\\f\\n", "a\\nb\\", "\\\\n\\x", "é\\né"] {
        let joined = match to_content(message) {
            MessageContent::Single(line) => line,
            MessageContent::Multi(lines) => lines.concat(),
        };
        assert_eq!(joined, message);
    }
}

#[test]
fn an_identifier_has_at_least_five_digits() {
    assert_eq!(message_id("story", 0), "msg_story_00000");
    assert_eq!(message_id("story", 7), "msg_story_00007");
    assert_eq!(message_id("a_b", 12345), "msg_a_b_12345");
    assert_eq!(message_id("", 99999), "msg__99999");
    assert_eq!(message_id("story", 123456), "msg_story_123456");
}

#[test]
fn a_fresh_record_holds_one_language() {
    let record = merge_record(&Vec::new(), "story", 3, "one\\ntwo", "fr_FR");
    assert_eq!(record.id, "msg_story_00003");
    assert_eq!(record.lang_message.len(), 1);
    assert_eq!(record.lang_message[0].lang, "fr_FR");
    let JsonMessage { mut lang_message, .. } = record;
    assert_eq!(pieces(lang_message.remove(0).content), Err(strings(&["one\\n", "two"])));
}

#[test]
fn the_language_asked_for_is_read() {
    let input = JsonInput {
        key: 5,
        messages: vec![
            record("msg_a_00000", vec![("en_US", single("A")), ("fr_FR", single("B"))]),
            record("msg_a_00001", vec![("fr_FR", multi(&["C\\n", "A"])), ("en_US", single("A"))]),
        ],
    };
    assert_eq!(select_messages(&input, "fr_FR"), Ok(strings(&["B", "C\\nA"])));
    assert_eq!(select_messages(&input, "en_US"), Ok(strings(&["A", "A"])));
}

#[test]
fn a_missing_language_falls_back_to_english() {
    let input = JsonInput {
        key: 5,
        messages: vec![
            record("msg_a_00000", vec![("en_US", single("A")), ("fr_FR", single("B"))]),
            record("msg_a_00001", vec![("en_US", multi(&["A", "", "B"]))]),
        ],
    };
    assert_eq!(select_messages(&input, "fr_FR"), Ok(strings(&["B", "AB"])));
    assert_eq!(select_messages(&input, "de_DE"), Ok(strings(&["A", "AB"])));
}

#[test]
fn a_record_without_the_language_and_without_english_fails() {
    let input = JsonInput {
        key: 5,
        messages: vec![
            record("msg_a_00000", vec![("en_US", single("A"))]),
            record("msg_a_00001", vec![("fr_FR", single("B"))]),
            record("msg_a_00002", vec![]),
        ],
    };
    assert_eq!(select_messages(&input, "de_DE"), Err(CodecError::MissingLanguage));
    let mut diag = Vec::new();
    assert_eq!(encode_json(&charmap(), &input, "de_DE", &mut diag), Err(CodecError::MissingLanguage));
}

#[test]
fn no_records_give_no_messages() {
    let input = JsonInput { key: 5, messages: vec![] };
    assert_eq!(select_messages(&input, "de_DE"), Ok(vec![]));
}

#[test]
fn the_first_field_of_a_language_counts() {
    let input = JsonInput {
        key: 5,
        messages: vec![record("x", vec![("fr_FR", single("A")), ("fr_FR", single("B"))])],
    };
    assert_eq!(select_messages(&input, "fr_FR"), Ok(strings(&["A"])));
}

#[test]
fn json_records_encode_to_an_archive() {
    let input = JsonInput {
        key: 0x1234,
        messages: vec![
            record("msg_a_00000", vec![("en_US", multi(&["A", "B"]))]),
            record("msg_a_00001", vec![("en_US", single(""))]),
        ],
    };
    let mut diag = Vec::new();
    let bytes = encode_json(&charmap(), &input, "en_US", &mut diag).unwrap();
    let mut other = Vec::new();
    assert_eq!(
        Ok(bytes),
        encode_text(&charmap(), "// Key: 0x1234\nAB\n\n", false, &mut other)
    );
}

#[test]
fn setting_a_language_replaces_its_first_content_or_adds_one() {
    let mut record = record("x", vec![("en_US", single("A")), ("fr_FR", single("B")), ("en_US", single("C"))]);
    set_field(&mut record.lang_message, "en_US", single("Z"));
    set_field(&mut record.lang_message, "de_DE", multi(&["a\\n", "b"]));
    assert_eq!(
        plain(&[record]),
        vec![(
            "x".to_string(),
            vec![
                ("en_US".to_string(), Ok("Z".to_string())),
                ("fr_FR".to_string(), Ok("B".to_string())),
                ("en_US".to_string(), Ok("C".to_string())),
                ("de_DE".to_string(), Err(strings(&["a\\n", "b"]))),
            ]
        )]
    );
}

#[test]
fn an_archive_written_into_an_empty_file_gives_fresh_records() {
    let records = merge_records(&Vec::new(), "story", &strings(&["A", "B\\nC"]), "en_US");
    assert_eq!(
        plain(&records),
        vec![
            ("msg_story_00000".to_string(), vec![("en_US".to_string(), Ok("A".to_string()))]),
            (
                "msg_story_00001".to_string(),
                vec![("en_US".to_string(), Err(strings(&["B\\n", "C"])))]
            ),
        ]
    );
}

#[test]
fn a_second_language_leaves_the_first_as_it_is() {
    let english = merge_records(&Vec::new(), "story", &strings(&["A", "B\\nC"]), "en_US");
    let both = merge_records(&english, "story", &strings(&["X", "Y"]), "fr_FR");
    assert_eq!(
        plain(&both),
        vec![
            (
                "msg_story_00000".to_string(),
                vec![
                    ("en_US".to_string(), Ok("A".to_string())),
                    ("fr_FR".to_string(), Ok("X".to_string()))
                ]
            ),
            (
                "msg_story_00001".to_string(),
                vec![
                    ("en_US".to_string(), Err(strings(&["B\\n", "C"]))),
                    ("fr_FR".to_string(), Ok("Y".to_string()))
                ]
            ),
        ]
    );
    let input = JsonInput { key: 1, messages: both };
    assert_eq!(select_messages(&input, "en_US"), Ok(strings(&["A", "B\\nC"])));
    assert_eq!(select_messages(&input, "fr_FR"), Ok(strings(&["X", "Y"])));
}

#[test]
fn writing_the_same_archive_twice_changes_nothing() {
    let on_file = vec![
        record("msg_story_00001", vec![("fr_FR", single("old")), ("en_US", single("older"))]),
        record("msg_other_00000", vec![("en_US", single("kept"))]),
        record("msg_story_00001", vec![("en_US", single("shadowed"))]),
        record("msg_story_00007", vec![("en_US", single("gone from the archive"))]),
    ];
    let messages = strings(&["A", "B\\nC", "D"]);
    let once = merge_records(&on_file, "story", &messages, "en_US");
    let twice = merge_records(&once, "story", &messages, "en_US");
    assert_eq!(plain(&twice), plain(&once));
    let thrice = merge_records(&twice, "story", &messages, "en_US");
    assert_eq!(plain(&thrice), plain(&once));
}

#[test]
fn records_of_no_message_come_last_as_they_were() {
    let on_file = vec![
        record("msg_story_00001", vec![("fr_FR", single("old")), ("en_US", single("older"))]),
        record("msg_other_00000", vec![("en_US", single("kept"))]),
        record("msg_story_00001", vec![("en_US", single("shadowed"))]),
        record("msg_story_00007", vec![("en_US", multi(&["gone\\n", "x"]))]),
    ];
    let merged = merge_records(&on_file, "story", &strings(&["A", "B"]), "en_US");
    assert_eq!(
        plain(&merged),
        vec![
            ("msg_story_00000".to_string(), vec![("en_US".to_string(), Ok("A".to_string()))]),
            (
                "msg_story_00001".to_string(),
                vec![
                    ("fr_FR".to_string(), Ok("old".to_string())),
                    ("en_US".to_string(), Ok("B".to_string()))
                ]
            ),
            ("msg_other_00000".to_string(), vec![("en_US".to_string(), Ok("kept".to_string()))]),
            (
                "msg_story_00007".to_string(),
                vec![("en_US".to_string(), Err(strings(&["gone\\n", "x"])))]
            ),
        ]
    );
}

#[test]
fn an_archive_without_messages_keeps_the_file() {
    let on_file = vec![record("msg_story_00000", vec![("en_US", single("kept"))])];
    let merged = merge_records(&on_file, "story", &Vec::new(), "en_US");
    assert_eq!(plain(&merged), plain(&on_file));
}
