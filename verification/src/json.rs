//! A decoded archive as the records of a JSON file: one record per
//! message, with the content of the message in each language.
use crate::archive::{
    spec_archive_fits, spec_bodies, spec_encode_archive, spec_encode_warnings, spec_texts,
    CodecError, MessageWarning,
};
use crate::charmap::Charmap;
use crate::encode::encode_messages;
use crate::text::{
    from_chars, lemma_decimal_value, lemma_leading_zeros, push_decimal, spec_decimal,
    spec_digits_value, to_chars,
};
use vstd::prelude::*;

verus! {

/// The content of one language of a JSON record: one line, or the lines
/// that a longer message was cut into.
#[derive(Clone, Debug, PartialEq, Eq)]
pub enum MessageContent {
    Single(String),
    Multi(Vec<String>),
}

/// The content of a JSON record in one language.
#[derive(Clone, Debug, PartialEq, Eq)]
pub struct LangMessage {
    pub lang: String,
    pub content: MessageContent,
}

/// One record of a JSON file: the identifier of a message, and its
/// content in each language, in the order of the file.
#[derive(Clone, Debug, PartialEq, Eq)]
pub struct JsonMessage {
    pub id: String,
    pub lang_message: Vec<LangMessage>,
}

/// A JSON file: the key of the archive, and one record per message.
#[derive(Clone, Debug, PartialEq, Eq)]
pub struct JsonInput {
    pub key: u16,
    pub messages: Vec<JsonMessage>,
}

/// A content as mathematics sees it.
pub enum ContentView {
    Single(Seq<char>),
    Multi(Seq<Seq<char>>),
}

/// The content of one language as mathematics sees it.
pub struct FieldView {
    pub lang: Seq<char>,
    pub content: ContentView,
}

/// A record as mathematics sees it.
pub struct RecordView {
    pub id: Seq<char>,
    pub fields: Seq<FieldView>,
}

impl View for MessageContent {
    type V = ContentView;

    open spec fn view(&self) -> ContentView {
        match self {
            MessageContent::Single(line) => ContentView::Single(line@),
            MessageContent::Multi(lines) => ContentView::Multi(spec_texts(lines@)),
        }
    }
}

impl View for LangMessage {
    type V = FieldView;

    open spec fn view(&self) -> FieldView {
        FieldView { lang: self.lang@, content: self.content@ }
    }
}

/// The view of each content of a record.
pub open spec fn spec_fields(entries: Seq<LangMessage>) -> Seq<FieldView> {
    Seq::new(entries.len(), |i: int| entries[i]@)
}

impl View for JsonMessage {
    type V = RecordView;

    open spec fn view(&self) -> RecordView {
        RecordView { id: self.id@, fields: spec_fields(self.lang_message@) }
    }
}

/// The view of each record.
pub open spec fn spec_records(records: Seq<JsonMessage>) -> Seq<RecordView> {
    Seq::new(records.len(), |i: int| records[i]@)
}

/// The first `n` parts, one after the other.
pub open spec fn spec_concat(parts: Seq<Seq<char>>, n: int) -> Seq<char>
    decreases n,
{
    if n <= 0 {
        Seq::empty()
    } else {
        spec_concat(parts, n - 1) + parts[n - 1]
    }
}

/// The message that a content stands for: the line, or the lines one
/// after the other.
pub open spec fn spec_content_text(content: ContentView) -> Seq<char> {
    match content {
        ContentView::Single(line) => line,
        ContentView::Multi(lines) => spec_concat(lines, lines.len() as int),
    }
}

/// The position of the first text equal to `text`, from `from` on; the
/// number of texts where there is none.
pub open spec fn spec_find_text(texts: Seq<Seq<char>>, text: Seq<char>, from: int) -> int
    decreases texts.len() - from,
{
    if from < 0 || from >= texts.len() {
        texts.len() as int
    } else if texts[from] == text {
        from
    } else {
        spec_find_text(texts, text, from + 1)
    }
}

/// The language of each content of a record.
pub open spec fn spec_langs(fields: Seq<FieldView>) -> Seq<Seq<char>> {
    Seq::new(fields.len(), |i: int| fields[i].lang)
}

/// The identifier of each record.
pub open spec fn spec_ids(records: Seq<RecordView>) -> Seq<Seq<char>> {
    Seq::new(records.len(), |i: int| records[i].id)
}

/// The position of the first content in language `lang`; the number of
/// contents where there is none.
pub open spec fn spec_find_lang(fields: Seq<FieldView>, lang: Seq<char>) -> int {
    spec_find_text(spec_langs(fields), lang, 0)
}

/// The position of the first record with identifier `id`; the number of
/// records where there is none.
pub open spec fn spec_find_id(records: Seq<RecordView>, id: Seq<char>) -> int {
    spec_find_text(spec_ids(records), id, 0)
}

/// The content of a record in language `lang`, if it has one.
pub open spec fn spec_field(fields: Seq<FieldView>, lang: Seq<char>) -> Option<ContentView> {
    let at = spec_find_lang(fields, lang);
    if at < fields.len() {
        Some(fields[at].content)
    } else {
        None
    }
}

/// The message of a record in language `lang`: its content in that
/// language, or else in `en_US`, if it has either.
pub open spec fn spec_record_text(record: RecordView, lang: Seq<char>) -> Option<Seq<char>> {
    match spec_field(record.fields, lang) {
        Some(content) => Some(spec_content_text(content)),
        None => match spec_field(record.fields, "en_US"@) {
            Some(content) => Some(spec_content_text(content)),
            None => None,
        },
    }
}

/// Whether every record holds the language asked for, or `en_US`.
pub open spec fn spec_has_language(records: Seq<RecordView>, lang: Seq<char>) -> bool {
    forall|i: int| 0 <= i < records.len() ==> spec_record_text(#[trigger] records[i], lang) is Some
}

/// The message of each record in language `lang`.
pub open spec fn spec_select_messages(records: Seq<RecordView>, lang: Seq<char>) -> Seq<Seq<char>> {
    Seq::new(records.len(), |i: int| spec_record_text(records[i], lang)->0)
}

fn find_lang(entries: &Vec<LangMessage>, lang: &String) -> (at: usize)
    ensures
        at == spec_find_lang(spec_fields(entries@), lang@),
        at <= entries.len(),
{
    let ghost langs = spec_langs(spec_fields(entries@));
    let mut at: usize = 0;
    while at < entries.len() && !(entries[at].lang == *lang)
        invariant
            at <= entries.len(),
            langs == spec_langs(spec_fields(entries@)),
            spec_find_text(langs, lang@, 0) == spec_find_text(langs, lang@, at as int),
        decreases entries.len() - at,
    {
        at += 1;
    }
    at
}

fn content_text(content: &MessageContent) -> (text: String)
    ensures
        text@ == spec_content_text(content@),
{
    match content {
        MessageContent::Single(line) => line.clone(),
        MessageContent::Multi(lines) => {
            let mut text = String::new();
            let mut i: usize = 0;
            while i < lines.len()
                invariant
                    i <= lines.len(),
                    text@ == spec_concat(spec_texts(lines@), i as int),
                decreases lines.len() - i,
            {
                text.push_str(lines[i].as_str());
                i += 1;
            }
            text
        },
    }
}

/// The message of each record in the language asked for, or else in
/// `en_US`. Gives `MissingLanguage` where a record holds neither.
pub fn select_messages(input: &JsonInput, lang: &str) -> (r: Result<Vec<String>, CodecError>)
    ensures
        r is Ok <==> spec_has_language(spec_records(input.messages@), lang@),
        r is Ok ==> spec_texts(r->Ok_0@) == spec_select_messages(
            spec_records(input.messages@),
            lang@,
        ),
        r is Err ==> r == Err::<Vec<String>, CodecError>(CodecError::MissingLanguage),
{
    let ghost records = spec_records(input.messages@);
    let wanted_lang = lang.to_owned();
    let fallback_lang = "en_US".to_owned();
    let mut messages: Vec<String> = Vec::with_capacity(input.messages.len());
    let mut i: usize = 0;
    while i < input.messages.len()
        invariant
            i <= input.messages.len(),
            records == spec_records(input.messages@),
            wanted_lang@ == lang@,
            fallback_lang@ == "en_US"@,
            messages.len() == i,
            forall|j: int|
                0 <= j < i ==> spec_record_text(#[trigger] records[j], lang@) == Some(messages[j]@),
        decreases input.messages.len() - i,
    {
        let entries = &input.messages[i].lang_message;
        assert(records[i as int].fields == spec_fields(entries@));
        let wanted = find_lang(entries, &wanted_lang);
        let fallback = find_lang(entries, &fallback_lang);
        let chosen = if wanted < entries.len() {
            wanted
        } else if fallback < entries.len() {
            fallback
        } else {
            assert(spec_record_text(records[i as int], lang@) is None);
            return Err(CodecError::MissingLanguage);
        };
        messages.push(content_text(&entries[chosen].content));
        i += 1;
    }
    assert(spec_texts(messages@) =~= spec_select_messages(records, lang@));
    Ok(messages)
}

/// Encodes the records of a JSON file into an archive, in the canonical
/// syntax: each message is read in the language asked for, or else in
/// `en_US`.
pub fn encode_json(
    charmap: &Charmap,
    input: &JsonInput,
    lang: &str,
    diag: &mut Vec<MessageWarning>,
) -> (r: Result<Vec<u8>, CodecError>)
    ensures
        r is Ok <==> spec_has_language(spec_records(input.messages@), lang@) && spec_archive_fits(
            spec_bodies(
                charmap@,
                spec_select_messages(spec_records(input.messages@), lang@),
                false,
            ),
        ),
        r is Ok ==> r->Ok_0@ == spec_encode_archive(
            charmap@,
            input.key,
            spec_select_messages(spec_records(input.messages@), lang@),
            false,
        ),
        r is Ok ==> final(diag)@ == old(diag)@ + spec_encode_warnings(
            charmap@,
            spec_select_messages(spec_records(input.messages@), lang@),
            false,
            input.messages.len() as int,
        ),
        !spec_has_language(spec_records(input.messages@), lang@) ==> r == Err::<
            Vec<u8>,
            CodecError,
        >(CodecError::MissingLanguage),
        r is Err && spec_has_language(spec_records(input.messages@), lang@) ==> r == Err::<
            Vec<u8>,
            CodecError,
        >(CodecError::ArchiveTooLarge),
        r is Err ==> final(diag)@ == old(diag)@,
{
    match select_messages(input, lang) {
        Ok(messages) => encode_messages(charmap, input.key, messages.as_slice(), false, diag),
        Err(e) => Err(e),
    }
}

/// Whether a line-break marker begins at position `i`: a backslash and
/// one of the letters `n`, `r` and `f`. These are two characters of
/// text, not a control character.
pub open spec fn spec_is_marker(s: Seq<char>, i: int) -> bool {
    0 <= i && i + 1 < s.len() && s[i] == '\\' && (s[i + 1] == 'n' || s[i + 1] == 'r' || s[i + 1]
        == 'f')
}

/// The position of the first marker at or after `from`; the length of
/// `s` where there is none.
pub open spec fn spec_first_marker(s: Seq<char>, from: int) -> int
    decreases s.len() - from,
{
    if from < 0 || from >= s.len() {
        s.len() as int
    } else if spec_is_marker(s, from) {
        from
    } else {
        spec_first_marker(s, from + 1)
    }
}

/// Whether a message holds a marker.
pub open spec fn spec_has_marker(s: Seq<char>) -> bool {
    spec_first_marker(s, 0) < s.len()
}

/// The pieces of a message from `from` on: each ends right after a
/// marker, but for the last, which ends with the message.
pub open spec fn spec_split_lines(s: Seq<char>, from: int) -> Seq<Seq<char>>
    decreases s.len() - from,
{
    let marker = spec_first_marker(s, from);
    if from < 0 || from >= s.len() {
        Seq::empty()
    } else if marker < from || marker + 2 > s.len() {
        seq![s.subrange(from, s.len() as int)]
    } else {
        seq![s.subrange(from, marker + 2)] + spec_split_lines(s, marker + 2)
    }
}

/// The content of a message in a JSON record: the message itself where
/// it holds no marker, else its pieces.
pub open spec fn spec_content(message: Seq<char>) -> ContentView {
    if spec_has_marker(message) {
        ContentView::Multi(spec_split_lines(message, 0))
    } else {
        ContentView::Single(message)
    }
}

fn first_marker(s: &[char], from: usize) -> (at: usize)
    requires
        from <= s.len(),
    ensures
        at == spec_first_marker(s@, from as int),
        from <= at <= s.len(),
        at < s.len() ==> at + 2 <= s.len(),
{
    let mut at: usize = from;
    while at < s.len() && !(s.len() - at >= 2 && s[at] == '\\' && (s[at + 1] == 'n' || s[at + 1]
        == 'r' || s[at + 1] == 'f'))
        invariant
            from <= at <= s.len(),
            spec_first_marker(s@, from as int) == spec_first_marker(s@, at as int),
        decreases s.len() - at,
    {
        at += 1;
    }
    at
}

/// The content of a message in a JSON record.
pub fn to_content(message: &str) -> (content: MessageContent)
    ensures
        content@ == spec_content(message@),
{
    let chars = to_chars(message);
    let s = chars.as_slice();
    if first_marker(s, 0) >= s.len() {
        return MessageContent::Single(from_chars(s));
    }
    let mut lines: Vec<String> = Vec::new();
    let mut from: usize = 0;
    while from < s.len()
        invariant
            from <= s.len(),
            spec_split_lines(s@, 0) == spec_texts(lines@) + spec_split_lines(s@, from as int),
        decreases s.len() - from,
    {
        let marker = first_marker(s, from);
        let end = if marker < s.len() {
            marker + 2
        } else {
            s.len()
        };
        let ghost before = lines@;
        lines.push(from_chars(&s[from..end]));
        proof {
            assert(spec_texts(lines@) =~= spec_texts(before) + seq![
                s@.subrange(from as int, end as int),
            ]);
        }
        from = end;
    }
    proof {
        assert(spec_texts(lines@) + Seq::<Seq<char>>::empty() =~= spec_texts(lines@));
    }
    MessageContent::Multi(lines)
}

/// The pieces of a message, one after the other, are the message.
pub proof fn lemma_split_concat(s: Seq<char>, from: int)
    requires
        0 <= from <= s.len(),
    ensures
        spec_concat(spec_split_lines(s, from), spec_split_lines(s, from).len() as int)
            == s.subrange(from, s.len() as int),
    decreases s.len() - from,
{
    let pieces = spec_split_lines(s, from);
    let marker = spec_first_marker(s, from);
    if from >= s.len() {
        assert(s.subrange(from, s.len() as int) =~= Seq::<char>::empty());
    } else {
        lemma_first_marker(s, from);
        if marker + 2 > s.len() {
            assert(spec_concat(pieces, 0) =~= Seq::<char>::empty());
            assert(spec_concat(pieces, 1) =~= s.subrange(from, s.len() as int));
        } else {
            let rest = spec_split_lines(s, marker + 2);
            lemma_split_concat(s, marker + 2);
            lemma_concat_prepend(s.subrange(from, marker + 2), rest, rest.len() as int);
            assert(s.subrange(from, marker + 2) + s.subrange(marker + 2, s.len() as int)
                =~= s.subrange(from, s.len() as int));
        }
    }
}

proof fn lemma_first_marker(s: Seq<char>, from: int)
    requires
        0 <= from <= s.len(),
    ensures
        from <= spec_first_marker(s, from) <= s.len(),
        spec_first_marker(s, from) < s.len() ==> spec_first_marker(s, from) + 2 <= s.len(),
    decreases s.len() - from,
{
    if from < s.len() && !spec_is_marker(s, from) {
        lemma_first_marker(s, from + 1);
    }
}

proof fn lemma_concat_prepend(head: Seq<char>, rest: Seq<Seq<char>>, n: int)
    requires
        0 <= n <= rest.len(),
    ensures
        spec_concat(seq![head] + rest, n + 1) == head + spec_concat(rest, n),
    decreases n,
{
    let all = seq![head] + rest;
    if n == 0 {
        assert(spec_concat(all, 0) =~= Seq::<char>::empty());
        assert(spec_concat(all, 1) =~= head + spec_concat(rest, 0));
    } else {
        lemma_concat_prepend(head, rest, n - 1);
        assert(all[n] == rest[n - 1]);
        assert(spec_concat(all, n + 1) =~= head + spec_concat(rest, n));
    }
}

/// A message is read back from its content in a JSON record: the pieces
/// of the content, one after the other, are exactly the message.
pub proof fn lemma_content_round_trip(message: Seq<char>)
    ensures
        spec_content_text(spec_content(message)) == message,
{
    lemma_split_concat(message, 0);
    assert(message.subrange(0, message.len() as int) =~= message);
}

/// The digits of `n`, with zeros before them up to five digits.
pub open spec fn spec_index_digits(n: int) -> Seq<char> {
    let digits = spec_decimal(n);
    if digits.len() < 5 {
        Seq::new((5 - digits.len()) as nat, |i: int| '0') + digits
    } else {
        digits
    }
}

/// The identifier of the message at position `index` of the archive
/// `archive`: `msg_`, the name of the archive, `_`, and the position in
/// at least five digits.
pub open spec fn spec_message_id(archive: Seq<char>, index: int) -> Seq<char> {
    "msg_"@ + archive + seq!['_'] + spec_index_digits(index)
}

/// The identifier of a message in a JSON file.
pub fn message_id(archive: &str, index: usize) -> (id: String)
    ensures
        id@ == spec_message_id(archive@, index as int),
{
    let mut digits = String::new();
    push_decimal(&mut digits, index as u64);
    assert(digits@ =~= spec_decimal(index as int));
    let count = digits.as_str().unicode_len();
    let mut id = String::new();
    id.push_str("msg_");
    id.push_str(archive);
    id.push('_');
    let ghost head = id@;
    let mut k: usize = count;
    while k < 5
        invariant
            count <= k,
            k <= 5 || k == count,
            id@ == head + Seq::new((k - count) as nat, |i: int| '0'),
        decreases 5 - k,
    {
        id.push('0');
        assert(id@ =~= head + Seq::new((k + 1 - count) as nat, |i: int| '0'));
        k += 1;
    }
    id.push_str(digits.as_str());
    assert(id@ =~= spec_message_id(archive@, index as int));
    id
}

/// The contents of a record after the content of language `lang` was
/// set: the first content in that language is replaced; where there is
/// none, the content is added at the end.
pub open spec fn spec_set_field(fields: Seq<FieldView>, lang: Seq<char>, content: ContentView) -> Seq<
    FieldView,
> {
    let at = spec_find_lang(fields, lang);
    if at < fields.len() {
        fields.update(at, FieldView { lang, content })
    } else {
        fields.push(FieldView { lang, content })
    }
}

/// The contents that the record of identifier `id` starts from: those of
/// the first record on file with that identifier; none where there is no
/// such record.
pub open spec fn spec_fields_on_file(existing: Seq<RecordView>, id: Seq<char>) -> Seq<FieldView> {
    let at = spec_find_id(existing, id);
    if at < existing.len() {
        existing[at].fields
    } else {
        Seq::empty()
    }
}

/// The record of the message at position `index`: what the file held
/// under its identifier, with the content of language `lang` set to the
/// message.
pub open spec fn spec_merged_record(
    existing: Seq<RecordView>,
    archive: Seq<char>,
    index: int,
    message: Seq<char>,
    lang: Seq<char>,
) -> RecordView {
    let id = spec_message_id(archive, index);
    RecordView {
        id,
        fields: spec_set_field(spec_fields_on_file(existing, id), lang, spec_content(message)),
    }
}

/// The records of the messages of an archive, in the order of the archive.
pub open spec fn spec_current(
    existing: Seq<RecordView>,
    archive: Seq<char>,
    messages: Seq<Seq<char>>,
    lang: Seq<char>,
) -> Seq<RecordView> {
    Seq::new(
        messages.len(),
        |i: int| spec_merged_record(existing, archive, i, messages[i], lang),
    )
}

/// The identifiers of the first `n` messages of an archive.
pub open spec fn spec_current_ids(archive: Seq<char>, n: int) -> Seq<Seq<char>> {
    Seq::new(n as nat, |i: int| spec_message_id(archive, i))
}

/// Whether `id` is among the identifiers `ids`.
pub open spec fn spec_is_current(ids: Seq<Seq<char>>, id: Seq<char>) -> bool {
    spec_find_text(ids, id, 0) < ids.len()
}

/// Those of the first `k` records on file whose identifier is none of `ids`.
pub open spec fn spec_leftover(existing: Seq<RecordView>, ids: Seq<Seq<char>>, k: int) -> Seq<
    RecordView,
>
    decreases k,
{
    if k <= 0 {
        Seq::empty()
    } else if spec_is_current(ids, existing[k - 1].id) {
        spec_leftover(existing, ids, k - 1)
    } else {
        spec_leftover(existing, ids, k - 1).push(existing[k - 1])
    }
}

/// The records of a JSON file after an archive was written into it in
/// language `lang`: one record per message, in the order of the archive,
/// each with what the file held under its identifier and the content of
/// `lang` set; then the records on file that belong to no message of the
/// archive, as they were.
pub open spec fn spec_merge(
    existing: Seq<RecordView>,
    archive: Seq<char>,
    messages: Seq<Seq<char>>,
    lang: Seq<char>,
) -> Seq<RecordView> {
    spec_current(existing, archive, messages, lang) + spec_leftover(
        existing,
        spec_current_ids(archive, messages.len() as int),
        existing.len() as int,
    )
}

fn clone_lines(lines: &Vec<String>) -> (copy: Vec<String>)
    ensures
        spec_texts(copy@) == spec_texts(lines@),
{
    let mut copy: Vec<String> = Vec::with_capacity(lines.len());
    let mut i: usize = 0;
    while i < lines.len()
        invariant
            i <= lines.len(),
            copy.len() == i,
            forall|j: int| 0 <= j < i ==> copy[j]@ == lines[j]@,
        decreases lines.len() - i,
    {
        copy.push(lines[i].clone());
        i += 1;
    }
    assert(spec_texts(copy@) =~= spec_texts(lines@));
    copy
}

fn clone_content(content: &MessageContent) -> (copy: MessageContent)
    ensures
        copy@ == content@,
{
    match content {
        MessageContent::Single(line) => MessageContent::Single(line.clone()),
        MessageContent::Multi(lines) => MessageContent::Multi(clone_lines(lines)),
    }
}

fn clone_fields(entries: &Vec<LangMessage>) -> (copy: Vec<LangMessage>)
    ensures
        spec_fields(copy@) == spec_fields(entries@),
{
    let mut copy: Vec<LangMessage> = Vec::with_capacity(entries.len());
    let mut i: usize = 0;
    while i < entries.len()
        invariant
            i <= entries.len(),
            copy.len() == i,
            forall|j: int| 0 <= j < i ==> copy[j]@ == entries[j]@,
        decreases entries.len() - i,
    {
        copy.push(
            LangMessage {
                lang: entries[i].lang.clone(),
                content: clone_content(&entries[i].content),
            },
        );
        i += 1;
    }
    assert(spec_fields(copy@) =~= spec_fields(entries@));
    copy
}

fn find_id(records: &Vec<JsonMessage>, id: &String) -> (at: usize)
    ensures
        at == spec_find_id(spec_records(records@), id@),
        at <= records.len(),
{
    let ghost ids = spec_ids(spec_records(records@));
    let mut at: usize = 0;
    while at < records.len() && !(records[at].id == *id)
        invariant
            at <= records.len(),
            ids == spec_ids(spec_records(records@)),
            spec_find_text(ids, id@, 0) == spec_find_text(ids, id@, at as int),
        decreases records.len() - at,
    {
        at += 1;
    }
    at
}

fn find_text(texts: &Vec<String>, text: &String) -> (at: usize)
    ensures
        at == spec_find_text(spec_texts(texts@), text@, 0),
        at <= texts.len(),
{
    let mut at: usize = 0;
    while at < texts.len() && !(texts[at] == *text)
        invariant
            at <= texts.len(),
            spec_find_text(spec_texts(texts@), text@, 0) == spec_find_text(
                spec_texts(texts@),
                text@,
                at as int,
            ),
        decreases texts.len() - at,
    {
        at += 1;
    }
    at
}

/// Sets the content of language `lang` among the contents of a record.
pub fn set_field(entries: &mut Vec<LangMessage>, lang: &str, content: MessageContent)
    ensures
        spec_fields(final(entries)@) == spec_set_field(
            spec_fields(old(entries)@),
            lang@,
            content@,
        ),
{
    let key = lang.to_owned();
    let at = find_lang(entries, &key);
    let field = LangMessage { lang: key, content };
    if at < entries.len() {
        entries[at] = field;
    } else {
        entries.push(field);
    }
    assert(spec_fields(entries@) =~= spec_set_field(spec_fields(old(entries)@), lang@, content@));
}

/// The record of the message at position `index` of an archive: what
/// the file held under the identifier of the message, with the content
/// of language `lang` set to the message; a fresh record where the file
/// held nothing under that identifier.
pub fn merge_record(
    existing: &Vec<JsonMessage>,
    archive: &str,
    index: usize,
    message: &str,
    lang: &str,
) -> (record: JsonMessage)
    ensures
        record@ == spec_merged_record(
            spec_records(existing@),
            archive@,
            index as int,
            message@,
            lang@,
        ),
{
    let id = message_id(archive, index);
    let at = find_id(existing, &id);
    let mut lang_message = if at < existing.len() {
        clone_fields(&existing[at].lang_message)
    } else {
        Vec::new()
    };
    proof {
        if at < existing.len() {
            assert(spec_records(existing@)[at as int].fields == spec_fields(
                existing[at as int].lang_message@,
            ));
        } else {
            assert(spec_fields(lang_message@) =~= Seq::<FieldView>::empty());
        }
    }
    set_field(&mut lang_message, lang, to_content(message));
    JsonMessage { id, lang_message }
}

/// Writes the messages of an archive into the records of a JSON file, in
/// language `lang`. The contents of other languages stay as they are,
/// and so do the records that belong to no message of the archive,
/// which come last.
pub fn merge_records(
    existing: &Vec<JsonMessage>,
    archive: &str,
    messages: &Vec<String>,
    lang: &str,
) -> (records: Vec<JsonMessage>)
    ensures
        spec_records(records@) == spec_merge(
            spec_records(existing@),
            archive@,
            spec_texts(messages@),
            lang@,
        ),
{
    let ghost on_file = spec_records(existing@);
    let ghost texts = spec_texts(messages@);
    let ghost current = spec_current(on_file, archive@, texts, lang@);
    let ghost all_ids = spec_current_ids(archive@, messages.len() as int);
    let mut records: Vec<JsonMessage> = Vec::new();
    let mut ids: Vec<String> = Vec::new();
    let mut i: usize = 0;
    while i < messages.len()
        invariant
            i <= messages.len(),
            on_file == spec_records(existing@),
            texts == spec_texts(messages@),
            current == spec_current(on_file, archive@, texts, lang@),
            all_ids == spec_current_ids(archive@, messages.len() as int),
            records.len() == i,
            ids.len() == i,
            forall|j: int| 0 <= j < i ==> (#[trigger] records[j])@ == current[j],
            forall|j: int| 0 <= j < i ==> (#[trigger] ids[j])@ == all_ids[j],
        decreases messages.len() - i,
    {
        let record = merge_record(existing, archive, i, messages[i].as_str(), lang);
        ids.push(record.id.clone());
        records.push(record);
        i += 1;
    }
    assert(spec_records(records@) =~= current);
    assert(spec_texts(ids@) =~= all_ids);
    let mut k: usize = 0;
    while k < existing.len()
        invariant
            k <= existing.len(),
            on_file == spec_records(existing@),
            spec_texts(ids@) == all_ids,
            spec_records(records@) == current + spec_leftover(on_file, all_ids, k as int),
        decreases existing.len() - k,
    {
        let record = &existing[k];
        assert(on_file[k as int] == record@);
        if find_text(&ids, &record.id) >= ids.len() {
            let ghost before = records@;
            records.push(
                JsonMessage {
                    id: record.id.clone(),
                    lang_message: clone_fields(&record.lang_message),
                },
            );
            assert(spec_records(records@) =~= spec_records(before).push(record@));
        }
        k += 1;
    }
    records
}

/// What `spec_find_text` finds is the first text equal to `text`.
pub proof fn lemma_find_text(texts: Seq<Seq<char>>, text: Seq<char>, from: int)
    requires
        0 <= from <= texts.len(),
    ensures
        from <= spec_find_text(texts, text, from) <= texts.len(),
        spec_find_text(texts, text, from) < texts.len() ==> texts[spec_find_text(
            texts,
            text,
            from,
        )] == text,
        forall|j: int| from <= j < spec_find_text(texts, text, from) ==> texts[j] != text,
    decreases texts.len() - from,
{
    if from < texts.len() && texts[from] != text {
        lemma_find_text(texts, text, from + 1);
    }
}

/// The first text equal to `text` is what `spec_find_text` finds.
proof fn lemma_find_text_at(texts: Seq<Seq<char>>, text: Seq<char>, at: int)
    requires
        0 <= at <= texts.len(),
        at < texts.len() ==> texts[at] == text,
        forall|j: int| 0 <= j < at ==> texts[j] != text,
    ensures
        spec_find_text(texts, text, 0) == at,
{
    lemma_find_text(texts, text, 0);
}

/// Setting the content of a language twice is setting it to the second content.
pub proof fn lemma_set_field_twice(
    fields: Seq<FieldView>,
    lang: Seq<char>,
    first: ContentView,
    second: ContentView,
)
    ensures
        spec_set_field(spec_set_field(fields, lang, first), lang, second) == spec_set_field(
            fields,
            lang,
            second,
        ),
{
    let at = spec_find_lang(fields, lang);
    let once = spec_set_field(fields, lang, first);
    lemma_find_text(spec_langs(fields), lang, 0);
    if at < fields.len() {
        assert(spec_langs(once) =~= spec_langs(fields));
        assert(once.update(at, FieldView { lang, content: second }) =~= fields.update(
            at,
            FieldView { lang, content: second },
        ));
    } else {
        assert forall|j: int| 0 <= j < fields.len() implies spec_langs(once)[j] != lang by {
            assert(spec_langs(once)[j] == spec_langs(fields)[j]);
        }
        lemma_find_text_at(spec_langs(once), lang, fields.len() as int);
        assert(once.update(fields.len() as int, FieldView { lang, content: second })
            =~= fields.push(FieldView { lang, content: second }));
    }
}

/// After the content of a language was set, the record holds it.
pub proof fn lemma_set_field_same(fields: Seq<FieldView>, lang: Seq<char>, content: ContentView)
    ensures
        spec_field(spec_set_field(fields, lang, content), lang) == Some(content),
{
    let at = spec_find_lang(fields, lang);
    let after = spec_set_field(fields, lang, content);
    lemma_find_text(spec_langs(fields), lang, 0);
    if at < fields.len() {
        assert(spec_langs(after) =~= spec_langs(fields));
    } else {
        assert forall|j: int| 0 <= j < fields.len() implies spec_langs(after)[j] != lang by {
            assert(spec_langs(after)[j] == spec_langs(fields)[j]);
        }
        lemma_find_text_at(spec_langs(after), lang, fields.len() as int);
    }
}

/// Setting the content of one language leaves the content of every
/// other language as it is.
pub proof fn lemma_set_field_other(
    fields: Seq<FieldView>,
    lang: Seq<char>,
    content: ContentView,
    other: Seq<char>,
)
    requires
        other != lang,
    ensures
        spec_field(spec_set_field(fields, lang, content), other) == spec_field(fields, other),
{
    let at = spec_find_lang(fields, lang);
    let found = spec_find_lang(fields, other);
    let after = spec_set_field(fields, lang, content);
    lemma_find_text(spec_langs(fields), lang, 0);
    lemma_find_text(spec_langs(fields), other, 0);
    if at < fields.len() {
        assert(spec_langs(after) =~= spec_langs(fields));
    } else {
        let at_after = if found < fields.len() {
            found
        } else {
            after.len() as int
        };
        assert forall|j: int| 0 <= j < at_after implies spec_langs(after)[j] != other by {
            if j < fields.len() {
                assert(spec_langs(after)[j] == spec_langs(fields)[j]);
            }
        }
        lemma_find_text_at(spec_langs(after), other, at_after);
    }
}

/// Among the records kept from the file, none belongs to a message.
proof fn lemma_leftover_not_current(existing: Seq<RecordView>, ids: Seq<Seq<char>>, k: int)
    ensures
        forall|j: int|
            0 <= j < spec_leftover(existing, ids, k).len() ==> !spec_is_current(
                ids,
                (#[trigger] spec_leftover(existing, ids, k)[j]).id,
            ),
    decreases k,
{
    if k > 0 {
        lemma_leftover_not_current(existing, ids, k - 1);
        let before = spec_leftover(existing, ids, k - 1);
        let kept = spec_leftover(existing, ids, k);
        assert forall|j: int| 0 <= j < kept.len() implies !spec_is_current(
            ids,
            (#[trigger] kept[j]).id,
        ) by {
            if j < before.len() {
                assert(kept[j] == before[j]);
            }
        }
    }
}

/// Of records that all belong to messages, none is kept.
proof fn lemma_leftover_all_current(records: Seq<RecordView>, ids: Seq<Seq<char>>, k: int)
    requires
        0 <= k <= records.len(),
        forall|j: int| 0 <= j < k ==> spec_is_current(ids, (#[trigger] records[j]).id),
    ensures
        spec_leftover(records, ids, k) == Seq::<RecordView>::empty(),
    decreases k,
{
    if k > 0 {
        lemma_leftover_all_current(records, ids, k - 1);
        assert(spec_is_current(ids, records[k - 1].id));
    }
}

/// What is kept of records put after others is what is kept of the
/// others, then what is kept of the records.
proof fn lemma_leftover_concat(
    head: Seq<RecordView>,
    tail: Seq<RecordView>,
    ids: Seq<Seq<char>>,
    k: int,
)
    requires
        0 <= k <= head.len() + tail.len(),
    ensures
        k <= head.len() ==> spec_leftover(head + tail, ids, k) == spec_leftover(head, ids, k),
        k >= head.len() ==> spec_leftover(head + tail, ids, k) == spec_leftover(
            head,
            ids,
            head.len() as int,
        ) + spec_leftover(tail, ids, k - head.len()),
    decreases k,
{
    let all = head + tail;
    if k > 0 {
        lemma_leftover_concat(head, tail, ids, k - 1);
        if k <= head.len() {
            assert(all[k - 1] == head[k - 1]);
        } else {
            assert(all[k - 1] == tail[k - 1 - head.len()]);
            let kept_head = spec_leftover(head, ids, head.len() as int);
            let kept_tail = spec_leftover(tail, ids, k - 1 - head.len());
            if !spec_is_current(ids, all[k - 1].id) {
                assert((kept_head + kept_tail).push(all[k - 1]) =~= kept_head + kept_tail.push(
                    all[k - 1],
                ));
            }
        }
    } else {
        assert(spec_leftover(tail, ids, 0) =~= Seq::<RecordView>::empty());
        assert(spec_leftover(head, ids, 0) + Seq::<RecordView>::empty() =~= spec_leftover(
            head,
            ids,
            0,
        ));
    }
}

/// Of records of which none belongs to a message, all are kept.
proof fn lemma_leftover_none_current(records: Seq<RecordView>, ids: Seq<Seq<char>>, k: int)
    requires
        0 <= k <= records.len(),
        forall|j: int| 0 <= j < k ==> !spec_is_current(ids, (#[trigger] records[j]).id),
    ensures
        spec_leftover(records, ids, k) == records.take(k),
    decreases k,
{
    if k > 0 {
        lemma_leftover_none_current(records, ids, k - 1);
        assert(!spec_is_current(ids, records[k - 1].id));
        assert(records.take(k - 1).push(records[k - 1]) =~= records.take(k));
    } else {
        assert(records.take(0) =~= Seq::<RecordView>::empty());
    }
}

/// The identifier of every message of an archive is among the
/// identifiers of the archive.
proof fn lemma_current_id(archive: Seq<char>, n: int, i: int)
    requires
        0 <= i < n,
    ensures
        spec_is_current(spec_current_ids(archive, n), spec_message_id(archive, i)),
{
    let ids = spec_current_ids(archive, n);
    lemma_find_text(ids, spec_message_id(archive, i), 0);
    assert(ids[i] == spec_message_id(archive, i));
}

/// Writing the same archive into a JSON file twice, in the same
/// language, gives the records that writing it once gave.
pub proof fn lemma_merge_idempotent(
    existing: Seq<RecordView>,
    archive: Seq<char>,
    messages: Seq<Seq<char>>,
    lang: Seq<char>,
)
    ensures
        spec_merge(spec_merge(existing, archive, messages, lang), archive, messages, lang)
            == spec_merge(existing, archive, messages, lang),
{
    let n = messages.len() as int;
    let ids = spec_current_ids(archive, n);
    let current = spec_current(existing, archive, messages, lang);
    let kept = spec_leftover(existing, ids, existing.len() as int);
    let once = spec_merge(existing, archive, messages, lang);
    assert(once == current + kept);
    let again = spec_current(once, archive, messages, lang);
    assert forall|i: int| 0 <= i < n implies again[i] == current[i] by {
        let id = spec_message_id(archive, i);
        let at = spec_find_id(once, id);
        lemma_find_text(spec_ids(once), id, 0);
        assert(spec_ids(once)[i] == id);
        assert(at <= i);
        assert(once[at] == current[at]);
        assert(spec_message_id(archive, at) == id);
        lemma_set_field_twice(
            spec_fields_on_file(existing, id),
            lang,
            spec_content(messages[at]),
            spec_content(messages[i]),
        );
    }
    assert(again =~= current);
    assert forall|j: int| 0 <= j < n implies spec_is_current(ids, (#[trigger] current[j]).id) by {
        lemma_current_id(archive, n, j);
    }
    lemma_leftover_all_current(current, ids, n);
    lemma_leftover_not_current(existing, ids, existing.len() as int);
    lemma_leftover_none_current(kept, ids, kept.len() as int);
    lemma_leftover_concat(current, kept, ids, once.len() as int);
    assert(kept.take(kept.len() as int) =~= kept);
    assert(Seq::<RecordView>::empty() + kept =~= kept);
}

/// Writing an archive into a JSON file in one language leaves the
/// content of every other language as it is: the record of a message
/// holds in another language what the file held in it under the
/// identifier of the message.
pub proof fn lemma_merge_keeps_other_languages(
    existing: Seq<RecordView>,
    archive: Seq<char>,
    messages: Seq<Seq<char>>,
    lang: Seq<char>,
    other: Seq<char>,
    i: int,
)
    requires
        other != lang,
        0 <= i < messages.len(),
    ensures
        spec_field(spec_merge(existing, archive, messages, lang)[i].fields, other) == spec_field(
            spec_fields_on_file(existing, spec_message_id(archive, i)),
            other,
        ),
{
    lemma_set_field_other(
        spec_fields_on_file(existing, spec_message_id(archive, i)),
        lang,
        spec_content(messages[i]),
        other,
    );
}

/// After an archive was written into a JSON file, the record of each
/// message holds the message in the language of the archive.
pub proof fn lemma_merge_holds_message(
    existing: Seq<RecordView>,
    archive: Seq<char>,
    messages: Seq<Seq<char>>,
    lang: Seq<char>,
    i: int,
)
    requires
        0 <= i < messages.len(),
    ensures
        spec_merge(existing, archive, messages, lang)[i].id == spec_message_id(archive, i),
        spec_record_text(spec_merge(existing, archive, messages, lang)[i], lang) == Some(
            messages[i],
        ),
{
    lemma_set_field_same(
        spec_fields_on_file(existing, spec_message_id(archive, i)),
        lang,
        spec_content(messages[i]),
    );
    lemma_content_round_trip(messages[i]);
}

/// The position of a message is the value of the digits of its identifier.
proof fn lemma_index_digits_value(index: int)
    requires
        0 <= index,
    ensures
        spec_digits_value(spec_index_digits(index), 10) == index,
{
    let digits = spec_decimal(index);
    lemma_decimal_value(index);
    if digits.len() < 5 {
        lemma_leading_zeros((5 - digits.len()) as nat, digits, 10);
    }
}

/// Two messages of an archive have the same identifier only if they are
/// the same message.
pub proof fn lemma_message_id_injective(archive: Seq<char>, i: int, j: int)
    requires
        0 <= i,
        0 <= j,
        spec_message_id(archive, i) == spec_message_id(archive, j),
    ensures
        i == j,
{
    let head = "msg_"@ + archive + seq!['_'];
    let first = spec_index_digits(i);
    let second = spec_index_digits(j);
    assert(spec_message_id(archive, i) == head + first);
    assert(spec_message_id(archive, j) == head + second);
    assert((head + first).subrange(head.len() as int, (head + first).len() as int) =~= first);
    assert((head + second).subrange(head.len() as int, (head + second).len() as int) =~= second);
    lemma_index_digits_value(i);
    lemma_index_digits_value(j);
}

/// After an archive was written into a JSON file, the record of a
/// message is the first record with the identifier of the message.
proof fn lemma_merged_record_found(
    existing: Seq<RecordView>,
    archive: Seq<char>,
    messages: Seq<Seq<char>>,
    lang: Seq<char>,
    i: int,
)
    requires
        0 <= i < messages.len(),
    ensures
        spec_find_id(
            spec_merge(existing, archive, messages, lang),
            spec_message_id(archive, i),
        ) == i,
{
    let merged = spec_merge(existing, archive, messages, lang);
    let ids = spec_ids(merged);
    let id = spec_message_id(archive, i);
    assert(ids[i] == id);
    assert forall|j: int| 0 <= j < i implies ids[j] != id by {
        assert(ids[j] == spec_message_id(archive, j));
        if ids[j] == id {
            lemma_message_id_injective(archive, j, i);
        }
    }
    lemma_find_text_at(ids, id, i);
}

/// Writing an archive into a JSON file in a second language leaves the
/// first language as it was written: the record of each message holds
/// in the first language what it held before.
pub proof fn lemma_second_language_keeps_first(
    existing: Seq<RecordView>,
    archive: Seq<char>,
    first: Seq<Seq<char>>,
    first_lang: Seq<char>,
    second: Seq<Seq<char>>,
    second_lang: Seq<char>,
    i: int,
)
    requires
        first_lang != second_lang,
        0 <= i < first.len(),
        i < second.len(),
    ensures
        spec_field(
            spec_merge(
                spec_merge(existing, archive, first, first_lang),
                archive,
                second,
                second_lang,
            )[i].fields,
            first_lang,
        ) == spec_field(spec_merge(existing, archive, first, first_lang)[i].fields, first_lang),
        spec_field(spec_merge(existing, archive, first, first_lang)[i].fields, first_lang)
            == Some(spec_content(first[i])),
{
    let once = spec_merge(existing, archive, first, first_lang);
    lemma_merged_record_found(existing, archive, first, first_lang, i);
    lemma_merge_keeps_other_languages(once, archive, second, second_lang, first_lang, i);
    lemma_set_field_same(
        spec_fields_on_file(existing, spec_message_id(archive, i)),
        first_lang,
        spec_content(first[i]),
    );
}

} // verus!
