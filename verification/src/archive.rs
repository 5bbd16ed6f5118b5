//! The binary archive: a header of message count and key, a table of
//! masked entries, and the encrypted message bodies.
//!
//! All numbers are little-endian. An entry is eight bytes: the offset of a
//! body from the start of the archive, in bytes, and its length, in code
//! units of two bytes.
use crate::bytes::{
    lemma_u16_round_trip, lemma_u32_round_trip, spec_read_u16, spec_read_u32, spec_u16_bytes,
    spec_u32_bytes,
};
use crate::charmap::CharmapView;
use crate::diag::{Outcome, Warning};
use crate::keystream::{
    lemma_crypt_involutive, lemma_mask_involutive, spec_crypt, spec_table_mask,
};
use crate::message::{
    lemma_message_round_trip, spec_decode_message, spec_encode_message, spec_plain_text,
};
use vstd::prelude::*;

verus! {

/// The bytes of the header: message count and key.
pub const HEADER_SIZE: usize = 4;

/// The bytes of one table entry.
pub const ENTRY_SIZE: usize = 8;

/// The most messages that an archive can hold.
pub const MAX_MESSAGES: usize = 65535;

/// Why a conversion of one file failed.
#[derive(Clone, Copy, Debug, PartialEq, Eq)]
pub enum CodecError {
    /// The archive is shorter than its header, its table or one of the
    /// bodies that its table points to.
    MalformedArchive,
    /// The messages are more than an archive can count, or their bodies
    /// more than its offsets can reach.
    ArchiveTooLarge,
    /// A JSON record holds neither the language asked for nor `en_US`.
    MissingLanguage,
}

/// A decoded archive: the key, and the messages in the order of the
/// table. The order is part of the format: the position of a message
/// seeds its encryption.
#[derive(Clone, Debug, PartialEq, Eq)]
pub struct Archive {
    pub key: u16,
    pub messages: Vec<String>,
}

/// An archive as mathematics sees it.
pub struct ArchiveView {
    pub key: u16,
    pub messages: Seq<Seq<char>>,
}

/// The text of each string.
pub open spec fn spec_texts(strings: Seq<String>) -> Seq<Seq<char>> {
    Seq::new(strings.len(), |i: int| strings[i]@)
}

impl View for Archive {
    type V = ArchiveView;

    open spec fn view(&self) -> ArchiveView {
        ArchiveView { key: self.key, messages: spec_texts(self.messages@) }
    }
}

/// A warning about one message of an archive.
#[derive(Clone, Copy, Debug, PartialEq, Eq)]
pub struct MessageWarning {
    /// The 0-based position of the message in the archive.
    pub message: usize,
    pub warning: Warning,
}

/// The warnings of one message, each with the position of the message.
pub open spec fn spec_tag(warnings: Seq<Warning>, message: int) -> Seq<MessageWarning> {
    Seq::new(
        warnings.len(),
        |k: int| MessageWarning { message: message as usize, warning: warnings[k] },
    )
}

/// Appends the warnings of the message at position `message`.
pub fn push_tagged(diag: &mut Vec<MessageWarning>, warnings: &Vec<Warning>, message: usize)
    ensures
        final(diag)@ == old(diag)@ + spec_tag(warnings@, message as int),
{
    let mut k: usize = 0;
    while k < warnings.len()
        invariant
            k <= warnings.len(),
            diag@ == old(diag)@ + spec_tag(warnings@, message as int).take(k as int),
        decreases warnings.len() - k,
    {
        diag.push(MessageWarning { message, warning: warnings[k] });
        assert(diag@ =~= old(diag)@ + spec_tag(warnings@, message as int).take(k + 1));
        k += 1;
    }
    assert(spec_tag(warnings@, message as int).take(k as int) =~= spec_tag(
        warnings@,
        message as int,
    ));
}

/// One entry of the table, unmasked.
#[derive(Clone, Copy, Debug, PartialEq, Eq)]
pub struct TableEntry {
    /// Where the body begins, in bytes from the start of the archive.
    pub offset: u32,
    /// How many code units the body has.
    pub length: u32,
}

/// An entry with both fields XORed with the mask of the 1-based table
/// position `index`. Masking and unmasking are this same function.
pub open spec fn spec_mask_entry(entry: TableEntry, index: int, key: u16) -> TableEntry {
    TableEntry {
        offset: entry.offset ^ spec_table_mask(index, key),
        length: entry.length ^ spec_table_mask(index, key),
    }
}

/// The number of messages that the header announces.
pub open spec fn spec_count(bytes: Seq<u8>) -> int {
    spec_read_u16(bytes, 0) as int
}

/// The key that the header holds.
pub open spec fn spec_key(bytes: Seq<u8>) -> u16 {
    spec_read_u16(bytes, 2)
}

/// The table entry of the message at 0-based position `i`, unmasked.
pub open spec fn spec_entry(bytes: Seq<u8>, i: int) -> TableEntry {
    spec_mask_entry(
        TableEntry {
            offset: spec_read_u32(bytes, 4 + 8 * i),
            length: spec_read_u32(bytes, 8 + 8 * i),
        },
        i + 1,
        spec_key(bytes),
    )
}

/// Whether the body of an entry lies within `len` bytes.
pub open spec fn spec_entry_fits(entry: TableEntry, len: int) -> bool {
    entry.offset + 2 * entry.length <= len
}

/// Whether the bytes hold a whole archive: the header, the table that
/// the header announces, and every body that the table points to.
pub open spec fn spec_well_formed(bytes: Seq<u8>) -> bool {
    &&& bytes.len() >= 4
    &&& bytes.len() >= 4 + 8 * spec_count(bytes)
    &&& forall|i: int|
        0 <= i < spec_count(bytes) ==> spec_entry_fits(#[trigger] spec_entry(bytes, i), bytes.len() as int)
}

/// The code units of the body of an entry, as they stand in the archive.
pub open spec fn spec_body(bytes: Seq<u8>, entry: TableEntry) -> Seq<u16> {
    Seq::new(entry.length as nat, |j: int| spec_read_u16(bytes, entry.offset + 2 * j))
}

/// The decrypted code units of the message at 0-based position `i`.
pub open spec fn spec_message_codes(bytes: Seq<u8>, i: int) -> Seq<u16> {
    spec_crypt(spec_body(bytes, spec_entry(bytes, i)), (i + 1) as u16)
}

/// The text and the warnings of the message at 0-based position `i`.
pub open spec fn spec_decoded_message(
    charmap: CharmapView,
    bytes: Seq<u8>,
    i: int,
    legacy: bool,
) -> Outcome<char> {
    spec_decode_message(charmap, spec_message_codes(bytes, i), legacy)
}

/// What decoding a well-formed archive gives.
pub open spec fn spec_decode_archive(charmap: CharmapView, bytes: Seq<u8>, legacy: bool) -> ArchiveView {
    ArchiveView {
        key: spec_key(bytes),
        messages: Seq::new(
            spec_count(bytes) as nat,
            |i: int| spec_decoded_message(charmap, bytes, i, legacy).out,
        ),
    }
}

/// The warnings of the first `n` messages of an archive, in order.
pub open spec fn spec_decode_warnings(
    charmap: CharmapView,
    bytes: Seq<u8>,
    legacy: bool,
    n: int,
) -> Seq<MessageWarning>
    decreases n,
{
    if n <= 0 {
        Seq::empty()
    } else {
        spec_decode_warnings(charmap, bytes, legacy, n - 1) + spec_tag(
            spec_decoded_message(charmap, bytes, n - 1, legacy).warnings,
            n - 1,
        )
    }
}

/// The encrypted body of each message: its codes, encrypted under its
/// 1-based position.
pub open spec fn spec_bodies(charmap: CharmapView, messages: Seq<Seq<char>>, legacy: bool) -> Seq<
    Seq<u16>,
> {
    Seq::new(
        messages.len(),
        |i: int| spec_crypt(spec_encode_message(charmap, messages[i], legacy).out, (i + 1) as u16),
    )
}

/// The number of code units of the first `n` bodies together.
pub open spec fn spec_units(bodies: Seq<Seq<u16>>, n: int) -> int
    decreases n,
{
    if n <= 0 {
        0
    } else {
        spec_units(bodies, n - 1) + bodies[n - 1].len()
    }
}

/// The code units of each body.
pub open spec fn spec_body_views(bodies: Seq<Vec<u16>>) -> Seq<Seq<u16>> {
    Seq::new(bodies.len(), |i: int| bodies[i]@)
}

/// The first bodies have no more code units than all of them.
pub proof fn lemma_units_monotone(bodies: Seq<Seq<u16>>, i: int, n: int)
    requires
        0 <= i <= n,
    ensures
        0 <= spec_units(bodies, i) <= spec_units(bodies, n),
    decreases n - i, i,
{
    if i < n {
        lemma_units_monotone(bodies, i, n - 1);
    } else if i > 0 {
        lemma_units_monotone(bodies, i - 1, i - 1);
    }
}

/// Where body `i` begins: after the header, the whole table and the
/// bodies before it.
pub open spec fn spec_offset(bodies: Seq<Seq<u16>>, i: int) -> int {
    4 + 8 * bodies.len() + 2 * spec_units(bodies, i)
}

/// The number of bytes of the archive of these bodies.
pub open spec fn spec_archive_size(bodies: Seq<Seq<u16>>) -> int {
    spec_offset(bodies, bodies.len() as int)
}

/// Whether an archive can hold these bodies: no more of them than 16
/// bits count, and no more bytes in all than 32 bits reach.
pub open spec fn spec_archive_fits(bodies: Seq<Seq<u16>>) -> bool {
    bodies.len() <= 65535 && spec_archive_size(bodies) <= u32::MAX
}

/// The bytes of table entry `i`: offset and length, masked.
pub open spec fn spec_entry_bytes(bodies: Seq<Seq<u16>>, key: u16, i: int) -> Seq<u8> {
    spec_u32_bytes((spec_offset(bodies, i) as u32) ^ spec_table_mask(i + 1, key)) + spec_u32_bytes(
        (bodies[i].len() as u32) ^ spec_table_mask(i + 1, key),
    )
}

/// The bytes of the first `n` table entries.
pub open spec fn spec_table_bytes(bodies: Seq<Seq<u16>>, key: u16, n: int) -> Seq<u8>
    decreases n,
{
    if n <= 0 {
        Seq::empty()
    } else {
        spec_table_bytes(bodies, key, n - 1) + spec_entry_bytes(bodies, key, n - 1)
    }
}

/// The bytes of the first `n` code units of a body.
pub open spec fn spec_code_bytes(codes: Seq<u16>, n: int) -> Seq<u8>
    decreases n,
{
    if n <= 0 {
        Seq::empty()
    } else {
        spec_code_bytes(codes, n - 1) + spec_u16_bytes(codes[n - 1])
    }
}

/// The bytes of the first `n` bodies, one after the other.
pub open spec fn spec_body_bytes(bodies: Seq<Seq<u16>>, n: int) -> Seq<u8>
    decreases n,
{
    if n <= 0 {
        Seq::empty()
    } else {
        spec_body_bytes(bodies, n - 1) + spec_code_bytes(
            bodies[n - 1],
            bodies[n - 1].len() as int,
        )
    }
}

/// The archive of these bodies under this key: header, table, bodies.
pub open spec fn spec_archive_bytes(bodies: Seq<Seq<u16>>, key: u16) -> Seq<u8> {
    spec_u16_bytes(bodies.len() as u16) + spec_u16_bytes(key) + spec_table_bytes(
        bodies,
        key,
        bodies.len() as int,
    ) + spec_body_bytes(bodies, bodies.len() as int)
}

/// What encoding messages into an archive gives, where they fit.
pub open spec fn spec_encode_archive(
    charmap: CharmapView,
    key: u16,
    messages: Seq<Seq<char>>,
    legacy: bool,
) -> Seq<u8> {
    spec_archive_bytes(spec_bodies(charmap, messages, legacy), key)
}

/// The warnings of encoding the first `n` messages, in order.
pub open spec fn spec_encode_warnings(
    charmap: CharmapView,
    messages: Seq<Seq<char>>,
    legacy: bool,
    n: int,
) -> Seq<MessageWarning>
    decreases n,
{
    if n <= 0 {
        Seq::empty()
    } else {
        spec_encode_warnings(charmap, messages, legacy, n - 1) + spec_tag(
            spec_encode_message(charmap, messages[n - 1], legacy).warnings,
            n - 1,
        )
    }
}

/// Masking an entry twice at the same table position under the same key
/// gives the entry back.
pub proof fn lemma_mask_entry_involutive(entry: TableEntry, index: int, key: u16)
    ensures
        spec_mask_entry(spec_mask_entry(entry, index, key), index, key) == entry,
{
    lemma_mask_involutive(entry.offset, index, key);
    lemma_mask_involutive(entry.length, index, key);
}

proof fn lemma_table_len(bodies: Seq<Seq<u16>>, key: u16, n: int)
    requires
        0 <= n,
    ensures
        spec_table_bytes(bodies, key, n).len() == 8 * n,
    decreases n,
{
    if n > 0 {
        lemma_table_len(bodies, key, n - 1);
    }
}

proof fn lemma_code_bytes_len(codes: Seq<u16>, n: int)
    requires
        0 <= n,
    ensures
        spec_code_bytes(codes, n).len() == 2 * n,
    decreases n,
{
    if n > 0 {
        lemma_code_bytes_len(codes, n - 1);
    }
}

proof fn lemma_body_bytes_len(bodies: Seq<Seq<u16>>, n: int)
    requires
        0 <= n,
    ensures
        spec_body_bytes(bodies, n).len() == 2 * spec_units(bodies, n),
    decreases n,
{
    if n > 0 {
        lemma_body_bytes_len(bodies, n - 1);
        lemma_code_bytes_len(bodies[n - 1], bodies[n - 1].len() as int);
    }
}

proof fn lemma_table_at(bodies: Seq<Seq<u16>>, key: u16, n: int, i: int, t: int)
    requires
        0 <= i < n,
        0 <= t < 8,
    ensures
        spec_table_bytes(bodies, key, n)[8 * i + t] == spec_entry_bytes(bodies, key, i)[t],
    decreases n,
{
    lemma_table_len(bodies, key, n - 1);
    if i < n - 1 {
        lemma_table_at(bodies, key, n - 1, i, t);
    }
}

proof fn lemma_code_at(codes: Seq<u16>, n: int, j: int, t: int)
    requires
        0 <= j < n,
        0 <= t < 2,
    ensures
        spec_code_bytes(codes, n)[2 * j + t] == spec_u16_bytes(codes[j])[t],
    decreases n,
{
    lemma_code_bytes_len(codes, n - 1);
    if j < n - 1 {
        lemma_code_at(codes, n - 1, j, t);
    }
}

proof fn lemma_body_at(bodies: Seq<Seq<u16>>, n: int, i: int, j: int, t: int)
    requires
        0 <= i < n,
        0 <= j < bodies[i].len(),
        0 <= t < 2,
    ensures
        spec_body_bytes(bodies, n)[2 * spec_units(bodies, i) + 2 * j + t] == spec_u16_bytes(
            bodies[i][j],
        )[t],
    decreases n,
{
    lemma_body_bytes_len(bodies, n - 1);
    lemma_units_monotone(bodies, i, n - 1);
    if i < n - 1 {
        lemma_units_monotone(bodies, i + 1, n - 1);
        lemma_body_at(bodies, n - 1, i, j, t);
    } else {
        lemma_code_bytes_len(bodies[i], bodies[i].len() as int);
        lemma_code_at(bodies[i], bodies[i].len() as int, j, t);
    }
}

/// The bytes of an archive are as many as its size says.
pub proof fn lemma_archive_len(bodies: Seq<Seq<u16>>, key: u16)
    ensures
        spec_archive_bytes(bodies, key).len() == spec_archive_size(bodies),
{
    lemma_table_len(bodies, key, bodies.len() as int);
    lemma_body_bytes_len(bodies, bodies.len() as int);
}

/// The header of an archive holds the number of its bodies and its key.
proof fn lemma_archive_header(bodies: Seq<Seq<u16>>, key: u16)
    requires
        bodies.len() <= 65535,
    ensures
        spec_count(spec_archive_bytes(bodies, key)) == bodies.len(),
        spec_key(spec_archive_bytes(bodies, key)) == key,
{
    let bytes = spec_archive_bytes(bodies, key);
    let count = spec_u16_bytes(bodies.len() as u16);
    let keyb = spec_u16_bytes(key);
    assert(bytes[0] == count[0]);
    assert(bytes[1] == count[1]);
    assert(bytes[2] == keyb[0]);
    assert(bytes[3] == keyb[1]);
}

/// The table entry of body `i` is read back from the archive.
proof fn lemma_archive_entry(bodies: Seq<Seq<u16>>, key: u16, i: int)
    requires
        spec_archive_fits(bodies),
        0 <= i < bodies.len(),
    ensures
        spec_entry(spec_archive_bytes(bodies, key), i) == (TableEntry {
            offset: spec_offset(bodies, i) as u32,
            length: bodies[i].len() as u32,
        }),
        spec_offset(bodies, i) + 2 * bodies[i].len() <= spec_archive_size(bodies),
{
    let n = bodies.len() as int;
    let bytes = spec_archive_bytes(bodies, key);
    let table = spec_table_bytes(bodies, key, n);
    let mask = spec_table_mask(i + 1, key);
    lemma_units_monotone(bodies, i, n);
    lemma_units_monotone(bodies, i + 1, n);
    lemma_archive_header(bodies, key);
    lemma_table_len(bodies, key, n);
    let offset = spec_offset(bodies, i) as u32;
    let length = bodies[i].len() as u32;
    let masked_offset = spec_u32_bytes(offset ^ mask);
    let masked_length = spec_u32_bytes(length ^ mask);
    let entry = spec_entry_bytes(bodies, key, i);
    assert(entry == masked_offset + masked_length);
    assert(masked_offset.len() == 4 && masked_length.len() == 4);
    assert forall|t: int| 0 <= t < 8 implies #[trigger] bytes[4 + 8 * i + t] == entry[t] by {
        lemma_table_at(bodies, key, n, i, t);
        assert(bytes[4 + 8 * i + t] == table[8 * i + t]);
    }
    assert(bytes[4 + 8 * i + 0] == entry[0] && entry[0] == masked_offset[0]);
    assert(bytes[4 + 8 * i + 1] == entry[1] && entry[1] == masked_offset[1]);
    assert(bytes[4 + 8 * i + 2] == entry[2] && entry[2] == masked_offset[2]);
    assert(bytes[4 + 8 * i + 3] == entry[3] && entry[3] == masked_offset[3]);
    assert(bytes[4 + 8 * i + 4] == entry[4] && entry[4] == masked_length[0]);
    assert(bytes[4 + 8 * i + 5] == entry[5] && entry[5] == masked_length[1]);
    assert(bytes[4 + 8 * i + 6] == entry[6] && entry[6] == masked_length[2]);
    assert(bytes[4 + 8 * i + 7] == entry[7] && entry[7] == masked_length[3]);
    lemma_u32_round_trip(offset ^ mask);
    lemma_u32_round_trip(length ^ mask);
    assert(spec_read_u32(bytes, 4 + 8 * i) == offset ^ mask);
    assert(spec_read_u32(bytes, 8 + 8 * i) == length ^ mask);
    lemma_mask_involutive(offset, i + 1, key);
    lemma_mask_involutive(length, i + 1, key);
}

/// The body of entry `i` is read back from the archive.
proof fn lemma_archive_body(bodies: Seq<Seq<u16>>, key: u16, i: int)
    requires
        spec_archive_fits(bodies),
        0 <= i < bodies.len(),
    ensures
        spec_body(
            spec_archive_bytes(bodies, key),
            TableEntry { offset: spec_offset(bodies, i) as u32, length: bodies[i].len() as u32 },
        ) == bodies[i],
{
    let n = bodies.len() as int;
    let bytes = spec_archive_bytes(bodies, key);
    let all = spec_body_bytes(bodies, n);
    let entry = TableEntry {
        offset: spec_offset(bodies, i) as u32,
        length: bodies[i].len() as u32,
    };
    lemma_units_monotone(bodies, i, n);
    lemma_units_monotone(bodies, i + 1, n);
    lemma_table_len(bodies, key, n);
    lemma_body_bytes_len(bodies, n);
    let body = spec_body(bytes, entry);
    assert forall|j: int| 0 <= j < bodies[i].len() implies body[j] == bodies[i][j] by {
        let at = 2 * spec_units(bodies, i) + 2 * j;
        lemma_body_at(bodies, n, i, j, 0);
        lemma_body_at(bodies, n, i, j, 1);
        assert(bytes[4 + 8 * n + at] == all[at]);
        assert(bytes[4 + 8 * n + at + 1] == all[at + 1]);
        lemma_u16_round_trip(bodies[i][j]);
        assert(spec_read_u16(bytes, entry.offset + 2 * j) == bodies[i][j]);
    }
    assert(body =~= bodies[i]);
}

/// An archive that was written is well formed, and holds what was
/// written: the number of bodies, the key, and each body where its table
/// entry says.
pub proof fn lemma_archive_layout(bodies: Seq<Seq<u16>>, key: u16)
    requires
        spec_archive_fits(bodies),
    ensures
        spec_well_formed(spec_archive_bytes(bodies, key)),
        spec_count(spec_archive_bytes(bodies, key)) == bodies.len(),
        spec_key(spec_archive_bytes(bodies, key)) == key,
        forall|i: int|
            0 <= i < bodies.len() ==> spec_body(
                spec_archive_bytes(bodies, key),
                #[trigger] spec_entry(spec_archive_bytes(bodies, key), i),
            ) == bodies[i],
{
    let bytes = spec_archive_bytes(bodies, key);
    lemma_archive_len(bodies, key);
    lemma_archive_header(bodies, key);
    lemma_units_monotone(bodies, 0, bodies.len() as int);
    assert forall|i: int| 0 <= i < bodies.len() implies spec_entry_fits(
        #[trigger] spec_entry(bytes, i),
        bytes.len() as int,
    ) && spec_body(bytes, spec_entry(bytes, i)) == bodies[i] by {
        lemma_archive_entry(bodies, key, i);
        lemma_archive_body(bodies, key, i);
        lemma_units_monotone(bodies, i, bodies.len() as int);
    }
}

/// An archive round-trips: where every character of every message is
/// plain and the messages fit an archive, decoding the archive that
/// encoding gave gives the key and the messages back.
pub proof fn lemma_archive_round_trip(
    charmap: CharmapView,
    key: u16,
    messages: Seq<Seq<char>>,
    legacy: bool,
)
    requires
        forall|i: int| 0 <= i < messages.len() ==> spec_plain_text(charmap, #[trigger] messages[i]),
        spec_archive_fits(spec_bodies(charmap, messages, legacy)),
    ensures
        spec_well_formed(spec_encode_archive(charmap, key, messages, legacy)),
        spec_decode_archive(charmap, spec_encode_archive(charmap, key, messages, legacy), legacy)
            == (ArchiveView { key, messages }),
{
    let bodies = spec_bodies(charmap, messages, legacy);
    let bytes = spec_encode_archive(charmap, key, messages, legacy);
    lemma_archive_layout(bodies, key);
    let decoded = spec_decode_archive(charmap, bytes, legacy);
    assert forall|i: int| 0 <= i < messages.len() implies decoded.messages[i] == messages[i] by {
        let index = (i + 1) as u16;
        let codes = spec_encode_message(charmap, messages[i], legacy).out;
        assert(spec_body(bytes, spec_entry(bytes, i)) == bodies[i]);
        assert(bodies[i] == spec_crypt(codes, index));
        lemma_crypt_involutive(codes, index);
        assert(spec_message_codes(bytes, i) == codes);
        lemma_message_round_trip(charmap, messages[i], legacy);
    }
    assert(decoded.messages =~= messages);
}

} // verus!
