//! Trainer names: character codes of nine bits, packed into the low
//! fifteen bits of consecutive 16-bit words.
use crate::charmap::CharmapView;
use crate::diag::{spec_warning, Outcome, Token, Warning, WarningKind};
use crate::text::spec_hex4;
use vstd::prelude::*;

verus! {

/// The code unit that opens a trainer name.
pub const TRAINER_MARKER: u16 = 0xF100;

/// The nine-bit value that ends a trainer name.
pub const NAME_END: u16 = 0x1FF;

/// The words that packing the codes from `k` on gives, when `bit` bits of
/// the word in progress are taken and hold `acc`.
///
/// Each code puts its low nine bits at the cursor. A word is full at
/// fifteen bits; what did not fit starts the next word. After the last
/// code, a word in progress is filled up with ones, the beginning of the
/// end mark.
pub open spec fn spec_pack(codes: Seq<u16>, k: int, acc: u16, bit: u16) -> Seq<u16>
    decreases codes.len() - k,
{
    if k < 0 || k >= codes.len() {
        if bit > 0 {
            seq![(acc | (0xFFFFu16 << bit)) & 0x7FFF]
        } else {
            Seq::empty()
        }
    } else {
        let code = codes[k];
        let filled = acc | ((code & 0x1FF) << bit);
        if bit + 9 >= 15 {
            let carried = (bit + 9 - 15) as u16;
            seq![filled & 0x7FFF] + spec_pack(
                codes,
                k + 1,
                (code >> ((9 - carried) as u16)) & 0x1FF,
                carried,
            )
        } else {
            spec_pack(codes, k + 1, filled, (bit + 9) as u16)
        }
    }
}

/// The nine-bit value at bit `bit` of word `index`: the bits of that word
/// from `bit` up and, where the window passes bit fifteen and a word
/// follows, the low bits of the following word.
pub open spec fn spec_read9(words: Seq<u16>, index: int, bit: u16) -> u16 {
    let low = (words[index] >> bit) & 0x1FF;
    if bit + 9 > 15 && index + 1 < words.len() {
        low | ((words[index + 1] << ((15 - bit) as u16)) & 0x1FF)
    } else {
        low
    }
}

/// The word in which the value after the one at bit `bit` of word `index` begins.
pub open spec fn spec_next_index(index: int, bit: u16) -> int {
    if bit + 9 >= 15 {
        index + 1
    } else {
        index
    }
}

/// The bit at which the value after the one at bit `bit` begins.
pub open spec fn spec_next_bit(bit: u16) -> u16 {
    if bit + 9 >= 15 {
        (bit + 9 - 15) as u16
    } else {
        (bit + 9) as u16
    }
}

/// What unpacking gives: the codes before the end mark, and the word at
/// which the cursor stood when it stopped.
pub struct Unpacked {
    pub codes: Seq<u16>,
    pub end: int,
}

/// Unpacks nine-bit values from bit `bit` of word `index` on, until the
/// end mark `0x1FF` or the end of the words.
pub open spec fn spec_unpack(words: Seq<u16>, index: int, bit: u16) -> Unpacked
    decreases words.len() - index, 15 - bit,
{
    if index < 0 || index >= words.len() || bit >= 15 {
        Unpacked { codes: Seq::empty(), end: index }
    } else {
        let code = spec_read9(words, index, bit);
        let next_index = spec_next_index(index, bit);
        let next_bit = spec_next_bit(bit);
        if code == NAME_END {
            Unpacked { codes: Seq::empty(), end: next_index }
        } else {
            let rest = spec_unpack(words, next_index, next_bit);
            Unpacked { codes: seq![code] + rest.codes, end: rest.end }
        }
    }
}

/// The text of one code of a trainer name: what the character map gives,
/// or `0x` and four hexadecimal digits.
pub open spec fn spec_name_code_text(charmap: CharmapView, code: u16) -> Seq<char> {
    if charmap.decode.contains_key(code) {
        charmap.decode[code]
    } else {
        seq!['0', 'x'] + spec_hex4(code)
    }
}

/// The text of the codes of a trainer name.
pub open spec fn spec_name_text(charmap: CharmapView, codes: Seq<u16>) -> Seq<char>
    decreases codes.len(),
{
    if codes.len() == 0 {
        Seq::empty()
    } else {
        spec_name_text(charmap, codes.drop_last()) + spec_name_code_text(charmap, codes.last())
    }
}

/// One warning at `at` for each code of a trainer name that the character
/// map does not hold.
pub open spec fn spec_name_code_warnings(charmap: CharmapView, codes: Seq<u16>, at: int) -> Seq<
    Warning,
>
    decreases codes.len(),
{
    if codes.len() == 0 {
        Seq::empty()
    } else if charmap.decode.contains_key(codes.last()) {
        spec_name_code_warnings(charmap, codes.drop_last(), at)
    } else {
        spec_name_code_warnings(charmap, codes.drop_last(), at).push(
            spec_warning(WarningKind::UnknownCode, at),
        )
    }
}

/// What decoding a trainer name gives. `codes` begins with the marker;
/// the packed words follow it. The canonical text is
/// `{TRAINER_NAME:<name>}`; the legacy text is `{TRNAME}<name>`, which
/// nothing closes. `next` is the number of code units used: the marker,
/// and the words up to and including the one at which unpacking stopped.
/// It is one more than there are code units where the name runs to
/// their end.
pub open spec fn spec_decode_trainer_name(
    charmap: CharmapView,
    codes: Seq<u16>,
    legacy: bool,
    at: int,
) -> Token<char> {
    let unpacked = spec_unpack(codes, 1, 0);
    let name = spec_name_text(charmap, unpacked.codes);
    Token {
        out: if legacy {
            "{TRNAME}"@ + name
        } else {
            "{TRAINER_NAME:"@ + name + seq!['}']
        },
        next: unpacked.end + 1,
        warnings: spec_name_code_warnings(charmap, unpacked.codes, at),
    }
}

/// The code of one character of a trainer name: what the character map
/// gives for it, `0` where it gives nothing.
pub open spec fn spec_name_char_code(charmap: CharmapView, c: char) -> u16 {
    if charmap.encode.contains_key(seq![c]) {
        charmap.encode[seq![c]]
    } else {
        0
    }
}

/// The codes of the characters of a trainer name.
pub open spec fn spec_name_codes(charmap: CharmapView, name: Seq<char>) -> Seq<u16> {
    Seq::new(name.len(), |i: int| spec_name_char_code(charmap, name[i]))
}

/// One warning for each of the first `n` characters of a trainer name
/// that the character map does not hold, at the character's position.
pub open spec fn spec_name_char_warnings(
    charmap: CharmapView,
    name: Seq<char>,
    at: int,
    n: int,
) -> Seq<Warning>
    decreases n,
{
    if n <= 0 {
        Seq::empty()
    } else if charmap.encode.contains_key(seq![name[n - 1]]) {
        spec_name_char_warnings(charmap, name, at, n - 1)
    } else {
        spec_name_char_warnings(charmap, name, at, n - 1).push(
            spec_warning(WarningKind::UnknownCharacter, at + n - 1),
        )
    }
}

/// What encoding a trainer name gives: the marker, then the packed codes
/// of its characters.
pub open spec fn spec_encode_trainer_name(charmap: CharmapView, name: Seq<char>, at: int) -> Outcome<
    u16,
> {
    Outcome {
        out: seq![TRAINER_MARKER] + spec_pack(spec_name_codes(charmap, name), 0, 0, 0),
        warnings: spec_name_char_warnings(charmap, name, at, name.len() as int),
    }
}

/// Every packed word leaves its top bit clear: a word holds fifteen bits.
pub proof fn lemma_pack_top_bit(codes: Seq<u16>, k: int, acc: u16, bit: u16, i: int)
    requires
        0 <= k,
        0 <= i < spec_pack(codes, k, acc, bit).len(),
    ensures
        spec_pack(codes, k, acc, bit)[i] < 0x8000,
    decreases codes.len() - k,
{
    if k >= codes.len() {
        let word = acc | (0xFFFFu16 << bit);
        assert(word & 0x7FFF < 0x8000) by (bit_vector);
    } else {
        let code = codes[k];
        let filled = acc | ((code & 0x1FF) << bit);
        if bit + 9 >= 15 {
            let carried = (bit + 9 - 15) as u16;
            if i == 0 {
                assert(filled & 0x7FFF < 0x8000) by (bit_vector);
            } else {
                lemma_pack_top_bit(
                    codes,
                    k + 1,
                    (code >> ((9 - carried) as u16)) & 0x1FF,
                    carried,
                    i - 1,
                );
            }
        } else {
            lemma_pack_top_bit(codes, k + 1, filled, (bit + 9) as u16, i);
        }
    }
}

/// The end mark is read from a last word in which it fits.
proof fn lemma_bits_end_within(acc: u16, bit: u16)
    by (bit_vector)
    requires
        1 <= bit <= 6,
    ensures
        ((((acc | (0xFFFFu16 << bit)) & 0x7FFF) >> bit) & 0x1FF) == 0x1FF,
{
}

/// The end mark is read from a last word in which it does not fit, and
/// the message terminator after it.
proof fn lemma_bits_end_across(acc: u16, bit: u16, up: u16)
    by (bit_vector)
    requires
        7 <= bit <= 14,
        up == 15 - bit,
    ensures
        ((((acc | (0xFFFFu16 << bit)) & 0x7FFF) >> bit) & 0x1FF) | ((0xFFFFu16 << up) & 0x1FF)
            == 0x1FF,
{
}

/// Filling a last word leaves the bits below the cursor as they are.
proof fn lemma_bits_keep_at_end(acc: u16, bit: u16)
    by (bit_vector)
    requires
        0 < bit < 15,
        acc >> bit == 0,
    ensures
        ((acc | (0xFFFFu16 << bit)) & 0x7FFF) & !(0xFFFFu16 << bit) == acc,
{
}

/// Putting a code at the cursor leaves the bits below the cursor as they are.
proof fn lemma_bits_keep_at_flush(acc: u16, code: u16, bit: u16)
    by (bit_vector)
    requires
        0 < bit < 15,
        acc >> bit == 0,
    ensures
        ((acc | ((code & 0x1FF) << bit)) & 0x7FFF) & !(0xFFFFu16 << bit) == acc,
{
}

/// A code that fits the word in progress fills nothing above the new cursor.
proof fn lemma_bits_filled(acc: u16, code: u16, bit: u16, after: u16)
    by (bit_vector)
    requires
        bit <= 5,
        after == bit + 9,
        acc >> bit == 0,
    ensures
        (acc | ((code & 0x1FF) << bit)) >> after == 0,
{
}

/// A word that holds the filled bits below the new cursor holds the old
/// bits below the old cursor.
proof fn lemma_bits_keep_below(acc: u16, code: u16, bit: u16, after: u16, word: u16)
    by (bit_vector)
    requires
        0 < bit <= 5,
        after == bit + 9,
        acc >> bit == 0,
        word & !(0xFFFFu16 << after) == acc | ((code & 0x1FF) << bit),
    ensures
        word & !(0xFFFFu16 << bit) == acc,
{
}

/// A code that fits the word in progress is read back from the word.
proof fn lemma_bits_read_within(acc: u16, code: u16, bit: u16, after: u16, word: u16)
    by (bit_vector)
    requires
        bit <= 5,
        after == bit + 9,
        acc >> bit == 0,
        code <= 0x1FF,
        word & !(0xFFFFu16 << after) == acc | ((code & 0x1FF) << bit),
    ensures
        (word >> bit) & 0x1FF == code,
{
}

/// A code that ends the word in progress is read back from the word.
proof fn lemma_bits_read_flush(acc: u16, code: u16)
    by (bit_vector)
    requires
        acc >> 6u16 == 0,
        code <= 0x1FF,
    ensures
        ((((acc | ((code & 0x1FF) << 6u16)) & 0x7FFF) >> 6u16) & 0x1FF) == code,
        (code >> 9u16) & 0x1FF == 0,
{
}

/// What is carried into the next word lies below the new cursor.
proof fn lemma_bits_carried(code: u16, up: u16, carried: u16)
    by (bit_vector)
    requires
        1 <= carried <= 8,
        up == 9 - carried,
        code <= 0x1FF,
    ensures
        ((code >> up) & 0x1FF) >> carried == 0,
{
}

/// A code that passes the end of the word in progress is read back from
/// that word and the next.
proof fn lemma_bits_read_across(acc: u16, code: u16, bit: u16, up: u16, carried: u16, next: u16)
    by (bit_vector)
    requires
        7 <= bit <= 14,
        up == 15 - bit,
        carried == bit - 6,
        acc >> bit == 0,
        code <= 0x1FF,
        next & !(0xFFFFu16 << carried) == (code >> up) & 0x1FF,
    ensures
        ((((acc | ((code & 0x1FF) << bit)) & 0x7FFF) >> bit) & 0x1FF) | ((next << up) & 0x1FF)
            == code,
{
}

/// Packing from a cursor inside a word gives at least that word, and the
/// word holds below the cursor what was there.
proof fn lemma_first_word(codes: Seq<u16>, k: int, acc: u16, bit: u16)
    requires
        0 <= k <= codes.len(),
        0 < bit < 15,
        acc >> bit == 0,
    ensures
        spec_pack(codes, k, acc, bit).len() > 0,
        spec_pack(codes, k, acc, bit)[0] & !(0xFFFFu16 << bit) == acc,
    decreases codes.len() - k,
{
    if k >= codes.len() {
        lemma_bits_keep_at_end(acc, bit);
    } else {
        let code = codes[k];
        if bit + 9 >= 15 {
            lemma_bits_keep_at_flush(acc, code, bit);
        } else {
            let after = (bit + 9) as u16;
            let filled = acc | ((code & 0x1FF) << bit);
            lemma_bits_filled(acc, code, bit, after);
            lemma_first_word(codes, k + 1, filled, after);
            lemma_bits_keep_below(acc, code, bit, after, spec_pack(codes, k + 1, filled, after)[0]);
        }
    }
}

/// Unpacking reads back what packing wrote, from any cursor: where the
/// words from `index` on are the words that packing the codes from `k` on
/// gives, followed by the message terminator, unpacking from the same
/// cursor gives those codes.
proof fn lemma_unpack_packed(
    words: Seq<u16>,
    index: int,
    codes: Seq<u16>,
    k: int,
    acc: u16,
    bit: u16,
)
    requires
        0 <= k <= codes.len(),
        bit < 15,
        acc >> bit == 0,
        forall|i: int| 0 <= i < codes.len() ==> codes[i] <= 0x1FE,
        0 <= index,
        index + spec_pack(codes, k, acc, bit).len() < words.len(),
        words.subrange(index, index + spec_pack(codes, k, acc, bit).len()) == spec_pack(
            codes,
            k,
            acc,
            bit,
        ),
        words[index + spec_pack(codes, k, acc, bit).len()] == 0xFFFF,
    ensures
        spec_unpack(words, index, bit).codes == codes.subrange(k, codes.len() as int),
    decreases codes.len() - k,
{
    let packed = spec_pack(codes, k, acc, bit);
    let read = spec_read9(words, index, bit);
    if packed.len() > 0 {
        assert(words.subrange(index, index + packed.len())[0] == words[index]);
    }
    if k >= codes.len() {
        if bit == 0 {
            let last = words[index];
            assert((last >> 0u16) & 0x1FF == 0x1FF) by (bit_vector)
                requires
                    last == 0xFFFFu16,
            ;
        } else if bit <= 6 {
            lemma_bits_end_within(acc, bit);
        } else {
            lemma_bits_end_across(acc, bit, (15 - bit) as u16);
        }
        assert(read == NAME_END);
        assert(codes.subrange(k, codes.len() as int) =~= Seq::<u16>::empty());
    } else {
        let code = codes[k];
        let filled = acc | ((code & 0x1FF) << bit);
        if bit + 9 >= 15 {
            let carried = (bit + 9 - 15) as u16;
            let up = (9 - carried) as u16;
            let carry = (code >> up) & 0x1FF;
            let rest = spec_pack(codes, k + 1, carry, carried);
            assert(packed == seq![filled & 0x7FFF] + rest);
            assert(words.subrange(index + 1, index + 1 + rest.len()) =~= rest) by {
                assert forall|j: int| 0 <= j < rest.len() implies words[index + 1 + j]
                    == rest[j] by {
                    assert(words.subrange(index, index + packed.len())[j + 1] == words[index + 1
                        + j]);
                }
            }
            if carried == 0 {
                lemma_bits_read_flush(acc, code);
                assert(carry >> carried == 0) by (bit_vector)
                    requires
                        carry == 0,
                        carried == 0,
                ;
            } else {
                lemma_bits_carried(code, up, carried);
                lemma_first_word(codes, k + 1, carry, carried);
                assert(words.subrange(index, index + packed.len())[1] == words[index + 1]);
                lemma_bits_read_across(acc, code, bit, up, carried, words[index + 1]);
            }
            assert(read == code);
            lemma_unpack_packed(words, index + 1, codes, k + 1, carry, carried);
        } else {
            let after = (bit + 9) as u16;
            lemma_bits_filled(acc, code, bit, after);
            lemma_first_word(codes, k + 1, filled, after);
            lemma_bits_read_within(acc, code, bit, after, words[index]);
            assert(read == code);
            lemma_unpack_packed(words, index, codes, k + 1, filled, after);
        }
        assert(codes.subrange(k, codes.len() as int) =~= seq![code] + codes.subrange(
            k + 1,
            codes.len() as int,
        ));
    }
}

/// Packing round-trips: the codes of a trainer name, each below the end
/// mark `0x1FF`, are unpacked again from the marker, the packed words
/// and the message terminator that follows them, whatever comes after.
pub proof fn lemma_pack_round_trip(codes: Seq<u16>, rest: Seq<u16>)
    requires
        forall|i: int| 0 <= i < codes.len() ==> codes[i] <= 0x1FE,
        rest.len() > 0,
        rest[0] == 0xFFFF,
    ensures
        spec_unpack(seq![TRAINER_MARKER] + spec_pack(codes, 0, 0, 0) + rest, 1, 0).codes == codes,
{
    let packed = spec_pack(codes, 0, 0, 0);
    let words = seq![TRAINER_MARKER] + packed + rest;
    assert(0u16 >> 0u16 == 0) by (bit_vector);
    assert(words.subrange(1, 1 + packed.len() as int) =~= packed);
    lemma_unpack_packed(words, 1, codes, 0, 0, 0);
    assert(codes.subrange(0, codes.len() as int) =~= codes);
}

} // verus!
