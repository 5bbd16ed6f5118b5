//! Characters, numbers and the small pieces of text that the codecs share.
//!
//! The executable functions work on slices of `char`; their contracts are
//! stated over `Seq<char>`, the view of a string.
use vstd::prelude::*;

verus! {

/// `String::push` appends one character.
pub assume_specification[ String::push ](s: &mut String, c: char)
    ensures
        final(s)@ == old(s)@.push(c),
;

/// `String::push_str` appends the characters of `other`.
pub assume_specification[ String::push_str ](s: &mut String, other: &str)
    ensures
        final(s)@ == old(s)@ + other@,
;

/// The characters of a string, in order.
pub fn to_chars(text: &str) -> (chars: Vec<char>)
    ensures
        chars@ == text@,
{
    let mut chars: Vec<char> = Vec::new();
    for c in it: text.chars()
        invariant
            chars@ == it.seq().take(it.index()),
    {
        chars.push(c);
    }
    chars
}

/// The string made of the given characters.
pub fn from_chars(chars: &[char]) -> (text: String)
    ensures
        text@ == chars@,
{
    let mut text = String::new();
    let mut i: usize = 0;
    while i < chars.len()
        invariant
            i <= chars.len(),
            text@ == chars@.take(i as int),
        decreases chars.len() - i,
    {
        text.push(chars[i]);
        i += 1;
    }
    text
}

/// White space as Unicode defines it (the `White_Space` property).
pub open spec fn spec_is_whitespace(c: char) -> bool {
    let v = c as u32;
    ||| 0x09 <= v <= 0x0D
    ||| v == 0x20
    ||| v == 0x85
    ||| v == 0xA0
    ||| v == 0x1680
    ||| 0x2000 <= v <= 0x200A
    ||| v == 0x2028
    ||| v == 0x2029
    ||| v == 0x202F
    ||| v == 0x205F
    ||| v == 0x3000
}

pub fn is_whitespace(c: char) -> (r: bool)
    ensures
        r == spec_is_whitespace(c),
{
    let v: u32 = c as u32;
    (0x09 <= v && v <= 0x0D) || v == 0x20 || v == 0x85 || v == 0xA0 || v == 0x1680 || (0x2000 <= v
        && v <= 0x200A) || v == 0x2028 || v == 0x2029 || v == 0x202F || v == 0x205F || v == 0x3000
}

/// A set of characters that a scan looks for.
#[derive(Clone, Copy, Debug)]
pub enum CharClass {
    /// The one given character.
    Is(char),
    /// White space.
    Space,
    /// Anything but white space.
    NotSpace,
    /// White space or a comma.
    Separator,
    /// Anything but white space and commas.
    NotSeparator,
    /// Anything but the one given character.
    Not(char),
}

pub open spec fn spec_in_class(c: char, class: CharClass) -> bool {
    match class {
        CharClass::Is(wanted) => c == wanted,
        CharClass::Space => spec_is_whitespace(c),
        CharClass::NotSpace => !spec_is_whitespace(c),
        CharClass::Separator => spec_is_whitespace(c) || c == ',',
        CharClass::NotSeparator => !(spec_is_whitespace(c) || c == ','),
        CharClass::Not(unwanted) => c != unwanted,
    }
}

pub fn in_class(c: char, class: CharClass) -> (r: bool)
    ensures
        r == spec_in_class(c, class),
{
    match class {
        CharClass::Is(wanted) => c == wanted,
        CharClass::Space => is_whitespace(c),
        CharClass::NotSpace => !is_whitespace(c),
        CharClass::Separator => is_whitespace(c) || c == ',',
        CharClass::NotSeparator => !(is_whitespace(c) || c == ','),
        CharClass::Not(unwanted) => c != unwanted,
    }
}

/// The first position at or after `from` whose character is in `class`;
/// the length of `s` where there is none.
pub open spec fn spec_first(s: Seq<char>, from: int, class: CharClass) -> int
    decreases s.len() - from,
{
    if from < 0 || from >= s.len() {
        s.len() as int
    } else if spec_in_class(s[from], class) {
        from
    } else {
        spec_first(s, from + 1, class)
    }
}

/// `spec_first` lies between `from` and the length, and no character
/// before it, from `from` on, is in the class.
pub proof fn lemma_first(s: Seq<char>, from: int, class: CharClass)
    requires
        0 <= from <= s.len(),
    ensures
        from <= spec_first(s, from, class) <= s.len(),
        spec_first(s, from, class) < s.len() ==> spec_in_class(
            s[spec_first(s, from, class)],
            class,
        ),
        forall|i: int| from <= i < spec_first(s, from, class) ==> !spec_in_class(s[i], class),
    decreases s.len() - from,
{
    if from < s.len() && !spec_in_class(s[from], class) {
        lemma_first(s, from + 1, class);
    }
}

pub fn first(s: &[char], from: usize, class: CharClass) -> (at: usize)
    requires
        from <= s.len(),
    ensures
        at == spec_first(s@, from as int, class),
        from <= at <= s.len(),
{
    let mut at: usize = from;
    while at < s.len() && !in_class(s[at], class)
        invariant
            from <= at <= s.len(),
            spec_first(s@, from as int, class) == spec_first(s@, at as int, class),
        decreases s.len() - at,
    {
        at += 1;
    }
    at
}

/// The first position at or after `from`, before `to`, that holds no
/// white space; `to` where there is none.
pub open spec fn spec_trim_start(s: Seq<char>, from: int, to: int) -> int
    decreases to - from,
{
    if from < to && spec_is_whitespace(s[from]) {
        spec_trim_start(s, from + 1, to)
    } else {
        from
    }
}

/// The position after the last character of `s[from..to]` that is no
/// white space; `from` where there is none.
pub open spec fn spec_trim_end(s: Seq<char>, from: int, to: int) -> int
    decreases to - from,
{
    if from < to && spec_is_whitespace(s[to - 1]) {
        spec_trim_end(s, from, to - 1)
    } else {
        to
    }
}

/// `s` without the white space at its two ends.
pub open spec fn spec_trim(s: Seq<char>) -> Seq<char> {
    let start = spec_trim_start(s, 0, s.len() as int);
    s.subrange(start, spec_trim_end(s, start, s.len() as int))
}

/// Trimming a part of a sequence can be done in place, on positions.
pub proof fn lemma_trim_subrange(s: Seq<char>, from: int, to: int)
    requires
        0 <= from <= to <= s.len(),
    ensures
        spec_trim_start(s.subrange(from, to), 0, to - from) == spec_trim_start(s, from, to) - from,
        forall|a: int|
            0 <= a <= to - from ==> #[trigger] spec_trim_end(s.subrange(from, to), a, to - from)
                == spec_trim_end(s, from + a, to) - from,
{
    let part = s.subrange(from, to);
    lemma_trim_start_shift(s, from, to, from);
    assert forall|a: int| 0 <= a <= to - from implies #[trigger] spec_trim_end(part, a, to - from)
        == spec_trim_end(s, from + a, to) - from by {
        lemma_trim_end_shift(s, from, to, a, to);
    }
}

proof fn lemma_trim_start_shift(s: Seq<char>, from: int, to: int, at: int)
    requires
        0 <= from <= at <= to <= s.len(),
    ensures
        spec_trim_start(s.subrange(from, to), at - from, to - from) == spec_trim_start(s, at, to)
            - from,
    decreases to - at,
{
    if at < to {
        assert(s.subrange(from, to)[at - from] == s[at]);
        if spec_is_whitespace(s[at]) {
            lemma_trim_start_shift(s, from, to, at + 1);
        }
    }
}

proof fn lemma_trim_end_shift(s: Seq<char>, from: int, to: int, a: int, end: int)
    requires
        0 <= from <= from + a <= end <= to <= s.len(),
    ensures
        spec_trim_end(s.subrange(from, to), a, end - from) == spec_trim_end(s, from + a, end)
            - from,
    decreases end - from - a,
{
    if from + a < end {
        assert(s.subrange(from, to)[end - from - 1] == s[end - 1]);
        if spec_is_whitespace(s[end - 1]) {
            lemma_trim_end_shift(s, from, to, a, end - 1);
        }
    }
}

/// Trims `s[from..to]` and returns the bounds of what is left.
pub fn trim_range(s: &[char], from: usize, to: usize) -> (r: (usize, usize))
    requires
        from <= to <= s.len(),
    ensures
        from <= r.0 <= r.1 <= to,
        s@.subrange(r.0 as int, r.1 as int) == spec_trim(s@.subrange(from as int, to as int)),
{
    let mut start: usize = from;
    while start < to && is_whitespace(s[start])
        invariant
            from <= start <= to <= s.len(),
            spec_trim_start(s@, from as int, to as int) == spec_trim_start(
                s@,
                start as int,
                to as int,
            ),
        decreases to - start,
    {
        start += 1;
    }
    let mut end: usize = to;
    while start < end && is_whitespace(s[end - 1])
        invariant
            start <= end <= to <= s.len(),
            spec_trim_end(s@, start as int, to as int) == spec_trim_end(
                s@,
                start as int,
                end as int,
            ),
        decreases end - start,
    {
        end -= 1;
    }
    proof {
        lemma_trim_subrange(s@, from as int, to as int);
        let part = s@.subrange(from as int, to as int);
        assert(part.subrange(start - from, end - from) =~= s@.subrange(start as int, end as int));
    }
    (start, end)
}

/// The pieces of `s` that the pairs of bounds in `ranges` cut out.
pub open spec fn spec_pieces(s: Seq<char>, ranges: Seq<(usize, usize)>) -> Seq<Seq<char>> {
    Seq::new(ranges.len(), |k: int| s.subrange(ranges[k].0 as int, ranges[k].1 as int))
}

/// Whether each pair of bounds lies in order within `len`.
pub open spec fn spec_ranges_within(ranges: Seq<(usize, usize)>, len: int) -> bool {
    forall|k: int| 0 <= k < ranges.len() ==> (#[trigger] ranges[k]).0 <= ranges[k].1 <= len
}

/// Whether `s` begins with `prefix`.
pub open spec fn spec_starts_with(s: Seq<char>, prefix: Seq<char>) -> bool {
    prefix.len() <= s.len() && s.subrange(0, prefix.len() as int) == prefix
}

pub fn starts_with(s: &[char], prefix: &[char]) -> (r: bool)
    ensures
        r == spec_starts_with(s@, prefix@),
{
    if prefix.len() > s.len() {
        return false;
    }
    let mut i: usize = 0;
    while i < prefix.len()
        invariant
            i <= prefix.len() <= s.len(),
            forall|j: int| 0 <= j < i ==> s[j] == prefix[j],
        decreases prefix.len() - i,
    {
        if s[i] != prefix[i] {
            assert(s@.subrange(0, prefix.len() as int)[i as int] != prefix@[i as int]);
            return false;
        }
        i += 1;
    }
    assert(s@.subrange(0, prefix.len() as int) =~= prefix@);
    true
}

/// The value of a digit in any base up to 36: `0` to `9`, then the
/// letters in either case; `-1` for any other character.
pub open spec fn spec_digit_value(c: char) -> int {
    let v = c as u32;
    if 0x30 <= v <= 0x39 {
        v - 0x30
    } else if 0x41 <= v <= 0x5A {
        v - 0x41 + 10
    } else if 0x61 <= v <= 0x7A {
        v - 0x61 + 10
    } else {
        -1
    }
}

/// Whether every character of `s` is a digit of base `radix`.
pub open spec fn spec_all_digits(s: Seq<char>, radix: int) -> bool {
    forall|i: int| 0 <= i < s.len() ==> 0 <= #[trigger] spec_digit_value(s[i]) < radix
}

/// The number that the digits of `s` write in base `radix`.
pub open spec fn spec_digits_value(s: Seq<char>, radix: int) -> int
    decreases s.len(),
{
    if s.len() == 0 {
        0
    } else {
        spec_digits_value(s.drop_last(), radix) * radix + spec_digit_value(s.last())
    }
}

/// What parsing an unsigned 32-bit number in base `radix` gives: an
/// optional `+`, then at least one digit and nothing else, the value no
/// greater than `u32::MAX`.
pub open spec fn spec_parse_radix(s: Seq<char>, radix: int) -> Option<u32> {
    let digits = if s.len() > 0 && s[0] == '+' {
        s.subrange(1, s.len() as int)
    } else {
        s
    };
    if digits.len() > 0 && spec_all_digits(digits, radix) && spec_digits_value(digits, radix)
        <= u32::MAX {
        Some(spec_digits_value(digits, radix) as u32)
    } else {
        None
    }
}

/// A number with more digits is no smaller: the value of a prefix never
/// passes the value of the whole.
pub proof fn lemma_digits_prefix(s: Seq<char>, radix: int, n: int)
    requires
        1 <= radix,
        spec_all_digits(s, radix),
        0 <= n <= s.len(),
    ensures
        0 <= spec_digits_value(s.take(n), radix) <= spec_digits_value(s, radix),
    decreases s.len() - n,
{
    lemma_digits_nonnegative(s.take(n), radix);
    if n == s.len() {
        assert(s.take(n) =~= s);
    } else {
        lemma_digits_prefix(s, radix, n + 1);
        let longer = s.take(n + 1);
        assert(longer.drop_last() =~= s.take(n));
        assert(longer.last() == s[n]);
        let v = spec_digits_value(s.take(n), radix);
        assert(v <= v * radix) by (nonlinear_arith)
            requires
                0 <= v,
                1 <= radix,
        ;
    }
}

proof fn lemma_digits_nonnegative(s: Seq<char>, radix: int)
    requires
        1 <= radix,
        spec_all_digits(s, radix),
    ensures
        0 <= spec_digits_value(s, radix),
    decreases s.len(),
{
    if s.len() > 0 {
        lemma_digits_nonnegative(s.drop_last(), radix);
        let v = spec_digits_value(s.drop_last(), radix);
        assert(0 <= v * radix) by (nonlinear_arith)
            requires
                0 <= v,
                1 <= radix,
        ;
    }
}

fn digit_value(c: char) -> (d: u32)
    ensures
        spec_digit_value(c) == -1 ==> d == 36,
        spec_digit_value(c) != -1 ==> d == spec_digit_value(c),
        d <= 36,
{
    let v: u32 = c as u32;
    if 0x30 <= v && v <= 0x39 {
        v - 0x30
    } else if 0x41 <= v && v <= 0x5A {
        v - 0x41 + 10
    } else if 0x61 <= v && v <= 0x7A {
        v - 0x61 + 10
    } else {
        36
    }
}

/// Parses an unsigned 32-bit number written in base `radix`.
pub fn parse_radix(s: &[char], radix: u32) -> (r: Option<u32>)
    requires
        2 <= radix <= 36,
    ensures
        r == spec_parse_radix(s@, radix as int),
{
    let start: usize = if s.len() > 0 && s[0] == '+' {
        1
    } else {
        0
    };
    if start == s.len() {
        return None;
    }
    let ghost digits = s@.subrange(start as int, s.len() as int);
    proof {
        if start == 0 {
            assert(digits =~= s@);
        }
    }
    let mut value: u64 = 0;
    let mut i: usize = start;
    while i < s.len()
        invariant
            start <= i <= s.len(),
            digits == s@.subrange(start as int, s.len() as int),
            digits.len() > 0,
            digits == if s@.len() > 0 && s@[0] == '+' {
                s@.subrange(1, s@.len() as int)
            } else {
                s@
            },
            2 <= radix <= 36,
            value <= u32::MAX,
            value == spec_digits_value(digits.take(i - start), radix as int),
            spec_all_digits(digits.take(i - start), radix as int),
        decreases s.len() - i,
    {
        let d = digit_value(s[i]);
        proof {
            assert(digits[i - start] == s[i as int]);
            assert(digits.take(i - start + 1).drop_last() =~= digits.take(i - start));
            assert(digits.take(i - start + 1).last() == s[i as int]);
        }
        if d >= radix {
            assert(!spec_all_digits(digits, radix as int)) by {
                assert(!(0 <= spec_digit_value(digits[i - start]) < radix));
            }
            return None;
        }
        assert(value * radix <= 36 * 0xFFFF_FFFF) by (nonlinear_arith)
            requires
                value <= 0xFFFF_FFFF,
                radix <= 36,
        ;
        let next: u64 = value * (radix as u64) + (d as u64);
        proof {
            let longer = digits.take(i - start + 1);
            assert forall|j: int| 0 <= j < longer.len() implies 0 <= #[trigger] spec_digit_value(
                longer[j],
            ) < radix by {
                if j < i - start {
                    assert(longer[j] == digits.take(i - start)[j]);
                }
            }
        }
        if next > 0xFFFF_FFFF {
            proof {
                if spec_all_digits(digits, radix as int) {
                    lemma_digits_prefix(digits, radix as int, i - start + 1);
                }
            }
            return None;
        }
        value = next;
        i += 1;
    }
    proof {
        assert(digits.take(i - start) =~= digits);
    }
    Some(value as u32)
}

/// The number a command token stands for: hexadecimal after `0x`,
/// decimal otherwise, and `0` for anything that is no such number.
pub open spec fn spec_parse_number(s: Seq<char>) -> u32 {
    if s.len() >= 2 && s[0] == '0' && s[1] == 'x' {
        match spec_parse_radix(s.subrange(2, s.len() as int), 16) {
            Some(v) => v,
            None => 0,
        }
    } else {
        match spec_parse_radix(s, 10) {
            Some(v) => v,
            None => 0,
        }
    }
}

/// The low 16 bits of `spec_parse_number`: the code unit that a token gives.
pub open spec fn spec_parse_code(s: Seq<char>) -> u16 {
    (spec_parse_number(s) % 65536) as u16
}

/// Reads a number written in hexadecimal (after `0x`) or in decimal.
/// Text that is no number reads as `0`.
pub fn parse_hex_or_decimal(number_str: &[char]) -> (number: u32)
    ensures
        number == spec_parse_number(number_str@),
{
    let parsed = if number_str.len() >= 2 && number_str[0] == '0' && number_str[1] == 'x' {
        parse_radix(&number_str[2..number_str.len()], 16)
    } else {
        parse_radix(number_str, 10)
    };
    match parsed {
        Some(v) => v,
        None => 0,
    }
}

/// Reads a number as `parse_hex_or_decimal` does and keeps its low 16 bits.
pub fn parse_code(number_str: &[char]) -> (code: u16)
    ensures
        code == spec_parse_code(number_str@),
{
    (parse_hex_or_decimal(number_str) % 65536) as u16
}

/// The upper-case hexadecimal digit of a value below 16.
pub open spec fn spec_hex_digit(v: int) -> char {
    if v < 10 {
        ((0x30 + v) as u8) as char
    } else {
        ((0x37 + v) as u8) as char
    }
}

/// The decimal digit of a value below 10.
pub open spec fn spec_decimal_digit(v: int) -> char {
    ((0x30 + v) as u8) as char
}

/// A code unit as four upper-case hexadecimal digits.
pub open spec fn spec_hex4(code: u16) -> Seq<char> {
    seq![
        spec_hex_digit(code as int / 4096),
        spec_hex_digit(code as int / 256 % 16),
        spec_hex_digit(code as int / 16 % 16),
        spec_hex_digit(code as int % 16),
    ]
}

/// A natural number in decimal, without leading zeros.
pub open spec fn spec_decimal(n: int) -> Seq<char>
    decreases n,
{
    if n < 10 {
        seq![spec_decimal_digit(n)]
    } else {
        spec_decimal(n / 10).push(spec_decimal_digit(n % 10))
    }
}

/// A number is the value of its decimal digits.
pub proof fn lemma_decimal_value(n: int)
    requires
        0 <= n,
    ensures
        spec_all_digits(spec_decimal(n), 10),
        spec_digits_value(spec_decimal(n), 10) == n,
    decreases n,
{
    let digits = spec_decimal(n);
    if n < 10 {
        assert(digits.drop_last() =~= Seq::<char>::empty());
        assert(spec_digit_value(spec_decimal_digit(n)) == n);
        assert(spec_digits_value(digits.drop_last(), 10) == 0);
    } else {
        lemma_decimal_value(n / 10);
        let head = spec_decimal(n / 10);
        assert(digits.drop_last() =~= head);
        assert(spec_digit_value(spec_decimal_digit(n % 10)) == n % 10);
        assert forall|i: int| 0 <= i < digits.len() implies 0 <= #[trigger] spec_digit_value(
            digits[i],
        ) < 10 by {
            if i < head.len() {
                assert(digits[i] == head[i]);
            }
        }
    }
}

/// Zeros before the digits of a number do not change its value.
pub proof fn lemma_leading_zeros(zeros: nat, digits: Seq<char>, radix: int)
    ensures
        spec_digits_value(Seq::new(zeros, |i: int| '0') + digits, radix) == spec_digits_value(
            digits,
            radix,
        ),
    decreases digits.len(), zeros,
{
    let padding = Seq::new(zeros, |i: int| '0');
    let all = padding + digits;
    if digits.len() > 0 {
        lemma_leading_zeros(zeros, digits.drop_last(), radix);
        assert(all.drop_last() =~= padding + digits.drop_last());
        assert(all.last() == digits.last());
    } else if zeros > 0 {
        let fewer = Seq::new((zeros - 1) as nat, |i: int| '0');
        lemma_leading_zeros((zeros - 1) as nat, digits, radix);
        assert(all.drop_last() =~= fewer + digits);
        assert(all.last() == '0');
        assert(spec_digits_value(fewer + digits, radix) * radix == 0) by (nonlinear_arith)
            requires
                spec_digits_value(fewer + digits, radix) == 0,
        ;
    } else {
        assert(all =~= digits);
    }
}

fn hex_digit(v: u16) -> (c: char)
    requires
        v < 16,
    ensures
        c == spec_hex_digit(v as int),
{
    if v < 10 {
        (0x30u8 + v as u8) as char
    } else {
        (0x37u8 + v as u8) as char
    }
}

/// Appends a code unit as four upper-case hexadecimal digits.
pub fn push_hex4(out: &mut String, code: u16)
    ensures
        final(out)@ == old(out)@ + spec_hex4(code),
{
    out.push(hex_digit(code / 4096));
    out.push(hex_digit(code / 256 % 16));
    out.push(hex_digit(code / 16 % 16));
    out.push(hex_digit(code % 16));
    assert(out@ =~= old(out)@ + spec_hex4(code));
}

/// Appends a number in decimal.
pub fn push_decimal(out: &mut String, n: u64)
    ensures
        final(out)@ == old(out)@ + spec_decimal(n as int),
    decreases n,
{
    if n >= 10 {
        push_decimal(out, n / 10);
    }
    out.push((0x30u8 + (n % 10) as u8) as char);
    assert(out@ =~= old(out)@ + spec_decimal(n as int));
}

} // verus!
