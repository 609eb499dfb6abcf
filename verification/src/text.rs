//! Numbers and bytes written as text: hexadecimal and decimal digits, the
//! pairs of digits of a search, and the address of a seek.
use vstd::prelude::*;
use vstd::string::StrSliceExecFns;

verus! {

/// The value of a digit in base `radix`, for a radix of 10 or 16.
pub open spec fn digit_value(c: char, radix: int) -> Option<int> {
    if '0' <= c <= '9' {
        Some(c as int - '0' as int)
    } else if radix == 16 && 'a' <= c <= 'f' {
        Some(c as int - 'a' as int + 10)
    } else if radix == 16 && 'A' <= c <= 'F' {
        Some(c as int - 'A' as int + 10)
    } else {
        None
    }
}

/// Every character of `text` is a digit in base `radix`.
pub open spec fn all_digits(text: Seq<char>, radix: int) -> bool {
    forall|i: int| 0 <= i < text.len() ==> digit_value(#[trigger] text[i], radix) is Some
}

/// The number that the digits of `text` write in base `radix`.
pub open spec fn number_of(text: Seq<char>, radix: int) -> int
    decreases text.len(),
{
    if text.len() == 0 {
        0
    } else {
        number_of(text.drop_last(), radix) * radix + match digit_value(text.last(), radix) {
            Some(d) => d,
            None => 0,
        }
    }
}

/// What a text of digits in base `radix` stands for: its number, if it has
/// at least one character, holds digits alone and the number fits 64 bits.
pub open spec fn parsed_number(text: Seq<char>, radix: int) -> Option<u64> {
    if text.len() > 0 && all_digits(text, radix) && number_of(text, radix) <= u64::MAX {
        Some(number_of(text, radix) as u64)
    } else {
        None
    }
}

/// A number never shrinks when a digit is written behind it.
pub proof fn lemma_number_grows(text: Seq<char>, radix: int, shorter: int)
    requires
        radix == 10 || radix == 16,
        0 <= shorter <= text.len(),
    ensures
        0 <= number_of(text.take(shorter), radix) <= number_of(text, radix),
    decreases text.len() - shorter,
{
    if shorter < text.len() {
        lemma_number_grows(text, radix, shorter + 1);
        let longer = text.take(shorter + 1);
        assert(longer.drop_last() =~= text.take(shorter));
        lemma_number_not_negative(text.take(shorter), radix);
        let head = number_of(text.take(shorter), radix);
        let last = match digit_value(longer.last(), radix) {
            Some(d) => d,
            None => 0,
        };
        assert(head <= head * radix + last) by (nonlinear_arith)
            requires
                0 <= head,
                radix >= 10,
                0 <= last,
        ;
    } else {
        assert(text.take(shorter) =~= text);
        lemma_number_not_negative(text, radix);
    }
}

/// A number written in digits is not negative.
pub proof fn lemma_number_not_negative(text: Seq<char>, radix: int)
    requires
        radix == 10 || radix == 16,
    ensures
        0 <= number_of(text, radix),
    decreases text.len(),
{
    if text.len() > 0 {
        lemma_number_not_negative(text.drop_last(), radix);
        assert(0 <= number_of(text.drop_last(), radix) * radix) by (nonlinear_arith)
            requires
                0 <= number_of(text.drop_last(), radix),
                radix >= 10,
        ;
    }
}

/// The value of a character as a digit in base 10 or 16.
fn digit(c: char, radix: u8) -> (r: Option<u8>)
    requires
        radix == 10 || radix == 16,
    ensures
        r is Some <==> digit_value(c, radix as int) is Some,
        r matches Some(d) ==> d == digit_value(c, radix as int)->0 && d < radix,
{
    let code = c as u32;
    if '0' as u32 <= code && code <= '9' as u32 {
        Some((code - '0' as u32) as u8)
    } else if radix == 16 && 'a' as u32 <= code && code <= 'f' as u32 {
        Some((code - 'a' as u32 + 10) as u8)
    } else if radix == 16 && 'A' as u32 <= code && code <= 'F' as u32 {
        Some((code - 'A' as u32 + 10) as u8)
    } else {
        None
    }
}

/// Reads the characters of `text` from `from` to `to` as a number in base
/// 10 or 16.
fn parse_number(text: &str, from: usize, to: usize, radix: u8) -> (r: Option<u64>)
    requires
        radix == 10 || radix == 16,
        from <= to <= text@.len(),
    ensures
        r == parsed_number(text@.subrange(from as int, to as int), radix as int),
{
    let ghost digits = text@.subrange(from as int, to as int);
    if from == to {
        return None;
    }
    let mut value: u64 = 0;
    let mut i: usize = from;
    while i < to
        invariant
            radix == 10 || radix == 16,
            from <= i <= to <= text@.len(),
            digits == text@.subrange(from as int, to as int),
            all_digits(digits.take(i - from), radix as int),
            value == number_of(digits.take(i - from), radix as int),
        decreases to - i,
    {
        let ghost head = digits.take(i - from + 1);
        proof {
            assert(head.drop_last() =~= digits.take(i - from));
            assert(head.last() == text@[i as int]);
            lemma_number_grows(digits, radix as int, i - from + 1);
        }
        let d = match digit(text.get_char(i), radix) {
            Some(d) => d,
            None => {
                assert(digit_value(digits[i - from], radix as int) is None);
                return None;
            },
        };
        if value > (u64::MAX - d as u64) / (radix as u64) {
            proof {
                assert(value * radix + d > u64::MAX) by (nonlinear_arith)
                    requires
                        value > (u64::MAX - d) / (radix as int),
                        radix == 10 || radix == 16,
                        0 <= d,
                ;
            }
            return None;
        }
        assert(value * radix + d <= u64::MAX) by (nonlinear_arith)
            requires
                value <= (u64::MAX - d) / (radix as int),
                radix == 10 || radix == 16,
                0 <= d,
                0 <= value,
        ;
        value = value * (radix as u64) + d as u64;
        i = i + 1;
        proof {
            assert forall|j: int| 0 <= j < head.len() implies digit_value(
                #[trigger] head[j],
                radix as int,
            ) is Some by {
                if j < head.len() - 1 {
                    assert(digits.take(i - from - 1)[j] == head[j]);
                }
            }
        }
    }
    assert(digits.take(to - from) =~= digits);
    Some(value)
}

/// What a text stands for as a number in base `radix`, with or without a
/// `+` in front of its digits.
pub open spec fn signed_number(text: Seq<char>, radix: int) -> Option<u64> {
    if text.len() > 0 && text[0] == '+' {
        parsed_number(text.skip(1), radix)
    } else {
        parsed_number(text, radix)
    }
}

/// Where the text begins once every `0x` in front of it is left out.
pub open spec fn start_without_0x(text: Seq<char>, from: int) -> int
    decreases text.len() - from,
{
    if 0 <= from && from + 2 <= text.len() && text[from] == '0' && text[from + 1] == 'x' {
        start_without_0x(text, from + 2)
    } else {
        from
    }
}

/// The address a seek names: the text read as a decimal number or, where it
/// is none, as a hexadecimal number with or without `0x` in front.
pub open spec fn seek_of(input: Seq<char>) -> Option<u64> {
    match signed_number(input, 10) {
        Some(value) => Some(value),
        None => signed_number(input.skip(start_without_0x(input, 0)), 16),
    }
}

/// Reads the characters of `text` from `from` on as a number in base 10 or
/// 16, with or without a `+` in front.
fn parse_signed(text: &str, from: usize, radix: u8) -> (r: Option<u64>)
    requires
        radix == 10 || radix == 16,
        from <= text@.len(),
    ensures
        r == signed_number(text@.skip(from as int), radix as int),
{
    let length = text.unicode_len();
    let ghost rest = text@.skip(from as int);
    proof {
        assert(rest =~= text@.subrange(from as int, length as int));
    }
    if from < length && text.get_char(from) == '+' {
        proof {
            assert(rest.skip(1) =~= text@.subrange(from + 1, length as int));
        }
        parse_number(text, from + 1, length, radix)
    } else {
        parse_number(text, from, length, radix)
    }
}

/// Reads the address of a seek: a decimal number, or a hexadecimal number
/// with or without `0x` in front.
pub fn parse_seek(input: &str) -> (r: Option<u64>)
    ensures
        r == seek_of(input@),
{
    proof {
        assert(input@.skip(0) =~= input@);
    }
    match parse_signed(input, 0, 10) {
        Some(value) => Some(value),
        None => {
            let length = input.unicode_len();
            let mut from: usize = 0;
            while from < length && length - from >= 2 && input.get_char(from) == '0'
                && input.get_char(from + 1) == 'x'
                invariant
                    from <= length == input@.len(),
                    start_without_0x(input@, 0) == start_without_0x(input@, from as int),
                decreases length - from,
            {
                from = from + 2;
            }
            parse_signed(input, from, 16)
        },
    }
}

/// The text is made of pairs of hexadecimal digits.
pub open spec fn hex_pairs(text: Seq<char>) -> bool {
    text.len() % 2 == 0 && all_digits(text, 16)
}

/// The bytes that pairs of hexadecimal digits write.
pub open spec fn bytes_of_pairs(text: Seq<char>) -> Seq<u8> {
    Seq::new(
        text.len() / 2,
        |i: int| (16 * digit_value(text[2 * i], 16)->0 + digit_value(text[2 * i + 1], 16)->0) as u8,
    )
}

/// Whether the text is made of pairs of hexadecimal digits.
pub fn is_hex_pairs(text: &str) -> (b: bool)
    ensures
        b == hex_pairs(text@),
{
    let length = text.unicode_len();
    if length % 2 != 0 {
        return false;
    }
    let mut i: usize = 0;
    while i < length
        invariant
            i <= length == text@.len(),
            forall|j: int| 0 <= j < i ==> digit_value(#[trigger] text@[j], 16) is Some,
        decreases length - i,
    {
        if digit(text.get_char(i), 16).is_none() {
            return false;
        }
        i = i + 1;
    }
    true
}

/// Turns pairs of hexadecimal digits into the bytes they write.
pub fn convert_hexstring_to_vec(hex_string: &str) -> (bytes: Vec<u8>)
    requires
        hex_pairs(hex_string@),
    ensures
        bytes@ == bytes_of_pairs(hex_string@),
{
    let mut bytes: Vec<u8> = Vec::new();
    let length = hex_string.unicode_len();
    let mut i: usize = 0;
    while i < length
        invariant
            i <= length == hex_string@.len(),
            i % 2 == 0,
            hex_pairs(hex_string@),
            bytes@.len() == i / 2,
            forall|j: int|
                0 <= j < bytes@.len() ==> #[trigger] bytes@[j] == bytes_of_pairs(hex_string@)[j],
        decreases length - i,
    {
        let high = match digit(hex_string.get_char(i), 16) {
            Some(d) => d,
            None => unreached(),
        };
        let low = match digit(hex_string.get_char(i + 1), 16) {
            Some(d) => d,
            None => unreached(),
        };
        bytes.push(16 * high + low);
        i = i + 2;
    }
    assert(bytes@ =~= bytes_of_pairs(hex_string@));
    bytes
}

/// Where the digits in base 16 at the end of the text begin.
pub open spec fn hex_tail_start(text: Seq<char>) -> int
    decreases text.len(),
{
    if text.len() > 0 && digit_value(text.last(), 16) is Some {
        hex_tail_start(text.drop_last())
    } else {
        text.len() as int
    }
}

/// The address that a command ends with: the number written by the
/// hexadecimal digits behind its last `x` or `X`.
pub open spec fn address_of(command: Seq<char>) -> Option<u64> {
    let start = hex_tail_start(command);
    if start >= 1 && (command[start - 1] == 'x' || command[start - 1] == 'X') {
        parsed_number(command.subrange(start, command.len() as int), 16)
    } else {
        None
    }
}

/// Reads the address that a command ends with.
pub fn address_of_command(command: &str) -> (r: Option<u64>)
    ensures
        r == address_of(command@),
{
    let length = command.unicode_len();
    let mut start: usize = length;
    proof {
        assert(command@.take(length as int) =~= command@);
    }
    while start > 0 && digit(command.get_char(start - 1), 16).is_some()
        invariant
            start <= length == command@.len(),
            hex_tail_start(command@) == hex_tail_start(command@.take(start as int)),
        decreases start,
    {
        proof {
            let head = command@.take(start as int);
            assert(head.last() == command@[start - 1]);
            assert(head.drop_last() =~= command@.take(start - 1));
        }
        start = start - 1;
    }
    proof {
        let head = command@.take(start as int);
        if start > 0 {
            assert(head.last() == command@[start - 1]);
        }
    }
    if start >= 1 && (command.get_char(start - 1) == 'x' || command.get_char(start - 1) == 'X') {
        parse_number(command, start, length, 16)
    } else {
        None
    }
}

/// Whether two texts hold the same characters.
pub fn same_text(left: &str, right: &str) -> (b: bool)
    ensures
        b == (left@ == right@),
{
    let length = left.unicode_len();
    if length != right.unicode_len() {
        return false;
    }
    let mut i: usize = 0;
    while i < length
        invariant
            i <= length == left@.len() == right@.len(),
            forall|j: int| 0 <= j < i ==> left@[j] == right@[j],
        decreases length - i,
    {
        if left.get_char(i) != right.get_char(i) {
            return false;
        }
        i = i + 1;
    }
    assert(left@ =~= right@);
    true
}

} // verus!
