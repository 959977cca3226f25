//! Numbers as text: decimal and hexadecimal digits.

use vstd::prelude::*;

use crate::text::{chars_of, concat2, Text};

verus! {

/// Whether `ch` is a decimal digit.
pub open spec fn decimal_digit(ch: char) -> bool {
    '0' <= ch && ch <= '9'
}

/// The decimal digits of `value`, without leading zeros.
pub open spec fn decimal(value: nat) -> Text
    decreases value,
{
    let digit = ('0' as int + value % 10) as char;
    if value < 10 {
        seq![digit]
    } else {
        decimal(value / 10).push(digit)
    }
}

/// The decimal digits of a number, after a minus sign where it is negative.
pub open spec fn signed_decimal(value: int) -> Text {
    if value < 0 {
        "-"@ + decimal((-value) as nat)
    } else {
        decimal(value as nat)
    }
}

/// The number that a row of decimal digits stands for.
pub open spec fn digits_value(digits: Text) -> nat
    decreases digits.len(),
{
    if digits.len() == 0 {
        0
    } else {
        digits_value(digits.drop_last()) * 10 + (digits.last() as nat - '0' as nat) as nat
    }
}

/// The digits of a number as it may be written: an optional plus sign comes first.
pub open spec fn after_sign(text: Text) -> Text {
    if text.len() > 0 && text[0] == '+' {
        text.drop_first()
    } else {
        text
    }
}

/// The number below 2^64 that `text` writes in decimal, if it writes one.
pub open spec fn parse_number(text: Text) -> Option<u64> {
    let digits = after_sign(text);
    if digits.len() > 0 && (forall|i: int| 0 <= i < digits.len() ==> decimal_digit(#[trigger] digits[i]))
        && digits_value(digits) <= u64::MAX {
        Some(digits_value(digits) as u64)
    } else {
        None
    }
}

/// The lower-case hexadecimal digit of a value below 16.
pub open spec fn hex_digit(value: int) -> char {
    if value < 10 {
        ('0' as int + value) as char
    } else {
        ('a' as int + (value - 10)) as char
    }
}

/// `width` hexadecimal digits, the highest first, of the low end of `value`.
pub open spec fn hex_digits(value: nat, width: nat) -> Text
    decreases width,
{
    if width == 0 {
        Seq::empty()
    } else {
        hex_digits(value / 16, (width - 1) as nat).push(hex_digit((value % 16) as int))
    }
}

/// A longer row of digits stands for no smaller number.
proof fn lemma_digits_grow(digits: Text, upto: int)
    requires
        0 <= upto <= digits.len(),
    ensures
        digits_value(digits.take(upto)) <= digits_value(digits),
    decreases digits.len(),
{
    if upto == digits.len() {
        assert(digits.take(upto) =~= digits);
    } else {
        assert(digits.drop_last().take(upto) =~= digits.take(upto));
        lemma_digits_grow(digits.drop_last(), upto);
    }
}

/// Writing a number in decimal gives digits that stand for that number.
pub proof fn lemma_decimal_value(value: nat)
    ensures
        decimal(value).len() > 0,
        forall|i: int| 0 <= i < decimal(value).len() ==> decimal_digit(#[trigger] decimal(value)[i]),
        digits_value(decimal(value)) == value,
    decreases value,
{
    let digit = ('0' as int + value % 10) as char;
    if value < 10 {
        assert(seq![digit].drop_last() =~= Seq::<char>::empty());
        assert(digits_value(seq![digit].drop_last()) == 0);
    } else {
        lemma_decimal_value(value / 10);
        assert(decimal(value / 10).push(digit).drop_last() =~= decimal(value / 10));
    }
}

/// A number that is written in decimal and read again is the same number.
pub proof fn law_number_round_trip(value: u64)
    ensures
        parse_number(decimal(value as nat)) == Some(value),
{
    lemma_decimal_value(value as nat);
    assert(decimal_digit(decimal(value as nat)[0]));
}

/// The decimal digits of `value`.
pub fn decimal_text(value: u128) -> (text: String)
    ensures
        text@ == decimal(value as nat),
    decreases value,
{
    let digit: u8 = (value % 10) as u8;
    let ch = (48u8 + digit) as char;
    if value < 10 {
        let mut text = String::new();
        text.push(ch);
        assert(text@ =~= seq![ch]);
        text
    } else {
        let mut text = decimal_text(value / 10);
        text.push(ch);
        text
    }
}

/// The decimal digits of `value`, after a minus sign where it is negative.
pub fn signed_text(value: i32) -> (text: String)
    ensures
        text@ == signed_decimal(value as int),
{
    if value < 0 {
        let digits = decimal_text((-(value as i64)) as u128);
        concat2("-", digits.as_str())
    } else {
        decimal_text(value as u128)
    }
}

/// Reads a decimal number below 2^64; a plus sign may come first.
pub fn read_number(text: &str) -> (value: Option<u64>)
    ensures
        value == parse_number(text@),
{
    let chars = chars_of(text);
    let mut i: usize = 0;
    if chars.len() > 0 && chars[0] == '+' {
        i = 1;
    }
    let start: usize = i;
    let ghost digits = after_sign(text@);
    assert(digits =~= text@.skip(start as int));
    if i == chars.len() {
        return None;
    }
    let mut value: u64 = 0;
    assert(digits.take(0) =~= Seq::empty());
    while i < chars.len()
        invariant
            start <= i <= chars.len(),
            start < chars.len(),
            chars@ == text@,
            digits == after_sign(text@),
            digits =~= text@.skip(start as int),
            value == digits_value(digits.take(i - start)),
            forall|k: int| 0 <= k < i - start ==> decimal_digit(#[trigger] digits[k]),
        decreases chars.len() - i,
    {
        let ch = chars[i];
        assert(digits[i - start] == ch);
        if !('0' <= ch && ch <= '9') {
            return None;
        }
        let digit: u64 = ch as u64 - 48;
        proof {
            let upto = digits.take(i - start + 1);
            assert(upto.drop_last() =~= digits.take(i - start));
            assert(upto.last() == ch);
            lemma_digits_grow(digits, i - start + 1);
        }
        if value > (u64::MAX - digit) / 10 {
            return None;
        }
        value = value * 10 + digit;
        i += 1;
    }
    assert(digits.take(digits.len() as int) =~= digits);
    Some(value)
}

/// The lower-case hexadecimal digit of a value below 16.
pub fn hex_char(value: u8) -> (ch: char)
    requires
        value < 16,
    ensures
        ch == hex_digit(value as int),
{
    if value < 10 {
        (48u8 + value) as char
    } else {
        (97u8 + (value - 10)) as char
    }
}

/// Sixteen hexadecimal digits, the highest first.
pub fn hex16_text(value: u64) -> (text: String)
    ensures
        text@ == hex_digits(value as nat, 16),
{
    hex_text(value, 16)
}

fn hex_text(value: u64, width: u8) -> (text: String)
    ensures
        text@ == hex_digits(value as nat, width as nat),
    decreases width,
{
    if width == 0 {
        String::new()
    } else {
        let mut text = hex_text(value / 16, width - 1);
        text.push(hex_char((value % 16) as u8));
        text
    }
}

} // verus!
