//! The character classes that names, keys and subjects are checked against.

use vstd::prelude::*;

verus! {

/// An ASCII letter or digit.
pub open spec fn ascii_alphanumeric(ch: char) -> bool {
    ||| '0' <= ch && ch <= '9'
    ||| 'A' <= ch && ch <= 'Z'
    ||| 'a' <= ch && ch <= 'z'
}

/// A control character: Unicode's general category Cc.
pub open spec fn control(ch: char) -> bool {
    ||| ch <= '\u{1f}'
    ||| '\u{7f}' <= ch && ch <= '\u{9f}'
}

/// A character with Unicode's White_Space property.
pub open spec fn white_space(ch: char) -> bool {
    ||| '\u{9}' <= ch && ch <= '\u{d}'
    ||| ch == ' '
    ||| ch == '\u{85}'
    ||| ch == '\u{a0}'
    ||| ch == '\u{1680}'
    ||| '\u{2000}' <= ch && ch <= '\u{200a}'
    ||| ch == '\u{2028}'
    ||| ch == '\u{2029}'
    ||| ch == '\u{202f}'
    ||| ch == '\u{205f}'
    ||| ch == '\u{3000}'
}

/// Whether `ch` is an ASCII letter or digit.
pub fn is_ascii_alphanumeric(ch: char) -> (yes: bool)
    ensures
        yes == ascii_alphanumeric(ch),
{
    ('0' <= ch && ch <= '9') || ('A' <= ch && ch <= 'Z') || ('a' <= ch && ch <= 'z')
}

/// Whether `ch` is a control character.
pub fn is_control(ch: char) -> (yes: bool)
    ensures
        yes == control(ch),
{
    ch <= '\u{1f}' || ('\u{7f}' <= ch && ch <= '\u{9f}')
}

/// Whether `ch` is white space.
pub fn is_white_space(ch: char) -> (yes: bool)
    ensures
        yes == white_space(ch),
{
    ('\u{9}' <= ch && ch <= '\u{d}') || ch == ' ' || ch == '\u{85}' || ch == '\u{a0}' || ch
        == '\u{1680}' || ('\u{2000}' <= ch && ch <= '\u{200a}') || ch == '\u{2028}' || ch
        == '\u{2029}' || ch == '\u{202f}' || ch == '\u{205f}' || ch == '\u{3000}'
}

} // verus!
