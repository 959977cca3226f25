//! The file names under `streams/<stream>/subjects/`. A subject that is safe as a
//! file name stands there as it is; any other is written in hexadecimal.

use vstd::prelude::*;
use vstd::utf8::{encode_utf8, valid_utf8, decode_utf8};

use crate::chars::{ascii_alphanumeric, is_ascii_alphanumeric};
use crate::encoding::read_utf8;
use crate::errors::{outcome, EventFsError};
use crate::numbers::{hex_char, hex_digit};
use crate::path::StreamSubject;
use crate::text::{
    begins_with, chars_of, concat2, concat3, finishes_with, has_double_dot, holds_double_dot,
    strip_prefix, strip_suffix, without_prefix, without_suffix, Text,
};

verus! {

/// What the name of a subject in hexadecimal begins with.
pub const ENCODED_SUBJECT_PREFIX: &'static str = "__eventfs_subject_hex_";

/// What every subject file name ends with.
pub const JSONL_SUFFIX: &'static str = ".jsonl";

/// Whether a subject can stand in a file name as it is.
pub open spec fn plain_stem(subject: Text) -> bool {
    &&& !ENCODED_SUBJECT_PREFIX@.is_prefix_of(subject)
    &&& subject.len() > 0
    &&& subject[0] != '.'
    &&& subject.last() != '.'
    &&& !has_double_dot(subject)
    &&& forall|i: int| 0 <= i < subject.len() ==> plain_char(#[trigger] subject[i])
}

/// A character that may stand in a file name as it is.
pub open spec fn plain_char(ch: char) -> bool {
    ascii_alphanumeric(ch) || ch == '_' || ch == '-' || ch == '.'
}

/// Two hexadecimal digits for each byte.
pub open spec fn hex_of(bytes: Seq<u8>) -> Text
    decreases bytes.len(),
{
    if bytes.len() == 0 {
        Seq::empty()
    } else {
        let byte = bytes.last() as int;
        hex_of(bytes.drop_last()).push(hex_digit(byte / 16)).push(hex_digit(byte % 16))
    }
}

/// The value of a hexadecimal digit of either case.
pub open spec fn hex_value_of(ch: char) -> Option<u8> {
    if '0' <= ch && ch <= '9' {
        Some((ch as u8 - '0' as u8) as u8)
    } else if 'a' <= ch && ch <= 'f' {
        Some((ch as u8 - 'a' as u8 + 10) as u8)
    } else if 'A' <= ch && ch <= 'F' {
        Some((ch as u8 - 'A' as u8 + 10) as u8)
    } else {
        None
    }
}

/// The byte that a pair of hexadecimal digits stands for.
pub open spec fn hex_byte(high: char, low: char) -> u8 {
    (hex_value_of(high).unwrap() * 16 + hex_value_of(low).unwrap()) as u8
}

/// The bytes that pairs of hexadecimal digits stand for; there must be at least
/// one pair.
pub open spec fn bytes_of_hex(text: Text) -> Option<Seq<u8>> {
    if text.len() > 0 && text.len() % 2 == 0 && (forall|i: int|
        0 <= i < text.len() ==> hex_value_of(#[trigger] text[i]) is Some) {
        Some(Seq::new(text.len() / 2, |i: int| hex_byte(text[2 * i], text[2 * i + 1])))
    } else {
        None
    }
}

/// The file name of a subject.
pub open spec fn subject_file_name(subject: Text) -> Text {
    if plain_stem(subject) {
        subject + JSONL_SUFFIX@
    } else {
        ENCODED_SUBJECT_PREFIX@ + hex_of(encode_utf8(subject)) + JSONL_SUFFIX@
    }
}

/// The subject that a file name stands for, before the subject itself is checked.
pub open spec fn subject_of_file_name(name: Text) -> Result<Text, EventFsError<Text>> {
    match strip_suffix(name, JSONL_SUFFIX@) {
        None => Err(EventFsError::bad_path("stream subject files must end in .jsonl"@)),
        Some(stem) => match strip_prefix(stem, ENCODED_SUBJECT_PREFIX@) {
            Some(hex) => match bytes_of_hex(hex) {
                Some(bytes) if valid_utf8(bytes) => Ok(decode_utf8(bytes)),
                _ => Err(EventFsError::bad_path("invalid encoded subject"@)),
            },
            None => if plain_stem(stem) {
                Ok(stem)
            } else {
                Err(EventFsError::bad_path("invalid stream subject file name"@))
            },
        },
    }
}

proof fn lemma_hex_digit_value(value: int)
    requires
        0 <= value < 16,
    ensures
        hex_value_of(hex_digit(value)) == Some(value as u8),
{
}

/// Reading hexadecimal digits gives back the bytes that were written in them.
proof fn lemma_hex_round_trip(bytes: Seq<u8>)
    ensures
        hex_of(bytes).len() == 2 * bytes.len(),
        forall|i: int| 0 <= i < hex_of(bytes).len() ==> hex_value_of(#[trigger] hex_of(bytes)[i]) is Some,
        forall|i: int|
            0 <= i < bytes.len() ==> hex_byte(hex_of(bytes)[2 * i], hex_of(bytes)[2 * i + 1])
                == #[trigger] bytes[i],
    decreases bytes.len(),
{
    if bytes.len() > 0 {
        let front = bytes.drop_last();
        lemma_hex_round_trip(front);
        let byte = bytes.last() as int;
        lemma_hex_digit_value(byte / 16);
        lemma_hex_digit_value(byte % 16);
        assert forall|i: int| 0 <= i < bytes.len() implies hex_byte(
            hex_of(bytes)[2 * i],
            hex_of(bytes)[2 * i + 1],
        ) == #[trigger] bytes[i] by {
            if i < front.len() {
                assert(front[i] == bytes[i]);
                assert(hex_of(bytes)[2 * i] == hex_of(front)[2 * i]);
                assert(hex_of(bytes)[2 * i + 1] == hex_of(front)[2 * i + 1]);
            }
        }
    }
}

/// Hexadecimal digits stand for the bytes that were written in them. No digits stand for
/// no bytes: those are not read.
pub proof fn law_hex_round_trip(bytes: Seq<u8>)
    requires
        bytes.len() > 0,
    ensures
        bytes_of_hex(hex_of(bytes)) == Some(bytes),
{
    lemma_hex_round_trip(bytes);
    assert(bytes_of_hex(hex_of(bytes)).unwrap() =~= bytes);
}

/// The encoding of a text that is not empty is not empty, and decodes to the text.
proof fn lemma_encoded_text(text: Text)
    requires
        text.len() > 0,
    ensures
        encode_utf8(text).len() > 0,
        valid_utf8(encode_utf8(text)),
        decode_utf8(encode_utf8(text)) == text,
{
    vstd::utf8::encode_utf8_valid_utf8(text);
    vstd::utf8::encode_utf8_decode_utf8(text);
    vstd::utf8::encode_utf8_first_scalar(text);
}

/// What an encoded file name stands for is what its digits decode to.
proof fn lemma_encoded_name(bytes: Seq<u8>)
    requires
        bytes.len() > 0,
        valid_utf8(bytes),
    ensures
        subject_of_file_name(ENCODED_SUBJECT_PREFIX@ + hex_of(bytes) + JSONL_SUFFIX@) == Ok::<
            Text,
            EventFsError<Text>,
        >(decode_utf8(bytes)),
{
    let hex = hex_of(bytes);
    let stem = ENCODED_SUBJECT_PREFIX@ + hex;
    let name = stem + JSONL_SUFFIX@;
    law_hex_round_trip(bytes);
    assert(name.subrange(name.len() - JSONL_SUFFIX@.len(), name.len() as int) =~= JSONL_SUFFIX@);
    assert(name.take(name.len() - JSONL_SUFFIX@.len()) =~= stem);
    assert(stem.subrange(0, ENCODED_SUBJECT_PREFIX@.len() as int) =~= ENCODED_SUBJECT_PREFIX@);
    assert(stem.skip(ENCODED_SUBJECT_PREFIX@.len() as int) =~= hex);
}

/// The name of a subject's file stands for that subject. The empty subject is left
/// out: no file name stands for it.
pub proof fn law_subject_file_name_round_trip(subject: Text)
    requires
        subject.len() > 0,
    ensures
        subject_of_file_name(subject_file_name(subject)) == Ok::<Text, EventFsError<Text>>(subject),
{
    let name = subject_file_name(subject);
    if plain_stem(subject) {
        assert(name.subrange(name.len() - JSONL_SUFFIX@.len(), name.len() as int) =~= JSONL_SUFFIX@);
        assert(name.take(name.len() - JSONL_SUFFIX@.len()) =~= subject);
    } else {
        lemma_encoded_text(subject);
        lemma_encoded_name(encode_utf8(subject));
    }
}

/// A file name that is not an encoded one is the file name of the subject that it stands
/// for. An encoded one need not be: its digits may be capitals, and what they encode may
/// have a plain name.
pub proof fn law_plain_file_names_are_given_back(name: Text)
    requires
        strip_suffix(name, JSONL_SUFFIX@) matches Some(stem) && strip_prefix(
            stem,
            ENCODED_SUBJECT_PREFIX@,
        ) is None,
    ensures
        subject_of_file_name(name) matches Ok(subject) ==> subject_file_name(subject) == name,
{
    let stem = strip_suffix(name, JSONL_SUFFIX@).unwrap();
    assert(stem + JSONL_SUFFIX@ =~= name);
}

/// A subject's file name holds only plain characters, and more than two of them.
pub proof fn lemma_subject_file_name_chars(subject: Text)
    ensures
        subject_file_name(subject).len() > 2,
        forall|i: int|
            0 <= i < subject_file_name(subject).len() ==> plain_char(
                #[trigger] subject_file_name(subject)[i],
            ),
{
    let name = subject_file_name(subject);
    reveal_strlit(".jsonl");
    reveal_strlit("__eventfs_subject_hex_");
    if !plain_stem(subject) {
        let bytes = encode_utf8(subject);
        let hex = hex_of(bytes);
        lemma_hex_round_trip(bytes);
        assert forall|i: int| 0 <= i < name.len() implies plain_char(#[trigger] name[i]) by {
            let start = ENCODED_SUBJECT_PREFIX@.len() as int;
            if start <= i < start + hex.len() {
                assert(hex_value_of(hex[i - start]) is Some);
            }
        }
    }
}

/// No subject belongs to the file name of the empty subject.
proof fn lemma_empty_subject_file_name()
    ensures
        subject_of_file_name(subject_file_name(Seq::empty())) == Err::<Text, EventFsError<Text>>(
            EventFsError::bad_path("invalid encoded subject"@),
        ),
{
    let name = subject_file_name(Seq::empty());
    let bytes = encode_utf8(Seq::empty());
    assert(bytes.len() == 0);
    lemma_hex_round_trip(bytes);
    assert(name =~= ENCODED_SUBJECT_PREFIX@ + JSONL_SUFFIX@);
    assert(name.subrange(name.len() - JSONL_SUFFIX@.len(), name.len() as int) =~= JSONL_SUFFIX@);
    assert(name.take(name.len() - JSONL_SUFFIX@.len()) =~= ENCODED_SUBJECT_PREFIX@);
    assert(ENCODED_SUBJECT_PREFIX@.subrange(0, ENCODED_SUBJECT_PREFIX@.len() as int)
        =~= ENCODED_SUBJECT_PREFIX@);
    assert(ENCODED_SUBJECT_PREFIX@.skip(ENCODED_SUBJECT_PREFIX@.len() as int) =~= hex_of(bytes));
}

/// Where the file name of a text stands for a subject, that subject is the text.
pub proof fn law_subject_file_name_stands_for_no_other(text: Text)
    ensures
        subject_of_file_name(subject_file_name(text)) == if text.len() > 0 {
            Ok::<Text, EventFsError<Text>>(text)
        } else {
            Err(EventFsError::bad_path("invalid encoded subject"@))
        },
{
    if text.len() > 0 {
        law_subject_file_name_round_trip(text);
    } else {
        assert(text =~= Seq::empty());
        lemma_empty_subject_file_name();
    }
}

/// Different subjects of one stream have different files.
pub proof fn law_subject_file_names_differ(left: Text, right: Text)
    requires
        left != right,
    ensures
        subject_file_name(left) != subject_file_name(right),
{
    law_subject_file_name_stands_for_no_other(left);
    law_subject_file_name_stands_for_no_other(right);
    if left.len() == 0 && right.len() == 0 {
        assert(left =~= right);
    }
}

/// The file name of a subject.
pub fn stream_subject_file_name(subject: &StreamSubject) -> (name: String)
    ensures
        name@ == subject_file_name(subject@.0),
{
    stream_subject_file_name_from_str(subject.as_str())
}

/// The file name of the subject that `subject` holds.
pub fn stream_subject_file_name_from_str(subject: &str) -> (name: String)
    ensures
        name@ == subject_file_name(subject@),
{
    if is_plain_subject_file_stem(subject) {
        concat2(subject, JSONL_SUFFIX)
    } else {
        let hex = hex_encode(subject.as_bytes());
        concat3(ENCODED_SUBJECT_PREFIX, hex.as_str(), JSONL_SUFFIX)
    }
}

/// The subject that a file name stands for, before the subject itself is checked.
pub fn parse_stream_subject_file_name(name: &str) -> (subject: Result<String, EventFsError>)
    ensures
        outcome(subject) == subject_of_file_name(name@),
{
    let stem = match without_suffix(name, JSONL_SUFFIX) {
        Some(stem) => stem,
        None => {
            return Err(EventFsError::invalid_path("stream subject files must end in .jsonl"));
        },
    };
    match without_prefix(stem, ENCODED_SUBJECT_PREFIX) {
        Some(hex) => {
            let bytes = match hex_decode(hex) {
                Some(bytes) => bytes,
                None => {
                    return Err(EventFsError::invalid_path("invalid encoded subject"));
                },
            };
            match read_utf8(bytes.as_slice()) {
                Ok(subject) => Ok(subject),
                Err(_) => Err(EventFsError::invalid_path("invalid encoded subject")),
            }
        },
        None => {
            if !is_plain_subject_file_stem(stem) {
                return Err(EventFsError::invalid_path("invalid stream subject file name"));
            }
            Ok(stem.to_owned())
        },
    }
}

/// Whether a subject can stand in a file name as it is.
pub fn is_plain_subject_file_stem(subject: &str) -> (plain: bool)
    ensures
        plain == plain_stem(subject@),
{
    if without_prefix(subject, ENCODED_SUBJECT_PREFIX).is_some() || subject.is_empty()
        || begins_with(subject, '.') || finishes_with(subject, '.') || holds_double_dot(subject) {
        return false;
    }
    let chars = chars_of(subject);
    let mut i: usize = 0;
    while i < chars.len()
        invariant
            i <= chars.len(),
            chars@ == subject@,
            forall|k: int| 0 <= k < i ==> plain_char(#[trigger] subject@[k]),
        decreases chars.len() - i,
    {
        let ch = chars[i];
        if !(is_ascii_alphanumeric(ch) || ch == '_' || ch == '-' || ch == '.') {
            assert(!plain_char(subject@[i as int]));
            return false;
        }
        i += 1;
    }
    true
}

/// Two hexadecimal digits for each byte.
pub fn hex_encode(bytes: &[u8]) -> (text: String)
    ensures
        text@ == hex_of(bytes@),
{
    let mut text = String::new();
    let mut i: usize = 0;
    while i < bytes.len()
        invariant
            i <= bytes.len(),
            text@ == hex_of(bytes@.take(i as int)),
        decreases bytes.len() - i,
    {
        let byte = bytes[i];
        let ghost upto = bytes@.take(i + 1);
        assert(upto.drop_last() =~= bytes@.take(i as int));
        assert(upto.last() == byte);
        text.push(hex_char(byte / 16));
        text.push(hex_char(byte % 16));
        i += 1;
    }
    assert(bytes@.take(bytes@.len() as int) =~= bytes@);
    text
}

/// The bytes that pairs of hexadecimal digits stand for.
pub fn hex_decode(text: &str) -> (bytes: Option<Vec<u8>>)
    ensures
        match bytes {
            Some(bytes) => bytes_of_hex(text@) == Some(bytes@),
            None => bytes_of_hex(text@) is None,
        },
{
    let chars = chars_of(text);
    if chars.len() == 0 || chars.len() % 2 != 0 {
        return None;
    }
    let mut bytes: Vec<u8> = Vec::new();
    let mut i: usize = 0;
    while i < chars.len()
        invariant
            i <= chars.len(),
            i % 2 == 0,
            chars.len() % 2 == 0,
            chars@ == text@,
            bytes.len() == i / 2,
            forall|k: int| 0 <= k < i ==> hex_value_of(#[trigger] text@[k]) is Some,
            forall|k: int| 0 <= k < i / 2 ==> #[trigger] bytes@[k] == hex_byte(text@[2 * k], text@[2 * k + 1]),
        decreases chars.len() - i,
    {
        let high = hex_value(chars[i]);
        let low = hex_value(chars[i + 1]);
        match (high, low) {
            (Some(high), Some(low)) => {
                bytes.push(high * 16 + low);
            },
            _ => {
                assert(hex_value_of(text@[i as int]) is None || hex_value_of(text@[i + 1]) is None);
                return None;
            },
        }
        i += 2;
    }
    assert(bytes_of_hex(text@).unwrap() =~= bytes@);
    Some(bytes)
}

/// The value of a hexadecimal digit of either case.
pub fn hex_value(ch: char) -> (value: Option<u8>)
    ensures
        value == hex_value_of(ch),
        value is Some ==> value.unwrap() < 16,
{
    if '0' <= ch && ch <= '9' {
        Some(ch as u8 - 48)
    } else if 'a' <= ch && ch <= 'f' {
        Some(ch as u8 - 97 + 10)
    } else if 'A' <= ch && ch <= 'F' {
        Some(ch as u8 - 65 + 10)
    } else {
        None
    }
}

} // verus!
