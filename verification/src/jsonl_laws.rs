//! What is written of a log is read back line by line.

use vstd::prelude::*;
use vstd::utf8::{encode_scalar, encode_utf8};

use crate::encoding::utf8_text;
use crate::json::{law_kept_lines_are_trimmed, law_lines_are_read_one_after_another, lines_of};
use crate::jsonl::{canonical_lines, concatenated, line_bytes, unapplied, NEWLINE};
use crate::text::{trimmed, Text};

verus! {

/// Texts are encoded one after the other.
proof fn lemma_encode_append(left: Text, right: Text)
    ensures
        encode_utf8(left + right) == encode_utf8(left) + encode_utf8(right),
    decreases left.len(),
{
    if left.len() == 0 {
        assert(left + right =~= right);
        assert(encode_utf8(left) + encode_utf8(right) =~= encode_utf8(right));
    } else {
        lemma_encode_append(left.drop_first(), right);
        assert((left + right).drop_first() =~= left.drop_first() + right);
        assert(encode_utf8(left + right) =~= encode_utf8(left) + encode_utf8(right));
    }
}

/// A text of one character is encoded as that character.
proof fn lemma_encode_one(ch: char)
    ensures
        encode_utf8(seq![ch]) == encode_scalar(ch as u32),
{
    let none = Seq::<char>::empty();
    assert(seq![ch].drop_first() =~= none);
    assert(encode_utf8(none) =~= Seq::<u8>::empty());
    assert(encode_utf8(seq![ch]) =~= encode_scalar(ch as u32));
}

/// A line break is one byte, and no other character ends in that byte.
proof fn lemma_encoded_ends(ch: char)
    ensures
        encode_scalar('\n' as u32) == seq![NEWLINE],
        encode_scalar(ch as u32).len() > 0,
        ch != '\n' ==> encode_scalar(ch as u32).last() != NEWLINE,
{
    assert((10u32 & 0x7F) as u8 == 10u8) by (bit_vector);
    assert(encode_scalar('\n' as u32) =~= seq![NEWLINE]);
    let code = ch as u32;
    assert(code <= 0x7F && code != 10 ==> (code & 0x7F) as u8 != 10u8) by (bit_vector);
    assert(0x80u8 | (code & 0x3F) as u8 != 10u8) by (bit_vector);
}

/// A line is encoded with one line break behind it.
proof fn lemma_line_bytes(line: Text)
    requires
        line.len() > 0,
        !line.contains('\n'),
    ensures
        line_bytes(encode_utf8(line)) == encode_utf8(line.push('\n')),
{
    let front = line.drop_last();
    lemma_encode_append(front, seq![line.last()]);
    assert(front + seq![line.last()] =~= line);
    lemma_encode_one(line.last());
    assert(line[line.len() - 1] != '\n');
    lemma_encoded_ends(line.last());
    lemma_encode_append(line, seq!['\n']);
    lemma_encode_one('\n');
    assert(line + seq!['\n'] =~= line.push('\n'));
    assert(encode_utf8(line) + seq![NEWLINE] =~= encode_utf8(line).push(NEWLINE));
}

/// The text of a log with the given lines.
pub open spec fn log_text(lines: Seq<Text>) -> Text
    decreases lines.len(),
{
    if lines.len() == 0 {
        Seq::empty()
    } else {
        log_text(lines.drop_last()) + lines.last().push('\n')
    }
}

/// Whether texts can be the lines of a log.
pub open spec fn log_lines(lines: Seq<Text>) -> bool {
    forall|i: int|
        0 <= i < lines.len() ==> (#[trigger] lines[i]).len() > 0 && trimmed(lines[i]) == lines[i]
            && !lines[i].contains('\n')
}

/// The lines of a log, as bytes.
pub open spec fn lines_as_bytes(lines: Seq<Text>) -> Seq<Seq<u8>> {
    lines.map_values(|line: Text| line_bytes(encode_utf8(line)))
}

proof fn lemma_first_lines(lines: Seq<Text>)
    requires
        log_lines(lines),
        lines.len() > 0,
    ensures
        log_lines(lines.drop_last()),
{
    let front = lines.drop_last();
    assert forall|i: int| 0 <= i < front.len() implies (#[trigger] front[i]).len() > 0 && trimmed(
        front[i],
    ) == front[i] && !front[i].contains('\n') by {
        assert(front[i] == lines[i]);
    }
}

proof fn lemma_log_bytes(lines: Seq<Text>)
    requires
        log_lines(lines),
    ensures
        concatenated(lines_as_bytes(lines)) == encode_utf8(log_text(lines)),
    decreases lines.len(),
{
    if lines.len() > 0 {
        let front = lines.drop_last();
        let last = lines.last();
        lemma_first_lines(lines);
        lemma_log_bytes(front);
        assert(lines[lines.len() - 1] == last);
        lemma_line_bytes(last);
        lemma_encode_append(log_text(front), last.push('\n'));
        assert(lines_as_bytes(lines).drop_last() =~= lines_as_bytes(front));
    }
}

/// A log is read as the lines that it was written with.
pub proof fn law_logs_are_read_as_written(lines: Seq<Text>)
    requires
        log_lines(lines),
    ensures
        lines_of(log_text(lines)) == lines,
    decreases lines.len(),
{
    let none = Seq::<char>::empty();
    law_lines_are_read_one_after_another(none, none);
    assert(trimmed(none) =~= none);
    assert(lines_of(none) =~= Seq::<Text>::empty());
    if lines.len() == 0 {
        assert(lines =~= Seq::<Text>::empty());
    } else {
        let front = lines.drop_last();
        let last = lines.last();
        lemma_first_lines(lines);
        assert(lines[lines.len() - 1] == last);
        law_logs_are_read_as_written(front);
        law_lines_are_read_one_after_another(last, none);
        assert(last.push('\n') + none =~= last.push('\n'));
        assert(lines_of(last.push('\n')) =~= seq![last]);
        if front.len() == 0 {
            assert(log_text(lines) =~= last.push('\n'));
            assert(lines =~= seq![last]);
        } else {
            let before = log_text(front);
            let head = before.drop_last();
            assert(before =~= head.push('\n'));
            law_lines_are_read_one_after_another(head, none);
            assert(head.push('\n') + none =~= before);
            law_lines_are_read_one_after_another(head, last.push('\n'));
            assert(lines_of(head) =~= front);
            assert(front + seq![last] =~= lines);
        }
    }
}

/// What is left of a log after its first lines is read back as the lines that are left,
/// none of them cut and none lost. With no lines taken away it is the whole log: a log
/// in its canonical form stays as it is.
pub proof fn law_unapplied_lines_are_read_back(text: Text, applied: nat)
    ensures
        utf8_text(unapplied(text, applied)) matches Ok(rest) && ({
            let taken = if applied < lines_of(text).len() {
                applied as int
            } else {
                lines_of(text).len() as int
            };
            &&& lines_of(rest) == lines_of(text).skip(taken)
            &&& canonical_lines(rest) == canonical_lines(text).skip(taken)
        }),
{
    let lines = lines_of(text);
    let taken = if applied < lines.len() {
        applied as int
    } else {
        lines.len() as int
    };
    let left = lines.skip(taken);
    assert forall|i: int| 0 <= i < left.len() implies (#[trigger] left[i]).len() > 0 && trimmed(
        left[i],
    ) == left[i] && !left[i].contains('\n') by {
        law_kept_lines_are_trimmed(text, i + taken);
    }
    lemma_log_bytes(left);
    law_logs_are_read_as_written(left);
    let rest = log_text(left);
    vstd::utf8::encode_utf8_valid_utf8(rest);
    vstd::utf8::encode_utf8_decode_utf8(rest);
    assert(canonical_lines(text).skip(taken) =~= lines_as_bytes(left));
    if applied >= lines.len() {
        assert(left =~= Seq::<Text>::empty());
    }
    assert(canonical_lines(rest) =~= lines_as_bytes(left));
}

} // verus!
