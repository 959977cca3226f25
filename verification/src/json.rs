//! Whether payloads are JSON: one document, or one document on each line.

use vstd::prelude::*;
use vstd::utf8::encode_utf8;

use crate::chars::white_space;
use crate::encoding::{read_utf8, utf8_text};
use crate::errors::EventFsError;
use crate::text::{
    join, lemma_split_around, lemma_split_join, lemma_split_pieces, lemma_split_without,
    lemma_without_empty_all, lemma_without_empty_append, lemma_without_empty_none, option_view,
    split, split_text, string_texts, texts, trim_space, trim_space_end, trim_space_start, trimmed,
    without_empty, Text,
};

verus! {

/// What `serde_json::from_slice` says of bytes that are not one JSON document, as the
/// text of its error; nothing where they are one.
pub uninterp spec fn document_complaint(bytes: Seq<u8>) -> Option<Seq<char>>;

/// `serde_json::from_slice` into a `serde_json::Value` that is dropped. Whether it
/// fails, and the text of its error, is a function of the bytes.
#[verifier::external_body]
pub(crate) fn document_error(bytes: &[u8]) -> (complaint: Option<String>)
    ensures
        option_view(complaint) == document_complaint(bytes@),
{
    match serde_json::from_slice::<serde_json::Value>(bytes) {
        Ok(_) => None,
        Err(error) => Some(error.to_string()),
    }
}

/// `serde_json::from_str` into a `serde_json::Value` that is dropped. It reads the text
/// as `serde_json::from_slice` reads its bytes: the reader of texts hands every step to
/// the reader of bytes, and leaves out only the check that strings are UTF-8, which they
/// are. So it fails on the same texts, with the same words.
#[verifier::external_body]
fn text_error(text: &str) -> (complaint: Option<String>)
    ensures
        option_view(complaint) == document_complaint(encode_utf8(text@)),
{
    match serde_json::from_str::<serde_json::Value>(text) {
        Ok(_) => None,
        Err(error) => Some(error.to_string()),
    }
}

/// Whether a check passed exactly where there is no complaint, and otherwise refused
/// the payload with it.
pub open spec fn passes(
    result: Result<(), EventFsError>,
    path: Text,
    complaint: Option<Text>,
) -> bool {
    match result {
        Ok(()) => complaint is None,
        Err(error) => complaint is Some && error@ == EventFsError::bad_json(
            path,
            complaint.unwrap(),
        ),
    }
}

/// The lines of a text without white space at their ends, where anything is left.
pub open spec fn lines_of(text: Text) -> Seq<Text> {
    without_empty(split(text, '\n').map_values(|line: Text| trimmed(line)))
}

/// The first complaint, if there is any.
pub open spec fn first_complaint(complaints: Seq<Option<Text>>) -> Option<Text>
    decreases complaints.len(),
{
    if complaints.len() == 0 {
        None
    } else if complaints[0] is Some {
        complaints[0]
    } else {
        first_complaint(complaints.drop_first())
    }
}

/// The complaints about the lines of a text.
pub open spec fn line_complaints(lines: Seq<Text>) -> Seq<Option<Text>> {
    lines.map_values(|line: Text| document_complaint(encode_utf8(line)))
}

/// What there is to complain about in bytes that are to be lines of JSON: that they are
/// not UTF-8, or the first line that is not a document.
pub open spec fn lines_complaint(bytes: Seq<u8>) -> Option<Text> {
    match utf8_text(bytes) {
        Err(complaint) => Some(complaint),
        Ok(text) => first_complaint(line_complaints(lines_of(text))),
    }
}

/// The models of complaints.
pub open spec fn complaint_models(complaints: Seq<Option<String>>) -> Seq<Option<Text>> {
    complaints.map_values(|complaint: Option<String>| option_view(complaint))
}

// ---------------------------------------------------------------------------
// Laws
// ---------------------------------------------------------------------------

/// Trimming leaves neither white space at the ends nor anything that was not there, and
/// a text without white space at its ends as it is.
proof fn lemma_trimmed(text: Text, ch: char)
    ensures
        trimmed(trimmed(text)) == trimmed(text),
        !text.contains(ch) ==> !trimmed(text).contains(ch),
        trimmed(text).len() > 0 ==> !white_space(trimmed(text)[0]) && !white_space(
            trimmed(text).last(),
        ),
{
    let start = trim_space_start(text);
    let both = trim_space_end(start);
    lemma_trim_space_start(text, ch);
    lemma_trim_space_end(start, ch);
    if both.len() > 0 {
        assert(both[0] == start[0]);
        assert(trim_space_start(both) == both);
    }
}

proof fn lemma_trim_space_start(text: Text, ch: char)
    ensures
        trim_space_start(text).len() > 0 ==> !white_space(trim_space_start(text)[0]),
        !text.contains(ch) ==> !trim_space_start(text).contains(ch),
    decreases text.len(),
{
    if text.len() > 0 && white_space(text[0]) {
        let rest = text.drop_first();
        if rest.contains(ch) {
            let k = choose|k: int| 0 <= k < rest.len() && rest[k] == ch;
            assert(text[k + 1] == ch);
        }
        lemma_trim_space_start(rest, ch);
    }
}

proof fn lemma_trim_space_end(text: Text, ch: char)
    ensures
        trim_space_end(text).is_prefix_of(text),
        trim_space_end(text).len() > 0 ==> !white_space(trim_space_end(text).last()),
        !text.contains(ch) ==> !trim_space_end(text).contains(ch),
        trim_space_end(trim_space_end(text)) == trim_space_end(text),
    decreases text.len(),
{
    if text.len() > 0 && white_space(text.last()) {
        let front = text.drop_last();
        if front.contains(ch) {
            let k = choose|k: int| 0 <= k < front.len() && front[k] == ch;
            assert(text[k] == ch);
        }
        lemma_trim_space_end(front, ch);
    }
}

proof fn lemma_without_empty_kept(parts: Seq<Text>, i: int)
    requires
        0 <= i < without_empty(parts).len(),
    ensures
        without_empty(parts)[i].len() > 0,
        parts.contains(without_empty(parts)[i]),
    decreases parts.len(),
{
    if parts.len() > 0 {
        let front = parts.drop_last();
        let found = without_empty(parts)[i];
        if parts.last().len() > 0 && i == without_empty(front).len() {
            assert(parts[parts.len() - 1] == found);
        } else {
            lemma_without_empty_kept(front, i);
            let k = choose|k: int| 0 <= k < front.len() && front[k] == found;
            assert(parts[k] == found);
        }
    }
}

/// No line that is kept is empty, has white space at its ends, or holds a line break.
pub proof fn law_kept_lines_are_trimmed(text: Text, i: int)
    requires
        0 <= i < lines_of(text).len(),
    ensures
        lines_of(text)[i].len() > 0,
        trimmed(lines_of(text)[i]) == lines_of(text)[i],
        !white_space(lines_of(text)[i][0]),
        !white_space(lines_of(text)[i].last()),
        !lines_of(text)[i].contains('\n'),
{
    let pieces = split(text, '\n').map_values(|line: Text| trimmed(line));
    lemma_without_empty_kept(pieces, i);
    let k = choose|k: int| 0 <= k < pieces.len() && pieces[k] == lines_of(text)[i];
    lemma_split_pieces(text, '\n');
    lemma_trimmed(split(text, '\n')[k], '\n');
}

/// The kept lines, joined by line breaks, are read as the same lines again, whether as
/// a text or as its bytes.
pub proof fn law_joined_lines_are_the_same_lines(text: Text)
    ensures
        lines_of(join(lines_of(text), '\n')) == lines_of(text),
        utf8_text(encode_utf8(join(lines_of(text), '\n'))) == Ok::<Text, Text>(
            join(lines_of(text), '\n'),
        ),
{
    let lines = lines_of(text);
    let joined = join(lines, '\n');
    vstd::utf8::encode_utf8_valid_utf8(joined);
    vstd::utf8::encode_utf8_decode_utf8(joined);
    assert forall|i: int| 0 <= i < lines.len() implies !(#[trigger] lines[i]).contains('\n')
        && lines[i].len() > 0 && trimmed(lines[i]) == lines[i] by {
        law_kept_lines_are_trimmed(text, i);
    }
    if lines.len() > 0 {
        lemma_split_join(lines, '\n');
        assert(lines.map_values(|line: Text| trimmed(line)) =~= lines);
        lemma_without_empty_all(lines);
    } else {
        let pieces = split(joined, '\n').map_values(|line: Text| trimmed(line));
        assert(pieces =~= seq![Seq::<char>::empty()]);
        lemma_without_empty_none();
    }
}

/// Lines keep their order, and none is lost: what stands before a line break gives its
/// lines first, what stands behind it gives its lines next, and a text without a line
/// break is one line unless it is blank.
pub proof fn law_lines_are_read_one_after_another(left: Text, right: Text)
    ensures
        lines_of(left.push('\n') + right) == lines_of(left) + lines_of(right),
        !left.contains('\n') ==> lines_of(left) == if trimmed(left).len() == 0 {
            Seq::<Text>::empty()
        } else {
            seq![trimmed(left)]
        },
{
    let trim = |line: Text| trimmed(line);
    lemma_split_around(left, right, '\n');
    assert((split(left, '\n') + split(right, '\n')).map_values(trim) =~= split(
        left,
        '\n',
    ).map_values(trim) + split(right, '\n').map_values(trim));
    lemma_without_empty_append(
        split(left, '\n').map_values(trim),
        split(right, '\n').map_values(trim),
    );
    if !left.contains('\n') {
        lemma_split_without(left, '\n');
        let only = seq![trimmed(left)];
        assert(split(left, '\n').map_values(trim) =~= only);
        if trimmed(left).len() > 0 {
            lemma_without_empty_all(only);
        } else {
            assert(trimmed(left) =~= Seq::<char>::empty());
            lemma_without_empty_none();
        }
    }
}

proof fn lemma_first_complaint(complaints: Seq<Option<Text>>)
    ensures
        first_complaint(complaints) is None <==> forall|i: int|
            0 <= i < complaints.len() ==> (#[trigger] complaints[i]) is None,
    decreases complaints.len(),
{
    if complaints.len() > 0 && complaints[0] is None {
        let rest = complaints.drop_first();
        lemma_first_complaint(rest);
        if first_complaint(complaints) is None {
            assert forall|i: int| 0 <= i < complaints.len() implies (
            #[trigger] complaints[i]) is None by {
                if i > 0 {
                    assert(rest[i - 1] == complaints[i]);
                }
            }
        } else {
            let i = choose|i: int| 0 <= i < rest.len() && !((#[trigger] rest[i]) is None);
            assert(complaints[i + 1] == rest[i]);
        }
    }
}

/// A log is valid exactly where it is UTF-8 and each of its lines is a valid document
/// on its own.
pub proof fn law_logs_are_valid_line_by_line(bytes: Seq<u8>)
    ensures
        lines_complaint(bytes) is None <==> (utf8_text(bytes) matches Ok(text) && forall|i: int|
            0 <= i < lines_of(text).len() ==> document_complaint(
                encode_utf8(#[trigger] lines_of(text)[i]),
            ) is None),
{
    if let Ok(text) = utf8_text(bytes) {
        let lines = lines_of(text);
        let complaints = line_complaints(lines);
        lemma_first_complaint(complaints);
        assert forall|i: int| 0 <= i < lines.len() implies document_complaint(
            encode_utf8(#[trigger] lines[i]),
        ) == complaints[i] by {}
        if first_complaint(complaints) is None {
            assert forall|i: int| 0 <= i < lines.len() implies document_complaint(
                encode_utf8(#[trigger] lines[i]),
            ) is None by {
                assert(complaints[i] is None);
            }
        }
    }
}

// ---------------------------------------------------------------------------
// Checks
// ---------------------------------------------------------------------------

/// Whether bytes are one JSON document.
pub fn validate_json_document(path: &str, bytes: &[u8]) -> (result: Result<(), EventFsError>)
    ensures
        passes(result, path@, document_complaint(bytes@)),
{
    document_verdict(path, document_error(bytes))
}

/// The refusal of a payload that there is a complaint about.
pub fn document_verdict(path: &str, complaint: Option<String>) -> (result: Result<(), EventFsError>)
    ensures
        passes(result, path@, option_view(complaint)),
{
    match complaint {
        None => Ok(()),
        Some(message) => Err(EventFsError::invalid_json(path, message.as_str())),
    }
}

/// Whether bytes are UTF-8 with one JSON document on each line that is not blank.
pub fn validate_json_lines(path: &str, bytes: &[u8]) -> (result: Result<(), EventFsError>)
    ensures
        passes(result, path@, lines_complaint(bytes@)),
{
    let lines = json_lines(path, bytes)?;
    let mut complaints: Vec<Option<String>> = Vec::new();
    let mut i: usize = 0;
    while i < lines.len()
        invariant
            i <= lines.len(),
            complaints.len() == i,
            forall|k: int|
                0 <= k < i ==> option_view(#[trigger] complaints[k]) == document_complaint(
                    encode_utf8(lines[k]@),
                ),
        decreases lines.len() - i,
    {
        complaints.push(text_error(lines[i].as_str()));
        i += 1;
    }
    assert(complaint_models(complaints@) =~= line_complaints(string_texts(lines@)));
    lines_verdict(path, complaints.as_slice())
}

/// The refusal of lines that there is a complaint about: the first one counts.
pub fn lines_verdict(path: &str, complaints: &[Option<String>]) -> (result: Result<
    (),
    EventFsError,
>)
    ensures
        passes(result, path@, first_complaint(complaint_models(complaints@))),
{
    let ghost models = complaint_models(complaints@);
    let mut i: usize = 0;
    assert(models.skip(0) =~= models);
    while i < complaints.len()
        invariant
            i <= complaints.len(),
            models == complaint_models(complaints@),
            first_complaint(models) == first_complaint(models.skip(i as int)),
        decreases complaints.len() - i,
    {
        assert(models.skip(i as int)[0] == option_view(complaints@[i as int]));
        if let Some(message) = &complaints[i] {
            return Err(EventFsError::invalid_json(path, message.as_str()));
        }
        assert(models.skip(i as int).drop_first() =~= models.skip(i + 1));
        i += 1;
    }
    Ok(())
}

/// The lines of a payload without white space at their ends, where anything is left.
pub fn json_lines(path: &str, bytes: &[u8]) -> (result: Result<Vec<String>, EventFsError>)
    ensures
        match (result, utf8_text(bytes@)) {
            (Ok(lines), Ok(text)) => string_texts(lines@) == lines_of(text),
            (Err(error), Err(complaint)) => error@ == EventFsError::bad_json(path@, complaint),
            _ => false,
        },
{
    let text = match read_utf8(bytes) {
        Ok(text) => text,
        Err(message) => {
            return Err(EventFsError::invalid_json(path, message.as_str()));
        },
    };
    let parts = split_text(text.as_str(), '\n');
    let ghost pieces = split(text@, '\n').map_values(|line: Text| trimmed(line));
    let mut lines: Vec<String> = Vec::new();
    let mut i: usize = 0;
    assert(pieces.take(0) =~= Seq::empty());
    assert(string_texts(lines@) =~= Seq::empty());
    while i < parts.len()
        invariant
            i <= parts.len(),
            texts(parts@) == split(text@, '\n'),
            pieces == split(text@, '\n').map_values(|line: Text| trimmed(line)),
            string_texts(lines@) == without_empty(pieces.take(i as int)),
        decreases parts.len() - i,
    {
        let line = trim_space(parts[i]);
        let ghost upto = pieces.take(i + 1);
        assert(texts(parts@)[i as int] == parts@[i as int]@);
        assert(upto.drop_last() =~= pieces.take(i as int));
        assert(upto.last() == line@);
        if !line.is_empty() {
            let ghost before = lines@;
            lines.push(line.to_owned());
            assert(string_texts(lines@) =~= string_texts(before).push(line@));
        }
        i += 1;
    }
    assert(pieces.take(pieces.len() as int) =~= pieces);
    Ok(lines)
}

} // verus!
