//! Texts as sequences of characters, and the string operations that the mount
//! grammar is built from.

use vstd::prelude::*;

use crate::chars::{is_white_space, white_space};

verus! {

/// The mathematical model of a string: its characters in order.
pub type Text = Seq<char>;

/// Appends one character, as `String::push` documents: the string afterwards is
/// the string before with that character at its end.
pub assume_specification[ String::push ](text: &mut String, ch: char)
    ensures
        final(text)@ == old(text)@.push(ch),
;

/// The model of an optional value.
pub open spec fn option_view<T: View>(value: Option<T>) -> Option<T::V> {
    match value {
        Some(value) => Some(value@),
        None => None,
    }
}

/// The texts that a list of string slices holds.
pub open spec fn texts(parts: Seq<&str>) -> Seq<Text> {
    parts.map_values(|part: &str| part@)
}

/// The texts that a list of owned strings holds.
pub open spec fn string_texts(parts: Seq<String>) -> Seq<Text> {
    parts.map_values(|part: String| part@)
}

/// The pieces of `text` between occurrences of `sep`; there is always at least one.
pub open spec fn split(text: Text, sep: char) -> Seq<Text>
    decreases text.len(),
{
    if text.len() == 0 {
        seq![text]
    } else {
        let before = split(text.drop_last(), sep);
        if text.last() == sep {
            before.push(Seq::empty())
        } else {
            before.drop_last().push(before.last().push(text.last()))
        }
    }
}

/// The parts one after another with `sep` between neighbours.
pub open spec fn join(parts: Seq<Text>, sep: char) -> Text
    decreases parts.len(),
{
    if parts.len() == 0 {
        Seq::empty()
    } else if parts.len() == 1 {
        parts[0]
    } else {
        join(parts.drop_last(), sep).push(sep) + parts.last()
    }
}

/// The parts that are not empty.
pub open spec fn without_empty(parts: Seq<Text>) -> Seq<Text>
    decreases parts.len(),
{
    if parts.len() == 0 {
        parts
    } else if parts.last().len() == 0 {
        without_empty(parts.drop_last())
    } else {
        without_empty(parts.drop_last()).push(parts.last())
    }
}

/// `text` without the white space that it ends in.
pub open spec fn trim_space_end(text: Text) -> Text
    decreases text.len(),
{
    if text.len() > 0 && white_space(text.last()) {
        trim_space_end(text.drop_last())
    } else {
        text
    }
}

/// `text` without the white space that it begins with.
pub open spec fn trim_space_start(text: Text) -> Text
    decreases text.len(),
{
    if text.len() > 0 && white_space(text[0]) {
        trim_space_start(text.drop_first())
    } else {
        text
    }
}

/// `text` without white space at its ends.
pub open spec fn trimmed(text: Text) -> Text {
    trim_space_end(trim_space_start(text))
}

/// `text` without the run of `ch` that it ends in.
pub open spec fn trim_end(text: Text, ch: char) -> Text
    decreases text.len(),
{
    if text.len() > 0 && text.last() == ch {
        trim_end(text.drop_last(), ch)
    } else {
        text
    }
}

/// `text` without the run of `ch` that it begins with.
pub open spec fn trim_start(text: Text, ch: char) -> Text
    decreases text.len(),
{
    if text.len() > 0 && text[0] == ch {
        trim_start(text.drop_first(), ch)
    } else {
        text
    }
}

/// What follows `prefix` in `text`, if `text` begins with `prefix`.
pub open spec fn strip_prefix(text: Text, prefix: Text) -> Option<Text> {
    if prefix.is_prefix_of(text) {
        Some(text.skip(prefix.len() as int))
    } else {
        None
    }
}

/// What precedes `suffix` in `text`, if `text` ends with `suffix`.
pub open spec fn strip_suffix(text: Text, suffix: Text) -> Option<Text> {
    if suffix.is_suffix_of(text) {
        Some(text.take(text.len() - suffix.len()))
    } else {
        None
    }
}

/// Whether two dots stand next to each other somewhere in `text`.
pub open spec fn has_double_dot(text: Text) -> bool {
    exists|i: int| 0 <= i && i + 1 < text.len() && #[trigger] text[i] == '.' && text[i + 1] == '.'
}

/// Whether `left` comes before `right` in the order that compares character by
/// character and puts a proper prefix first.
pub open spec fn text_less(left: Text, right: Text) -> bool
    decreases left.len(),
{
    if right.len() == 0 {
        false
    } else if left.len() == 0 {
        true
    } else if left[0] != right[0] {
        left[0] < right[0]
    } else {
        text_less(left.drop_first(), right.drop_first())
    }
}

/// The order of texts is strict and total: no text comes before itself, of two texts
/// one comes before the other, and what comes before a text comes before whatever that
/// text comes before.
pub proof fn law_text_order_is_strict_and_total(a: Text, b: Text, c: Text)
    ensures
        !text_less(a, a),
        a != b ==> text_less(a, b) != text_less(b, a),
        text_less(a, b) && text_less(b, c) ==> text_less(a, c),
    decreases a.len(),
{
    if a.len() > 0 {
        let rest_b = if b.len() > 0 {
            b.drop_first()
        } else {
            b
        };
        let rest_c = if c.len() > 0 {
            c.drop_first()
        } else {
            c
        };
        law_text_order_is_strict_and_total(a.drop_first(), rest_b, rest_c);
        if b.len() > 0 && a[0] == b[0] && a != b {
            assert(a =~= seq![a[0]] + a.drop_first());
            assert(b =~= seq![b[0]] + b.drop_first());
        }
    } else {
        assert(b.len() == 0 ==> a =~= b);
    }
}

// ---------------------------------------------------------------------------
// Facts about splitting and joining
// ---------------------------------------------------------------------------

/// No piece of a split holds the separator.
pub proof fn lemma_split_pieces(text: Text, sep: char)
    ensures
        split(text, sep).len() >= 1,
        forall|i: int| 0 <= i < split(text, sep).len() ==> !(#[trigger] split(text, sep)[i]).contains(sep),
    decreases text.len(),
{
    if text.len() > 0 {
        let before = split(text.drop_last(), sep);
        lemma_split_pieces(text.drop_last(), sep);
        if text.last() != sep {
            let grown = before.last().push(text.last());
            assert(!before[before.len() - 1].contains(sep));
            assert(!grown.contains(sep)) by {
                if grown.contains(sep) {
                    let k = choose|k: int| 0 <= k < grown.len() && grown[k] == sep;
                    if k < before.last().len() {
                        assert(before.last()[k] == sep);
                    }
                }
            }
        }
    }
}

/// A text without the separator is its own only piece.
pub proof fn lemma_split_without(text: Text, sep: char)
    requires
        !text.contains(sep),
    ensures
        split(text, sep) == seq![text],
    decreases text.len(),
{
    if text.len() > 0 {
        let shorter = text.drop_last();
        assert(!shorter.contains(sep)) by {
            if shorter.contains(sep) {
                let k = choose|k: int| 0 <= k < shorter.len() && shorter[k] == sep;
                assert(text[k] == sep);
            }
        }
        assert(text[text.len() - 1] != sep);
        lemma_split_without(shorter, sep);
        assert(shorter.push(text.last()) =~= text);
        assert(split(text, sep) =~= seq![text]);
    }
}

/// Splitting around a separator splits both sides on their own.
pub proof fn lemma_split_around(left: Text, right: Text, sep: char)
    ensures
        split(left.push(sep) + right, sep) == split(left, sep) + split(right, sep),
    decreases right.len(),
{
    let whole = left.push(sep) + right;
    if right.len() == 0 {
        assert(whole =~= left.push(sep));
        assert(whole.drop_last() =~= left);
        assert(right =~= Seq::<char>::empty());
        assert(split(whole, sep) =~= split(left, sep) + split(right, sep));
    } else {
        assert(whole.drop_last() =~= left.push(sep) + right.drop_last());
        assert(whole.last() == right.last());
        lemma_split_around(left, right.drop_last(), sep);
        lemma_split_pieces(right.drop_last(), sep);
        let r = split(right.drop_last(), sep);
        let both = split(left, sep) + r;
        assert(both.last() == r.last());
        assert(both.drop_last() =~= split(left, sep) + r.drop_last());
        assert(split(whole, sep) =~= split(left, sep) + split(right, sep));
    }
}

/// Joining the pieces of a split gives the text back.
pub proof fn lemma_join_split(text: Text, sep: char)
    ensures
        join(split(text, sep), sep) == text,
    decreases text.len(),
{
    if text.len() > 0 {
        let before = split(text.drop_last(), sep);
        lemma_split_pieces(text.drop_last(), sep);
        lemma_join_split(text.drop_last(), sep);
        assert(text.drop_last().push(text.last()) =~= text);
        if text.last() == sep {
            let after = before.push(Seq::<char>::empty());
            assert(after.drop_last() =~= before);
            assert(join(after, sep) =~= text);
        } else {
            let after = before.drop_last().push(before.last().push(text.last()));
            assert(after.drop_last() =~= before.drop_last());
            assert(after.last() =~= before.last().push(text.last()));
            assert(join(after, sep) =~= join(before, sep).push(text.last()));
        }
    }
}

/// Joined parts begin with the first part, and the others, joined, follow it.
pub proof fn lemma_join_first(parts: Seq<Text>, sep: char)
    requires
        parts.len() >= 2,
    ensures
        join(parts, sep) == parts[0].push(sep) + join(parts.skip(1), sep),
    decreases parts.len(),
{
    let front = parts.drop_last();
    let rest = parts.skip(1);
    assert(rest.last() == parts.last());
    if parts.len() == 2 {
        assert(join(front, sep) == parts[0]);
        assert(join(rest, sep) == parts[1]);
    } else {
        lemma_join_first(front, sep);
        assert(rest.drop_last() =~= front.skip(1));
        assert(join(parts, sep) =~= parts[0].push(sep) + join(rest, sep));
    }
}

/// Splitting joined pieces gives the pieces back, where none of them holds the
/// separator.
pub proof fn lemma_split_join(parts: Seq<Text>, sep: char)
    requires
        parts.len() >= 1,
        forall|i: int| 0 <= i < parts.len() ==> !(#[trigger] parts[i]).contains(sep),
    ensures
        split(join(parts, sep), sep) == parts,
    decreases parts.len(),
{
    if parts.len() == 1 {
        lemma_split_without(parts[0], sep);
        assert(seq![parts[0]] =~= parts);
    } else {
        let front = parts.drop_last();
        assert forall|i: int| 0 <= i < front.len() implies !(#[trigger] front[i]).contains(sep) by {
            assert(front[i] == parts[i]);
        }
        lemma_split_join(front, sep);
        lemma_split_around(join(front, sep), parts.last(), sep);
        assert(!parts[parts.len() - 1].contains(sep));
        lemma_split_without(parts.last(), sep);
        assert(front + seq![parts.last()] =~= parts);
    }
}

/// Joining a non-empty list followed by another joins the two results.
pub proof fn lemma_join_append(left: Seq<Text>, right: Seq<Text>, sep: char)
    requires
        left.len() >= 1,
        right.len() >= 1,
    ensures
        join(left + right, sep) == join(left, sep).push(sep) + join(right, sep),
    decreases right.len(),
{
    let whole = left + right;
    if right.len() == 1 {
        assert(whole.drop_last() =~= left);
        assert(whole.last() == right[0]);
    } else {
        assert(whole.drop_last() =~= left + right.drop_last());
        assert(whole.last() == right.last());
        lemma_join_append(left, right.drop_last(), sep);
        assert(join(whole, sep) =~= join(left, sep).push(sep) + join(right, sep));
    }
}

/// Keeping the non-empty parts of a concatenation keeps those of both sides.
pub proof fn lemma_without_empty_append(left: Seq<Text>, right: Seq<Text>)
    ensures
        without_empty(left + right) == without_empty(left) + without_empty(right),
    decreases right.len(),
{
    if right.len() == 0 {
        assert(left + right =~= left);
        assert(without_empty(left) + right =~= without_empty(left));
    } else {
        assert((left + right).drop_last() =~= left + right.drop_last());
        lemma_without_empty_append(left, right.drop_last());
        assert(without_empty(left + right) =~= without_empty(left) + without_empty(right));
    }
}

/// Nothing is dropped where no part is empty.
pub proof fn lemma_without_empty_all(parts: Seq<Text>)
    requires
        forall|i: int| 0 <= i < parts.len() ==> (#[trigger] parts[i]).len() > 0,
    ensures
        without_empty(parts) == parts,
    decreases parts.len(),
{
    if parts.len() > 0 {
        let front = parts.drop_last();
        assert forall|i: int| 0 <= i < front.len() implies (#[trigger] front[i]).len() > 0 by {
            assert(front[i] == parts[i]);
        }
        lemma_without_empty_all(front);
        assert(parts[parts.len() - 1].len() > 0);
        assert(front.push(parts.last()) =~= parts);
    }
}

/// An empty part is dropped.
pub proof fn lemma_without_empty_none()
    ensures
        without_empty(seq![Seq::<char>::empty()]) == Seq::<Text>::empty(),
{
    let only = seq![Seq::<char>::empty()];
    assert(only.drop_last() =~= Seq::<Text>::empty());
    assert(without_empty(only.drop_last()) =~= Seq::<Text>::empty());
}

/// Where joined pieces begin and end, if the outer ones are not empty.
pub proof fn lemma_join_ends(parts: Seq<Text>, sep: char)
    requires
        parts.len() >= 1,
        parts[0].len() > 0,
        parts.last().len() > 0,
    ensures
        join(parts, sep).len() > 0,
        join(parts, sep)[0] == parts[0][0],
        join(parts, sep).last() == parts.last().last(),
    decreases parts.len(),
{
    if parts.len() > 1 {
        let front = parts.drop_last();
        if front.len() > 1 {
            lemma_join_head(front, sep);
        }
        assert(join(parts, sep) == join(front, sep).push(sep) + parts.last());
        assert(front[0] == parts[0]);
    }
}

/// Joined pieces begin with the first of them.
pub proof fn lemma_join_head(parts: Seq<Text>, sep: char)
    requires
        parts.len() >= 1,
    ensures
        parts[0].is_prefix_of(join(parts, sep)),
    decreases parts.len(),
{
    if parts.len() > 1 {
        let front = parts.drop_last();
        lemma_join_head(front, sep);
        assert(front[0] == parts[0]);
    }
}

/// A character other than the separator occurs in joined pieces only where it occurs
/// in one of them.
pub proof fn lemma_join_without(parts: Seq<Text>, sep: char, ch: char)
    requires
        ch != sep,
        forall|i: int| 0 <= i < parts.len() ==> !(#[trigger] parts[i]).contains(ch),
    ensures
        !join(parts, sep).contains(ch),
    decreases parts.len(),
{
    let whole = join(parts, sep);
    if parts.len() == 1 {
        assert(!parts[0].contains(ch));
    } else if parts.len() > 1 {
        let front = parts.drop_last();
        assert forall|i: int| 0 <= i < front.len() implies !(#[trigger] front[i]).contains(ch) by {
            assert(front[i] == parts[i]);
        }
        lemma_join_without(front, sep, ch);
        if whole.contains(ch) {
            let k = choose|k: int| 0 <= k < whole.len() && whole[k] == ch;
            let before = join(front, sep);
            if k < before.len() {
                assert(before[k] == ch);
            } else if k > before.len() {
                assert(parts[parts.len() - 1][k - before.len() - 1] == ch);
            }
        }
    }
}

/// Trimming touches nothing but a text that ends in the character.
pub proof fn lemma_trim_end_shape(text: Text, ch: char)
    ensures
        trim_end(text, ch).is_prefix_of(text),
        trim_end(text, ch).len() == 0 || trim_end(text, ch).last() != ch,
        forall|i: int| trim_end(text, ch).len() <= i < text.len() ==> #[trigger] text[i] == ch,
    decreases text.len(),
{
    if text.len() > 0 && text.last() == ch {
        lemma_trim_end_shape(text.drop_last(), ch);
        assert forall|i: int| trim_end(text, ch).len() <= i < text.len() implies #[trigger] text[i]
            == ch by {
            if i < text.len() - 1 {
                assert(text.drop_last()[i] == ch);
            }
        }
    }
}

// ---------------------------------------------------------------------------
// Executable operations
// ---------------------------------------------------------------------------

/// The characters of a string.
pub fn chars_of(text: &str) -> (chars: Vec<char>)
    ensures
        chars@ == text@,
{
    let mut chars: Vec<char> = Vec::new();
    for ch in it: text.chars()
        invariant
            it.seq() == text@,
            chars@ == text@.take(it.index() as int),
    {
        chars.push(ch);
    }
    chars
}

/// Whether two strings hold the same text.
pub fn same_text(left: &str, right: &str) -> (same: bool)
    ensures
        same == (left@ == right@),
{
    let a = chars_of(left);
    let b = chars_of(right);
    if a.len() != b.len() {
        return false;
    }
    let mut i: usize = 0;
    while i < a.len()
        invariant
            i <= a.len(),
            a.len() == b.len(),
            a@ == left@,
            b@ == right@,
            forall|k: int| 0 <= k < i ==> a@[k] == b@[k],
        decreases a.len() - i,
    {
        if a[i] != b[i] {
            assert(left@[i as int] != right@[i as int]);
            return false;
        }
        i += 1;
    }
    assert(left@ =~= right@);
    true
}

/// Whether `left` comes before `right` in the character-by-character order.
pub fn precedes(left: &str, right: &str) -> (less: bool)
    ensures
        less == text_less(left@, right@),
{
    let a = chars_of(left);
    let b = chars_of(right);
    let mut i: usize = 0;
    assert(a@.skip(0) =~= a@);
    assert(b@.skip(0) =~= b@);
    loop
        invariant
            i <= a.len(),
            i <= b.len(),
            a@ == left@,
            b@ == right@,
            text_less(left@, right@) == text_less(a@.skip(i as int), b@.skip(i as int)),
        decreases a.len() - i,
    {
        if i >= b.len() {
            return false;
        }
        if i >= a.len() {
            return true;
        }
        if a[i] != b[i] {
            return a[i] < b[i];
        }
        assert(a@.skip(i as int).drop_first() =~= a@.skip(i + 1));
        assert(b@.skip(i as int).drop_first() =~= b@.skip(i + 1));
        i += 1;
    }
}

/// The pieces of `text` between occurrences of `sep`.
pub fn split_text<'a>(text: &'a str, sep: char) -> (parts: Vec<&'a str>)
    ensures
        texts(parts@) == split(text@, sep),
{
    let chars = chars_of(text);
    let mut parts: Vec<&'a str> = Vec::new();
    let mut start: usize = 0;
    let mut i: usize = 0;
    assert(split(chars@.take(0), sep) =~= seq![chars@.subrange(0, 0)]);
    while i < chars.len()
        invariant
            start <= i <= chars.len(),
            chars@ == text@,
            texts(parts@).push(text@.subrange(start as int, i as int)) =~= split(
                text@.take(i as int),
                sep,
            ),
        decreases chars.len() - i,
    {
        let ghost upto = text@.take(i + 1);
        let ghost before = texts(parts@).push(text@.subrange(start as int, i as int));
        assert(upto.drop_last() =~= text@.take(i as int));
        assert(upto.last() == chars@[i as int]);
        if chars[i] == sep {
            let piece = text.substring_char(start, i);
            let ghost old_parts = parts@;
            parts.push(piece);
            assert(texts(parts@) =~= texts(old_parts).push(piece@));
            start = i + 1;
            assert(text@.subrange(start as int, i + 1) =~= Seq::empty());
        } else {
            assert(before.last().push(chars@[i as int]) =~= text@.subrange(start as int, i + 1));
            assert(before.drop_last() =~= texts(parts@));
        }
        i += 1;
    }
    assert(text@.take(text@.len() as int) =~= text@);
    let piece = text.substring_char(start, chars.len());
    let ghost old_parts = parts@;
    parts.push(piece);
    assert(texts(parts@) =~= texts(old_parts).push(piece@));
    parts
}

/// The parts one after another with `sep` between neighbours.
pub fn join_text(parts: &[&str], sep: char) -> (text: String)
    ensures
        text@ == join(texts(parts@), sep),
{
    let mut text = String::new();
    let mut i: usize = 0;
    assert(texts(parts@).take(0) =~= Seq::empty());
    while i < parts.len()
        invariant
            i <= parts.len(),
            text@ == join(texts(parts@).take(i as int), sep),
        decreases parts.len() - i,
    {
        let ghost upto = texts(parts@).take(i + 1);
        assert(upto.drop_last() =~= texts(parts@).take(i as int));
        assert(upto.last() == parts@[i as int]@);
        if i > 0 {
            text.push(sep);
        }
        text.append(parts[i]);
        assert(i == 0 ==> text@ =~= upto[0]);
        i += 1;
    }
    assert(texts(parts@).take(parts@.len() as int) =~= texts(parts@));
    text
}

/// Whether `text` holds `ch`.
pub fn has_char(text: &str, ch: char) -> (found: bool)
    ensures
        found == text@.contains(ch),
{
    let chars = chars_of(text);
    let mut i: usize = 0;
    while i < chars.len()
        invariant
            i <= chars.len(),
            chars@ == text@,
            forall|k: int| 0 <= k < i ==> chars@[k] != ch,
        decreases chars.len() - i,
    {
        if chars[i] == ch {
            assert(text@[i as int] == ch);
            return true;
        }
        i += 1;
    }
    false
}

/// Whether two dots stand next to each other somewhere in `text`.
pub fn holds_double_dot(text: &str) -> (found: bool)
    ensures
        found == has_double_dot(text@),
{
    let chars = chars_of(text);
    let mut i: usize = 0;
    while i + 1 < chars.len()
        invariant
            i <= chars.len(),
            chars.len() < usize::MAX || i + 1 <= chars.len(),
            chars@ == text@,
            forall|k: int| 0 <= k < i && k + 1 < chars@.len() ==> !(#[trigger] chars@[k] == '.' && chars@[k + 1] == '.'),
        decreases chars.len() - i,
    {
        if chars[i] == '.' && chars[i + 1] == '.' {
            assert(text@[i as int] == '.');
            return true;
        }
        i += 1;
    }
    false
}

/// Whether `text` begins with `ch`.
pub fn begins_with(text: &str, ch: char) -> (begins: bool)
    ensures
        begins == (text@.len() > 0 && text@[0] == ch),
{
    let chars = chars_of(text);
    chars.len() > 0 && chars[0] == ch
}

/// Whether `text` ends with `ch`.
pub fn finishes_with(text: &str, ch: char) -> (ends: bool)
    ensures
        ends == (text@.len() > 0 && text@.last() == ch),
{
    let chars = chars_of(text);
    chars.len() > 0 && chars[chars.len() - 1] == ch
}

/// What follows `prefix` in `text`, if `text` begins with `prefix`.
pub fn without_prefix<'a>(text: &'a str, prefix: &str) -> (rest: Option<&'a str>)
    ensures
        option_text(rest) == strip_prefix(text@, prefix@),
{
    let whole = chars_of(text);
    let head = chars_of(prefix);
    if whole.len() < head.len() {
        return None;
    }
    let mut i: usize = 0;
    while i < head.len()
        invariant
            i <= head.len() <= whole.len(),
            whole@ == text@,
            head@ == prefix@,
            forall|k: int| 0 <= k < i ==> whole@[k] == head@[k],
        decreases head.len() - i,
    {
        if whole[i] != head[i] {
            assert(prefix@[i as int] != text@.subrange(0, prefix@.len() as int)[i as int]);
            return None;
        }
        i += 1;
    }
    assert(prefix@ =~= text@.subrange(0, prefix@.len() as int));
    let rest = text.substring_char(head.len(), whole.len());
    assert(rest@ =~= text@.skip(prefix@.len() as int));
    Some(rest)
}

/// What precedes `suffix` in `text`, if `text` ends with `suffix`.
pub fn without_suffix<'a>(text: &'a str, suffix: &str) -> (rest: Option<&'a str>)
    ensures
        option_text(rest) == strip_suffix(text@, suffix@),
{
    let whole = chars_of(text);
    let tail = chars_of(suffix);
    if whole.len() < tail.len() {
        return None;
    }
    let base: usize = whole.len() - tail.len();
    let mut i: usize = 0;
    while i < tail.len()
        invariant
            i <= tail.len() <= whole.len(),
            base == whole.len() - tail.len(),
            whole@ == text@,
            tail@ == suffix@,
            forall|k: int| 0 <= k < i ==> whole@[base + k] == tail@[k],
        decreases tail.len() - i,
    {
        if whole[base + i] != tail[i] {
            assert(suffix@[i as int] != text@.subrange(base as int, text@.len() as int)[i as int]);
            return None;
        }
        i += 1;
    }
    assert(suffix@ =~= text@.subrange(base as int, text@.len() as int));
    let rest = text.substring_char(0, base);
    assert(rest@ =~= text@.take(base as int));
    Some(rest)
}

/// The text that an optional slice holds.
pub open spec fn option_text(text: Option<&str>) -> Option<Text> {
    match text {
        Some(text) => Some(text@),
        None => None,
    }
}

/// `text` without the runs of `ch` at both ends.
pub fn trim_both<'a>(text: &'a str, ch: char) -> (trimmed: &'a str)
    ensures
        trimmed@ == trim_end(trim_start(text@, ch), ch),
{
    let chars = chars_of(text);
    let mut start: usize = 0;
    assert(text@.skip(0) =~= text@);
    while start < chars.len() && chars[start] == ch
        invariant
            start <= chars.len(),
            chars@ == text@,
            trim_start(text@, ch) == trim_start(text@.skip(start as int), ch),
        decreases chars.len() - start,
    {
        assert(text@.skip(start as int).drop_first() =~= text@.skip(start + 1));
        start += 1;
    }
    let mut end: usize = chars.len();
    assert(text@.subrange(start as int, end as int) =~= text@.skip(start as int));
    while end > start && chars[end - 1] == ch
        invariant
            start <= end <= chars.len(),
            chars@ == text@,
            trim_end(trim_start(text@, ch), ch) == trim_end(
                text@.subrange(start as int, end as int),
                ch,
            ),
        decreases end,
    {
        assert(text@.subrange(start as int, end as int).drop_last() =~= text@.subrange(
            start as int,
            end - 1,
        ));
        end -= 1;
    }
    text.substring_char(start, end)
}

/// The parts that are not empty.
pub fn non_empty<'a>(parts: &[&'a str]) -> (kept: Vec<&'a str>)
    ensures
        texts(kept@) == without_empty(texts(parts@)),
{
    let mut kept: Vec<&'a str> = Vec::new();
    let mut i: usize = 0;
    assert(texts(parts@).take(0) =~= Seq::empty());
    assert(texts(kept@) =~= Seq::empty());
    while i < parts.len()
        invariant
            i <= parts.len(),
            texts(kept@) == without_empty(texts(parts@).take(i as int)),
        decreases parts.len() - i,
    {
        let part = parts[i];
        let ghost upto = texts(parts@).take(i + 1);
        assert(upto.drop_last() =~= texts(parts@).take(i as int));
        assert(upto.last() == part@);
        if !part.is_empty() {
            let ghost before = kept@;
            kept.push(part);
            assert(texts(kept@) =~= texts(before).push(part@));
        }
        i += 1;
    }
    assert(texts(parts@).take(parts@.len() as int) =~= texts(parts@));
    kept
}

/// A string without white space at its ends.
pub fn trim_space<'a>(text: &'a str) -> (rest: &'a str)
    ensures
        rest@ == trimmed(text@),
{
    let chars = chars_of(text);
    let mut start: usize = 0;
    assert(text@.skip(0) =~= text@);
    while start < chars.len() && is_white_space(chars[start])
        invariant
            start <= chars.len(),
            chars@ == text@,
            trim_space_start(text@) == trim_space_start(text@.skip(start as int)),
        decreases chars.len() - start,
    {
        assert(text@.skip(start as int).drop_first() =~= text@.skip(start + 1));
        start += 1;
    }
    let mut end: usize = chars.len();
    assert(text@.subrange(start as int, end as int) =~= text@.skip(start as int));
    while end > start && is_white_space(chars[end - 1])
        invariant
            start <= end <= chars.len(),
            chars@ == text@,
            trimmed(text@) == trim_space_end(text@.subrange(start as int, end as int)),
        decreases end,
    {
        assert(text@.subrange(start as int, end as int).drop_last() =~= text@.subrange(
            start as int,
            end - 1,
        ));
        end -= 1;
    }
    text.substring_char(start, end)
}

/// One text after another.
pub fn concat2(first: &str, second: &str) -> (text: String)
    ensures
        text@ == first@ + second@,
{
    let mut text = first.to_owned();
    text.append(second);
    text
}

/// Three texts one after another.
pub fn concat3(first: &str, second: &str, third: &str) -> (text: String)
    ensures
        text@ == first@ + second@ + third@,
{
    let mut text = first.to_owned();
    text.append(second);
    text.append(third);
    text
}

} // verus!
