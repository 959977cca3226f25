//! Logs of JSON lines: how lines are written, and how many of the pending ones have
//! already arrived.

use vstd::prelude::*;
use vstd::utf8::encode_utf8;

use crate::encoding::utf8_text;
use crate::errno;
use crate::json::{json_lines, lines_of};
use crate::plan::{Action, JetStreamAction};
use crate::subjects::MaterializedTarget;
use crate::text::{string_texts, Text};

verus! {

/// The byte that ends a line.
pub const NEWLINE: u8 = 10;

/// A payload as one line of a log.
pub open spec fn line_bytes(payload: Seq<u8>) -> Seq<u8> {
    if payload.len() > 0 && payload.last() == NEWLINE {
        payload
    } else {
        payload.push(NEWLINE)
    }
}

/// The lines of a log, each with the newline that ends it.
pub open spec fn canonical_lines(text: Text) -> Seq<Seq<u8>> {
    lines_of(text).map_values(|line: Text| line_bytes(encode_utf8(line)))
}

/// How many elements two lists have in common at their beginning.
pub open spec fn common_prefix(left: Seq<Seq<u8>>, right: Seq<Seq<u8>>) -> nat
    decreases left.len(),
{
    if left.len() > 0 && right.len() > 0 && left[0] == right[0] {
        1 + common_prefix(left.drop_first(), right.drop_first())
    } else {
        0
    }
}

/// How many pending lines a log holds that had certain lines before: none where it no
/// longer begins with those.
pub open spec fn applied_prefix(
    base: Seq<Seq<u8>>,
    current: Seq<Seq<u8>>,
    pending: Seq<Seq<u8>>,
) -> nat {
    if base.is_prefix_of(current) {
        common_prefix(current.skip(base.len() as int), pending)
    } else {
        0
    }
}

/// The lines one after another.
pub open spec fn concatenated(lines: Seq<Seq<u8>>) -> Seq<u8>
    decreases lines.len(),
{
    if lines.len() == 0 {
        Seq::empty()
    } else {
        concatenated(lines.drop_last()) + lines.last()
    }
}

/// The bytes that lines hold.
pub open spec fn byte_models(lines: Seq<Vec<u8>>) -> Seq<Seq<u8>> {
    lines.map_values(|line: Vec<u8>| line@)
}

/// Whether an action appends lines to a log.
pub open spec fn publishes(action: Action) -> bool {
    action is PublishJsonLines || (action matches JetStreamAction::MaterializedPut { target }
        && target is Stream)
}

// ---------------------------------------------------------------------------
// Laws
// ---------------------------------------------------------------------------

/// What counts as applied really is there: the log goes on after its former lines
/// with that many of the pending lines.
pub proof fn law_applied_lines_are_in_the_log(
    base: Seq<Seq<u8>>,
    current: Seq<Seq<u8>>,
    pending: Seq<Seq<u8>>,
)
    ensures
        ({
            let applied = applied_prefix(base, current, pending);
            &&& applied <= pending.len()
            &&& applied > 0 ==> (base + pending.take(applied as int)).is_prefix_of(current)
        }),
{
    if base.is_prefix_of(current) {
        let rest = current.skip(base.len() as int);
        lemma_common_prefix(rest, pending);
        let applied = common_prefix(rest, pending);
        let whole = base + pending.take(applied as int);
        assert forall|i: int| 0 <= i < whole.len() implies whole[i] == current[i] by {
            if i >= base.len() {
                assert(rest[i - base.len()] == pending[i - base.len()]);
            }
        }
        assert(whole =~= current.subrange(0, whole.len() as int));
    }
}

/// A log that took all pending lines after its former ones counts all as applied.
pub proof fn law_full_append_is_fully_applied(base: Seq<Seq<u8>>, pending: Seq<Seq<u8>>)
    ensures
        applied_prefix(base, base + pending, pending) == pending.len(),
{
    let current = base + pending;
    assert(current.subrange(0, base.len() as int) =~= base);
    assert(current.skip(base.len() as int) =~= pending);
    lemma_common_prefix_self(pending);
}

/// The applied lines and the lines that are left are all the lines.
pub proof fn law_unapplied_lines_complete_the_applied(lines: Seq<Seq<u8>>, applied: int)
    requires
        0 <= applied <= lines.len(),
    ensures
        concatenated(lines.take(applied)) + concatenated(lines.skip(applied)) == concatenated(lines),
    decreases lines.len(),
{
    if applied == lines.len() {
        assert(lines.take(applied) =~= lines);
        assert(lines.skip(applied) =~= Seq::empty());
        assert(concatenated(lines) + Seq::<u8>::empty() =~= concatenated(lines));
    } else {
        let front = lines.drop_last();
        law_unapplied_lines_complete_the_applied(front, applied);
        assert(front.take(applied) =~= lines.take(applied));
        assert(front.skip(applied) =~= lines.skip(applied).drop_last());
        assert(lines.skip(applied).last() == lines.last());
        assert(concatenated(lines.take(applied)) + concatenated(lines.skip(applied))
            =~= concatenated(lines));
    }
}

proof fn lemma_common_prefix(left: Seq<Seq<u8>>, right: Seq<Seq<u8>>)
    ensures
        common_prefix(left, right) <= left.len(),
        common_prefix(left, right) <= right.len(),
        forall|i: int| 0 <= i < common_prefix(left, right) ==> left[i] == #[trigger] right[i],
    decreases left.len(),
{
    if left.len() > 0 && right.len() > 0 && left[0] == right[0] {
        let l = left.drop_first();
        let r = right.drop_first();
        lemma_common_prefix(l, r);
        assert forall|i: int| 0 <= i < common_prefix(left, right) implies left[i]
            == #[trigger] right[i] by {
            if i > 0 {
                assert(l[i - 1] == r[i - 1]);
            }
        }
    }
}

proof fn lemma_common_prefix_self(lines: Seq<Seq<u8>>)
    ensures
        common_prefix(lines, lines) == lines.len(),
    decreases lines.len(),
{
    if lines.len() > 0 {
        lemma_common_prefix_self(lines.drop_first());
    }
}

// ---------------------------------------------------------------------------
// Operations
// ---------------------------------------------------------------------------

/// Appends bytes to a vector.
pub fn append_bytes(output: &mut Vec<u8>, bytes: &[u8])
    ensures
        final(output)@ == old(output)@ + bytes@,
{
    let ghost before = output@;
    let mut i: usize = 0;
    while i < bytes.len()
        invariant
            i <= bytes.len(),
            output@ == before + bytes@.take(i as int),
        decreases bytes.len() - i,
    {
        output.push(bytes[i]);
        assert(output@ =~= before + bytes@.take(i + 1));
        i += 1;
    }
    assert(bytes@.take(bytes@.len() as int) =~= bytes@);
    assert(before + bytes@ =~= output@);
}

/// A vector with the bytes of a slice.
pub fn copy_bytes(bytes: &[u8]) -> (copy: Vec<u8>)
    ensures
        copy@ == bytes@,
{
    let mut copy: Vec<u8> = Vec::new();
    append_bytes(&mut copy, bytes);
    assert(copy@ =~= bytes@);
    copy
}

/// Whether two byte strings are the same.
pub fn same_bytes(left: &[u8], right: &[u8]) -> (same: bool)
    ensures
        same == (left@ == right@),
{
    if left.len() != right.len() {
        return false;
    }
    let mut i: usize = 0;
    while i < left.len()
        invariant
            i <= left.len(),
            left.len() == right.len(),
            forall|k: int| 0 <= k < i ==> left@[k] == right@[k],
        decreases left.len() - i,
    {
        if left[i] != right[i] {
            assert(left@[i as int] != right@[i as int]);
            return false;
        }
        i += 1;
    }
    assert(left@ =~= right@);
    true
}

/// Appends a payload as one line.
pub fn append_json_line(output: &mut Vec<u8>, payload: &[u8])
    ensures
        final(output)@ == old(output)@ + line_bytes(payload@),
{
    let ghost before = output@;
    append_bytes(output, payload);
    if payload.len() == 0 || payload[payload.len() - 1] != NEWLINE {
        output.push(NEWLINE);
        assert(output@ =~= before + payload@.push(NEWLINE));
    }
}

/// Whether an action appends lines to a log.
pub fn action_publishes_jsonl(action: &JetStreamAction) -> (yes: bool)
    ensures
        yes == publishes(action@),
{
    match action {
        JetStreamAction::PublishJsonLines { .. } => true,
        JetStreamAction::MaterializedPut { target } => match target {
            MaterializedTarget::Stream { .. } => true,
            MaterializedTarget::Kv { .. } => false,
        },
        _ => false,
    }
}

/// The lines of a log, each with the newline that ends it; `EINVAL` for bytes that
/// are not UTF-8.
pub fn jsonl_canonical_lines(path: &str, bytes: &[u8]) -> (result: Result<Vec<Vec<u8>>, i32>)
    ensures
        match (result, utf8_text(bytes@)) {
            (Ok(lines), Ok(text)) => byte_models(lines@) == canonical_lines(text),
            (Err(number), Err(_)) => number == errno::EINVAL,
            _ => false,
        },
{
    let lines = match json_lines(path, bytes) {
        Ok(lines) => lines,
        Err(error) => {
            return Err(error.errno().get());
        },
    };
    let mut canonical: Vec<Vec<u8>> = Vec::new();
    let mut i: usize = 0;
    while i < lines.len()
        invariant
            i <= lines.len(),
            canonical.len() == i,
            forall|k: int|
                0 <= k < i ==> (#[trigger] canonical[k])@ == line_bytes(encode_utf8(lines[k]@)),
        decreases lines.len() - i,
    {
        let mut line: Vec<u8> = Vec::new();
        append_json_line(&mut line, lines[i].as_str().as_bytes());
        assert(line@ =~= line_bytes(encode_utf8(lines[i as int]@)));
        canonical.push(line);
        i += 1;
    }
    proof {
        let text = utf8_text(bytes@)->Ok_0;
        assert(string_texts(lines@) == lines_of(text));
        assert forall|k: int| 0 <= k < lines.len() implies (#[trigger] lines_of(text)[k])
            == lines[k]@ by {
            assert(string_texts(lines@)[k] == lines[k]@);
        }
        assert(byte_models(canonical@) =~= canonical_lines(text));
    }
    Ok(canonical)
}

/// How many pending lines a log holds that had certain lines before; `EINVAL` where
/// any of the three is not UTF-8.
pub fn jsonl_applied_prefix_count(
    path: &str,
    base: &[u8],
    current: &[u8],
    pending: &[u8],
) -> (result: Result<usize, i32>)
    ensures
        match (utf8_text(base@), utf8_text(current@), utf8_text(pending@)) {
            (Ok(base), Ok(current), Ok(pending)) => result matches Ok(count) && count
                == applied_prefix(
                canonical_lines(base),
                canonical_lines(current),
                canonical_lines(pending),
            ),
            _ => result == Err::<usize, i32>(errno::EINVAL),
        },
{
    let base = jsonl_canonical_lines(path, base)?;
    let current = jsonl_canonical_lines(path, current)?;
    let pending = jsonl_canonical_lines(path, pending)?;
    Ok(applied_count(base.as_slice(), current.as_slice(), pending.as_slice()))
}

/// How many pending lines a log holds that had certain lines before.
pub fn applied_count(base: &[Vec<u8>], current: &[Vec<u8>], pending: &[Vec<u8>]) -> (count: usize)
    ensures
        count == applied_prefix(
            byte_models(base@),
            byte_models(current@),
            byte_models(pending@),
        ),
{
    let ghost b = byte_models(base@);
    let ghost c = byte_models(current@);
    let ghost p = byte_models(pending@);
    if current.len() < base.len() {
        return 0;
    }
    let mut i: usize = 0;
    while i < base.len()
        invariant
            i <= base.len() <= current.len(),
            b == byte_models(base@),
            c == byte_models(current@),
            p == byte_models(pending@),
            forall|k: int| 0 <= k < i ==> b[k] == c[k],
        decreases base.len() - i,
    {
        assert(b[i as int] == base@[i as int]@);
        assert(c[i as int] == current@[i as int]@);
        if !same_bytes(base[i].as_slice(), current[i].as_slice()) {
            assert(b[i as int] != c.subrange(0, b.len() as int)[i as int]);
            return 0;
        }
        i += 1;
    }
    assert(b =~= c.subrange(0, b.len() as int));
    let ghost rest = c.skip(b.len() as int);
    let start = base.len();
    let mut count: usize = 0;
    assert(rest.skip(0) =~= rest);
    assert(p.skip(0) =~= p);
    loop
        invariant
            start + count <= current.len(),
            count <= pending.len(),
            start == base.len(),
            b == byte_models(base@),
            c == byte_models(current@),
            p == byte_models(pending@),
            b.is_prefix_of(c),
            rest == c.skip(b.len() as int),
            common_prefix(rest, p) == count + common_prefix(
                rest.skip(count as int),
                p.skip(count as int),
            ),
        decreases pending.len() - count,
    {
        if count >= pending.len() || count >= current.len() - start {
            return count;
        }
        assert(rest.skip(count as int)[0] == current@[start + count]@);
        assert(p.skip(count as int)[0] == pending@[count as int]@);
        if !same_bytes(current[start + count].as_slice(), pending[count].as_slice()) {
            return count;
        }
        assert(rest.skip(count as int).drop_first() =~= rest.skip(count + 1));
        assert(p.skip(count as int).drop_first() =~= p.skip(count + 1));
        count += 1;
    }
}

/// The bytes of the lines after the applied ones; `EINVAL` for bytes that are not
/// UTF-8.
pub fn unapplied_jsonl_bytes(path: &str, bytes: &[u8], applied_lines: usize) -> (result: Result<
    Vec<u8>,
    i32,
>)
    ensures
        match utf8_text(bytes@) {
            Ok(text) => result matches Ok(rest) && rest@ == unapplied(text, applied_lines as nat),
            Err(_) => result == Err::<Vec<u8>, i32>(errno::EINVAL),
        },
{
    let lines = jsonl_canonical_lines(path, bytes)?;
    let ghost models = byte_models(lines@);
    let mut output: Vec<u8> = Vec::new();
    if applied_lines >= lines.len() {
        return Ok(output);
    }
    let ghost rest = models.skip(applied_lines as int);
    let mut i: usize = applied_lines;
    assert(rest.take(0) =~= Seq::empty());
    while i < lines.len()
        invariant
            applied_lines <= i <= lines.len(),
            models == byte_models(lines@),
            rest == models.skip(applied_lines as int),
            output@ == concatenated(rest.take(i - applied_lines)),
        decreases lines.len() - i,
    {
        let ghost upto = rest.take(i - applied_lines + 1);
        assert(upto.drop_last() =~= rest.take(i - applied_lines));
        assert(upto.last() == lines@[i as int]@);
        append_bytes(&mut output, lines[i].as_slice());
        i += 1;
    }
    assert(rest.take(rest.len() as int) =~= rest);
    Ok(output)
}

/// The bytes of the lines of a log after the first ones.
pub open spec fn unapplied(text: Text, applied: nat) -> Seq<u8> {
    let lines = canonical_lines(text);
    if applied >= lines.len() {
        Seq::empty()
    } else {
        concatenated(lines.skip(applied as int))
    }
}

} // verus!
