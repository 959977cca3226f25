//! What holds of the mount as a whole: what was written is read back, whether it was
//! stored or queued, and queued files show where they belong.

use vstd::prelude::*;

use crate::commit::memory_after;
use crate::directories::{
    deleted_from, fixed_entries, is_exact_file, known_visible, maybe_visible, merged, overlaid_from,
    with_entries, with_entries_in_order,
};
use crate::documents::MountStatus;
use crate::durable::collected;
use crate::encoding::utf8_text;
use crate::errno::ENOENT;
use crate::entries::{
    law_with_entry_lists_each_name_once, law_without_name_removes_only_that_name,
    lemma_place_of_name, lists_file, lists_name, place_after, place_of_name, sequence_of,
    with_entry_in_order, without_name, DirectoryEntry, Entry, EntryKind,
};
use crate::files::{content, durably_applied, larger, stored_log, with_queued_lines};
use crate::inquiry::{
    Message, ObjectContent, Pause, Remembered, Reply, Revision, Stop, StorageFailure, Talk,
};
use crate::jsonl::{line_bytes, unapplied};
use crate::kinds::{file_metadata, kind_of, measured};
use crate::mount_paths::{descends, mount_text, Components};
use crate::overlay::{
    can_vanish, child_of, law_latest_write_decides, lemma_place_after, lines_of_fact,
    queued_entries, queued_lines, whole_value, with_children, Fact, FileSnapshot,
    PendingWritePayload, QueuedLines, Snapshot,
};
use crate::path::JetStreamPath;
use crate::path_cache::Row;
use crate::plan::{Action, JetStreamAction};
use crate::subjects::MaterializedTarget;
use crate::text::Text;
use crate::versions::{later_stamp, later_time, Time, VersionStamp};

verus! {

/// A whole value that was queued last is what its path holds: it is a file of that
/// content, size and version, under every path that shows it, and no question is asked.
pub proof fn law_queued_value_is_read_back(
    talk: Talk,
    facts: Seq<Fact>,
    fact: Fact,
    bytes: Seq<u8>,
    status: MountStatus,
    mounted_at: Time,
    stale: bool,
    row: Option<Row>,
    parsed: JetStreamPath<Text>,
    path: Components,
)
    requires
        fact.visible.contains(path),
        !fact.deleted.contains(path),
        fact.payload == PendingWritePayload::<Text, Seq<u8>>::WholeValue(bytes),
    ensures
        ({
            let snapshot = FileSnapshot { bytes, version: fact.version };
            let queue = facts.push(fact);
            &&& content(talk, queue, status, mounted_at, parsed, path) == (
                Ok::<Snapshot, Stop>(snapshot),
                talk,
            )
            &&& file_metadata(talk, queue, status, mounted_at, parsed, path).0 == Ok::<_, Stop>(
                measured(snapshot),
            )
            &&& kind_of(talk, queue, stale, row, parsed, path).0.0 == Ok::<EntryKind, Stop>(
                EntryKind::File,
            )
        }),
{
    law_latest_write_decides(facts, fact, path);
}

/// A move that was queued last shows at its target and no longer at its source.
pub proof fn law_queued_move_shows_at_its_target(
    talk: Talk,
    facts: Seq<Fact>,
    fact: Fact,
    bytes: Seq<u8>,
    status: MountStatus,
    mounted_at: Time,
    parsed: JetStreamPath<Text>,
    from: Components,
    to: Components,
)
    requires
        fact.visible.contains(to),
        !fact.deleted.contains(to),
        fact.deleted.contains(from),
        fact.payload == PendingWritePayload::<Text, Seq<u8>>::WholeValue(bytes),
    ensures
        content(talk, facts.push(fact), status, mounted_at, parsed, to) == (
            Ok::<Snapshot, Stop>(FileSnapshot { bytes, version: fact.version }),
            talk,
        ),
        content(talk, facts.push(fact), status, mounted_at, parsed, from) == (
            Err::<Snapshot, Stop>(Pause::Fail(ENOENT)),
            talk,
        ),
{
    law_latest_write_decides(facts, fact, to);
    law_latest_write_decides(facts, fact, from);
}

proof fn lemma_lines_at_the_end(
    talk: Talk,
    entries: Seq<QueuedLines>,
    entry: QueuedLines,
    bytes: Seq<u8>,
    newest: Option<VersionStamp>,
    text: Text,
)
    requires
        utf8_text(entry.bytes) == Ok::<Text, Text>(text),
        with_queued_lines(talk, entries, bytes, newest).0 is Ok,
        durably_applied(with_queued_lines(talk, entries, bytes, newest).1, entry).0 is Ok,
    ensures
        ({
            let (before, between) = with_queued_lines(talk, entries, bytes, newest);
            let (applied, after) = durably_applied(between, entry);
            with_queued_lines(talk, entries.push(entry), bytes, newest) == (
                Ok::<_, Stop>(
                    (
                        before->Ok_0.0 + unapplied(
                            text,
                            larger(applied->Ok_0, entry.applied_lines) as nat,
                        ),
                        Some(later_stamp(before->Ok_0.1, entry.version)),
                    ),
                ),
                after,
            )
        }),
    decreases entries.len(),
{
    reveal_with_fuel(with_queued_lines, 2);
    let longer = entries.push(entry);
    if entries.len() == 0 {
        assert(longer.drop_first() =~= Seq::empty());
    } else {
        let (applied, next) = durably_applied(talk, entries[0]);
        assert(longer[0] == entries[0]);
        assert(longer.drop_first() =~= entries.drop_first().push(entry));
        lemma_lines_at_the_end(
            next,
            entries.drop_first(),
            entry,
            bytes + unapplied(
                utf8_text(entries[0].bytes)->Ok_0,
                larger(applied->Ok_0, entries[0].applied_lines) as nat,
            ),
            Some(later_stamp(newest, entries[0].version)),
            text,
        );
    }
}

/// Lines that were queued last for a log are read at its end, behind what the log holds
/// and the lines that were queued before, without those that the log has taken already.
pub proof fn law_queued_lines_are_read_back(
    talk: Talk,
    facts: Seq<Fact>,
    fact: Fact,
    lines: QueuedLines,
    text: Text,
    status: MountStatus,
    mounted_at: Time,
    parsed: JetStreamPath<Text>,
    path: Components,
)
    requires
        whole_value(facts, path) is None,
        !fact.deleted.contains(path),
        lines_of_fact(fact, path) == Some(lines),
        utf8_text(lines.bytes) == Ok::<Text, Text>(text),
        ({
            let (stored, talk) = stored_log(talk, parsed, path, mounted_at);
            let (log, talk) = with_queued_lines(
                talk,
                queued_lines(facts, path),
                stored->Ok_0.bytes,
                None,
            );
            stored is Ok && log is Ok && durably_applied(talk, lines).0 is Ok
        }),
    ensures
        ({
            let (stored, between) = stored_log(talk, parsed, path, mounted_at);
            let (log, before) = with_queued_lines(
                between,
                queued_lines(facts, path),
                stored->Ok_0.bytes,
                None,
            );
            let (applied, after) = durably_applied(before, lines);
            content(talk, facts.push(fact), status, mounted_at, parsed, path) == (
                Ok::<Snapshot, Stop>(
                    FileSnapshot {
                        bytes: log->Ok_0.0 + unapplied(
                            text,
                            larger(applied->Ok_0, lines.applied_lines) as nat,
                        ),
                        version: later_stamp(
                            Some(stored->Ok_0.version),
                            later_stamp(log->Ok_0.1, lines.version),
                        ),
                    },
                ),
                after,
            )
        }),
{
    let queue = facts.push(fact);
    law_latest_write_decides(facts, fact, path);
    assert(queue.drop_last() =~= facts);
    assert(queue.last() == fact);
    assert(queued_lines(queue, path) =~= queued_lines(facts, path).push(lines));
    let (stored, between) = stored_log(talk, parsed, path, mounted_at);
    lemma_lines_at_the_end(
        between,
        queued_lines(facts, path),
        lines,
        stored->Ok_0.bytes,
        None,
        text,
    );
}

/// What was stored is read back: where the storage holds what was put into it, that is
/// what is remembered of the path, and a file that is still remembered is read as it
/// was written.
pub proof fn law_stored_write_is_read_back(
    talk: Talk,
    path: Components,
    action: Action,
    bytes: Seq<u8>,
    entry: Remembered,
    later: Talk,
    status: MountStatus,
    mounted_at: Time,
    parsed: JetStreamPath<Text>,
)
    requires
        memory_after(talk, path, action, bytes).0 == Ok::<_, Stop>(
            Ok::<_, StorageFailure<Text>>(Some(entry)),
        ),
        match action {
            JetStreamAction::KvPut { .. } | JetStreamAction::MaterializedPut {
                target: MaterializedTarget::Kv { .. },
            } => talk.replies[talk.used as int] matches Reply::Value(Some(value)) && value.bytes
                == bytes,
            _ => true,
        },
        later.used < later.replies.len(),
        later.replies[later.used as int] == Reply::Cached(
            Some(FileSnapshot { bytes: entry.bytes, version: entry.version }),
        ),
    ensures
        entry.path == mount_text(path),
        entry.bytes == bytes,
        content(later, Seq::empty(), status, mounted_at, parsed, path) == (
            Ok::<Snapshot, Stop>(FileSnapshot { bytes, version: entry.version }),
            later.heard(),
        ),
{
}

/// The storage is the system of record: with nothing queued and nothing remembered, a
/// key's file holds what the storage has under the key, and an object's file what the
/// storage has as the object. It is then remembered under its path.
pub proof fn law_storage_is_the_system_of_record(
    talk: Talk,
    status: MountStatus,
    mounted_at: Time,
    bucket: Text,
    name: Text,
    path: Components,
    value: Revision,
    object: ObjectContent,
)
    requires
        talk.used + 2 < talk.replies.len(),
        talk.replies[talk.used as int] == Reply::Cached(None),
        talk.replies[talk.used as int + 2] == Reply::Done,
    ensures
        talk.replies[talk.used as int + 1] == Reply::Value(Some(value)) ==> content(
            talk,
            Seq::empty(),
            status,
            mounted_at,
            JetStreamPath::KvKey { bucket, key: name },
            path,
        ).0 == Ok::<Snapshot, Stop>(
            FileSnapshot { bytes: value.bytes, version: VersionStamp::of(value.created) },
        ),
        talk.replies[talk.used as int + 1] == Reply::Object(Some(object)) ==> content(
            talk,
            Seq::empty(),
            status,
            mounted_at,
            JetStreamPath::Object { bucket, object: name },
            path,
        ).0 == Ok::<Snapshot, Stop>(
            FileSnapshot { bytes: object.bytes, version: VersionStamp::of(object.modified) },
        ),
{
    assert(queued_lines(Seq::empty(), path) =~= Seq::empty());
}

/// The lines of the messages of a subject, in the order of the messages.
pub open spec fn subject_lines(messages: Seq<Message>, subject: Text) -> Seq<u8>
    decreases messages.len(),
{
    if messages.len() == 0 {
        Seq::empty()
    } else if messages[0].subject == subject {
        line_bytes(messages[0].payload) + subject_lines(messages.drop_first(), subject)
    } else {
        subject_lines(messages.drop_first(), subject)
    }
}

/// A log holds the payload of each message of its subject as a line, in the order of
/// the stream, and nothing of other subjects.
pub proof fn law_logs_hold_the_messages_of_their_subject(
    talk: Talk,
    stream: Text,
    subject: Text,
    entries: Seq<Entry>,
    messages: Seq<Message>,
    bytes: Seq<u8>,
    newest: Option<Time>,
)
    requires
        entries.len() == messages.len(),
        forall|i: int| 0 <= i < entries.len() ==> sequence_of(#[trigger] entries[i]) is Some,
        talk.used + messages.len() <= talk.replies.len(),
        forall|i: int|
            0 <= i < messages.len() ==> talk.replies[talk.used + i] == Reply::Message(
                #[trigger] messages[i],
            ),
    ensures
        collected(talk, stream, subject, entries, bytes, newest).0 matches Ok(log) && log.0 == bytes
            + subject_lines(messages, subject),
    decreases entries.len(),
{
    if entries.len() > 0 {
        let rest = messages.drop_first();
        let others = entries.drop_first();
        let next = talk.heard();
        assert(talk.replies[talk.used as int] == Reply::Message(messages[0]));
        assert forall|i: int| 0 <= i < rest.len() implies next.replies[next.used + i]
            == Reply::Message(#[trigger] rest[i]) by {
            assert(rest[i] == messages[i + 1]);
        }
        assert forall|i: int| 0 <= i < others.len() implies sequence_of(
            #[trigger] others[i],
        ) is Some by {
            assert(others[i] == entries[i + 1]);
        }
        if messages[0].subject == subject {
            let line = line_bytes(messages[0].payload);
            law_logs_hold_the_messages_of_their_subject(
                next,
                stream,
                subject,
                others,
                rest,
                bytes + line,
                Some(later_time(newest, messages[0].published)),
            );
            assert(bytes + line + subject_lines(rest, subject) =~= bytes + subject_lines(
                messages,
                subject,
            ));
        } else {
            law_logs_hold_the_messages_of_their_subject(
                next,
                stream,
                subject,
                others,
                rest,
                bytes,
                newest,
            );
        }
    } else {
        assert(bytes + subject_lines(messages, subject) =~= bytes);
    }
}

// ---------------------------------------------------------------------------
// Listings
// ---------------------------------------------------------------------------

proof fn lemma_with_children(
    entries: Seq<Entry>,
    directory: Components,
    paths: Seq<Components>,
    name: Text,
)
    ensures
        lists_name(with_children(entries, directory, paths), name) == (lists_name(entries, name)
            || exists|i: int|
            0 <= i < paths.len() && descends(#[trigger] paths[i], directory)
                && paths[i][directory.len() as int] == name),
    decreases paths.len(),
{
    if paths.len() > 0 {
        let front = paths.drop_last();
        let before = with_children(entries, directory, front);
        lemma_with_children(entries, directory, front, name);
        assert forall|i: int| 0 <= i < front.len() implies front[i] == #[trigger] paths[i] by {}
        match child_of(directory, paths.last()) {
            Some(child) => {
                law_with_entry_lists_each_name_once(before, child, name);
                assert(paths[paths.len() - 1] == paths.last());
            },
            None => {},
        }
        if exists|i: int|
            0 <= i < paths.len() && descends(#[trigger] paths[i], directory)
                && paths[i][directory.len() as int] == name {
            let i = choose|i: int|
                0 <= i < paths.len() && descends(#[trigger] paths[i], directory)
                    && paths[i][directory.len() as int] == name;
            if i < front.len() {
                assert(descends(front[i], directory));
            }
        }
    }
}

proof fn lemma_overlaid_ends_with_the_last(
    talk: Talk,
    facts: Seq<Fact>,
    f: nat,
    path: Components,
    entries: Seq<Entry>,
) -> (before: (Talk, Seq<Entry>))
    requires
        f < facts.len(),
        overlaid_from(talk, facts, f, path, entries).0 is Ok,
    ensures
        ({
            let last = (facts.len() - 1) as nat;
            let kept = deleted_from(before.0, facts, last, 0, path, before.1).0;
            &&& kept is Ok
            &&& overlaid_from(talk, facts, f, path, entries).0 == Ok::<Seq<Entry>, Stop>(
                with_children(kept->Ok_0, path, facts.last().visible),
            )
        }),
    decreases facts.len() - f,
{
    let (kept, next) = deleted_from(talk, facts, f, 0, path, entries);
    if f + 1 == facts.len() {
        assert(overlaid_from(
            next,
            facts,
            f + 1,
            path,
            with_children(kept->Ok_0, path, facts[f as int].visible),
        ).0 == Ok::<Seq<Entry>, Stop>(with_children(kept->Ok_0, path, facts[f as int].visible)));
        (talk, entries)
    } else {
        lemma_overlaid_ends_with_the_last(
            next,
            facts,
            f + 1,
            path,
            with_children(kept->Ok_0, path, facts[f as int].visible),
        )
    }
}

/// What the latest queued write makes visible below a directory is listed there.
pub proof fn law_latest_queued_write_is_listed(
    talk: Talk,
    facts: Seq<Fact>,
    fact: Fact,
    parsed: JetStreamPath<Text>,
    directory: Components,
    stored: Result<Seq<Entry>, Stop>,
    path: Components,
)
    requires
        fact.visible.contains(path),
        descends(path, directory),
        merged(talk, facts.push(fact), parsed, directory, stored).0 is Ok,
    ensures
        lists_name(
            merged(talk, facts.push(fact), parsed, directory, stored).0->Ok_0,
            path[directory.len() as int],
        ),
{
    let queue = facts.push(fact);
    let name = path[directory.len() as int];
    assert(queue.last() == fact);
    let queued = queued_entries(queue, directory);
    let first = match stored {
        Ok(stored) => with_entries(with_entries_in_order(stored, fixed_entries(parsed)), queued),
        Err(_) => with_entries_in_order(fixed_entries(parsed), queued),
    };
    let before = lemma_overlaid_ends_with_the_last(talk, queue, 0, directory, first);
    let kept = deleted_from(before.0, queue, facts.len(), 0, directory, before.1).0->Ok_0;
    lemma_with_children(kept, directory, fact.visible, name);
    let i = choose|i: int| 0 <= i < fact.visible.len() && fact.visible[i] == path;
    assert(descends(fact.visible[i], directory));
}

proof fn lemma_entry_in_order(entries: Seq<Entry>, entry: Entry, name: Text)
    ensures
        lists_name(with_entry_in_order(entries, entry), name) ==> lists_name(entries, name) || name
            == entry.name,
{
    lemma_place_of_name(entries, entry.name);
    let after = with_entry_in_order(entries, entry);
    if lists_name(after, name) && name != entry.name {
        let i = choose|i: int| 0 <= i < after.len() && (#[trigger] after[i]).name == name;
        if place_of_name(entries, entry.name) < entries.len() {
            assert(entries[i].name == name);
        } else {
            let at = place_after(entries, entry.name);
            lemma_place_after(entries, entry.name);
            if i < at {
                assert(entries[i].name == name);
            } else {
                assert(after[i] == entries[i - 1]);
                assert(entries[i - 1].name == name);
            }
        }
    }
}

proof fn lemma_removals_keep_absent(
    talk: Talk,
    facts: Seq<Fact>,
    f: nat,
    k: nat,
    path: Components,
    entries: Seq<Entry>,
    name: Text,
)
    requires
        f < facts.len(),
        !lists_name(entries, name),
        !can_vanish(path.push(name)),
        deleted_from(talk, facts, f, k, path, entries).0 is Ok,
    ensures
        !lists_name(deleted_from(talk, facts, f, k, path, entries).0->Ok_0, name),
    decreases facts[f as int].deleted.len() - k,
{
    if k < facts[f as int].deleted.len() {
        match child_of(path, facts[f as int].deleted[k as int]) {
            None => {
                lemma_removals_keep_absent(talk, facts, f, k + 1, path, entries, name);
            },
            Some(child) => {
                let fewer = without_name(entries, child.name);
                let more = with_entry_in_order(
                    entries,
                    DirectoryEntry { name: child.name, kind: EntryKind::Directory },
                );
                let below = path.push(child.name);
                law_without_name_removes_only_that_name(entries, child.name, name);
                match child.kind {
                    EntryKind::File => {
                        let (reveals, next) = if can_vanish(below) {
                            known_visible(talk, facts, below)
                        } else {
                            (Ok(false), talk)
                        };
                        if reveals == Ok::<bool, Stop>(true) {
                            lemma_entry_in_order(
                                entries,
                                DirectoryEntry { name: child.name, kind: EntryKind::Directory },
                                name,
                            );
                            lemma_removals_keep_absent(next, facts, f, k + 1, path, more, name);
                        } else {
                            lemma_removals_keep_absent(next, facts, f, k + 1, path, fewer, name);
                        }
                    },
                    EntryKind::Directory => {
                        let (stays, next) = if !can_vanish(below) || lists_file(
                            entries,
                            child.name,
                        ) {
                            (Ok(true), talk)
                        } else {
                            let (file, next) = is_exact_file(talk, below);
                            match file {
                                Err(stop) => (Err(stop), next),
                                Ok(true) => (Ok(true), next),
                                Ok(false) => maybe_visible(next, facts, below),
                            }
                        };
                        if stays == Ok::<bool, Stop>(true) {
                            lemma_removals_keep_absent(next, facts, f, k + 1, path, entries, name);
                        } else {
                            lemma_removals_keep_absent(next, facts, f, k + 1, path, fewer, name);
                        }
                    },
                }
            },
        }
    }
}

proof fn lemma_removals_remove(
    talk: Talk,
    facts: Seq<Fact>,
    f: nat,
    k: nat,
    j: int,
    path: Components,
    entries: Seq<Entry>,
    name: Text,
)
    requires
        f < facts.len(),
        k <= j < facts[f as int].deleted.len(),
        facts[f as int].deleted[j] == path.push(name),
        !can_vanish(path.push(name)),
        deleted_from(talk, facts, f, k, path, entries).0 is Ok,
    ensures
        !lists_name(deleted_from(talk, facts, f, k, path, entries).0->Ok_0, name),
    decreases j - k,
{
    let removed = facts[f as int].deleted[k as int];
    if k == j {
        assert(path.push(name).take(path.len() as int) =~= path);
        law_without_name_removes_only_that_name(entries, name, name);
        lemma_removals_keep_absent(
            talk,
            facts,
            f,
            k + 1,
            path,
            without_name(entries, name),
            name,
        );
    } else {
        match child_of(path, removed) {
            None => {
                lemma_removals_remove(talk, facts, f, k + 1, j, path, entries, name);
            },
            Some(child) => {
                let fewer = without_name(entries, child.name);
                let more = with_entry_in_order(
                    entries,
                    DirectoryEntry { name: child.name, kind: EntryKind::Directory },
                );
                let below = path.push(child.name);
                match child.kind {
                    EntryKind::File => {
                        let (reveals, next) = if can_vanish(below) {
                            known_visible(talk, facts, below)
                        } else {
                            (Ok(false), talk)
                        };
                        if reveals == Ok::<bool, Stop>(true) {
                            lemma_removals_remove(next, facts, f, k + 1, j, path, more, name);
                        } else {
                            lemma_removals_remove(next, facts, f, k + 1, j, path, fewer, name);
                        }
                    },
                    EntryKind::Directory => {
                        let (stays, next) = if !can_vanish(below) || lists_file(
                            entries,
                            child.name,
                        ) {
                            (Ok(true), talk)
                        } else {
                            let (file, next) = is_exact_file(talk, below);
                            match file {
                                Err(stop) => (Err(stop), next),
                                Ok(true) => (Ok(true), next),
                                Ok(false) => maybe_visible(next, facts, below),
                            }
                        };
                        if stays == Ok::<bool, Stop>(true) {
                            lemma_removals_remove(next, facts, f, k + 1, j, path, entries, name);
                        } else {
                            lemma_removals_remove(next, facts, f, k + 1, j, path, fewer, name);
                        }
                    },
                }
            },
        }
    }
}

/// A file that the latest queued write removes is not listed, unless that write puts
/// something below its path or the path can be a directory through what lies below it.
pub proof fn law_latest_queued_removal_is_not_listed(
    talk: Talk,
    facts: Seq<Fact>,
    fact: Fact,
    parsed: JetStreamPath<Text>,
    directory: Components,
    stored: Result<Seq<Entry>, Stop>,
    name: Text,
)
    requires
        fact.deleted.contains(directory.push(name)),
        !can_vanish(directory.push(name)),
        forall|i: int|
            0 <= i < fact.visible.len() && descends(#[trigger] fact.visible[i], directory)
                ==> fact.visible[i][directory.len() as int] != name,
        merged(talk, facts.push(fact), parsed, directory, stored).0 is Ok,
    ensures
        !lists_name(merged(talk, facts.push(fact), parsed, directory, stored).0->Ok_0, name),
{
    let queue = facts.push(fact);
    assert(queue.last() == fact);
    let queued = queued_entries(queue, directory);
    let first = match stored {
        Ok(stored) => with_entries(with_entries_in_order(stored, fixed_entries(parsed)), queued),
        Err(_) => with_entries_in_order(fixed_entries(parsed), queued),
    };
    let before = lemma_overlaid_ends_with_the_last(talk, queue, 0, directory, first);
    let kept = deleted_from(before.0, queue, facts.len(), 0, directory, before.1).0->Ok_0;
    let j = choose|j: int| 0 <= j < fact.deleted.len() && fact.deleted[j] == directory.push(name);
    lemma_removals_remove(before.0, queue, facts.len(), 0, j, directory, before.1, name);
    lemma_with_children(kept, directory, fact.visible, name);
}

} // verus!
