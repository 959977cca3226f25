//! What logs come to: a log holds the lines of its subject, in the order of the stream, and
//! lines that are committed to it are appended or queued.

use vstd::prelude::*;

use crate::affected::StorageFact;
use crate::commit::{committed, lines_taken, log_now, progress, put_off};
use crate::commit_laws::{
    can_go_stale, committing, lemma_invalidated, lemma_queued, made_stale, queueing,
    queueing_operation, same_content, settles,
};
use crate::directories::unavailable;
use crate::documents::MountStatus;
use crate::durable::{collected, subject_known, subject_log};
use crate::encoding::utf8_text;
use crate::entries::{lists_name, sequence_of, Entry};
use crate::errno;
use crate::errors::EventFsError;
use crate::file_names::subject_file_name;
use crate::files::{empty_log, remembering, with_queued_lines};
use crate::inquiry::{
    CacheOrigin, FailedWrite, FailedWriteOperation, Message, Pause, QueuedWrite, Request, Step,
    Stop, StorageFailure, StorageRequest, Talk,
};
use crate::json::lines_complaint;
use crate::jsonl::{canonical_lines, common_prefix, line_bytes, unapplied};
use crate::keys::write_key;
use crate::mount_paths::{mount_text, Components};
use crate::numbers::signed_decimal;
use crate::overlay::{deleted, queued_lines, whole_value, Fact, FileSnapshot, QueuedLines, Snapshot};
use crate::path::JetStreamPath;
use crate::path_laws::law_parsed_paths_are_valid;
use crate::plan::{write_plan, Action, JetStreamAction};
use crate::read_laws::{
    attentive, lemma_remembering, lemma_unqueued_read, memory_entry, reading, reading_stored,
    recall, remembered, unqueued,
};
use crate::store::{entry_of, lemma_end, lemma_goes_on, lemma_turn, run, Appended, Store};
use crate::text::Text;
use crate::upkeep::{failure_text, gate_passed, invalidated};
use crate::versions::{later_stamp, later_time, Time, VersionStamp};

verus! {

// ---------------------------------------------------------------------------
// The lines of a subject
// ---------------------------------------------------------------------------

/// The messages of a subject among the listed ones, in order.
pub open spec fn messages_of(store: Store, stream: Text, subject: Text, entries: Seq<Entry>) -> Seq<
    Message,
>
    decreases entries.len(),
{
    if entries.len() == 0 {
        Seq::empty()
    } else {
        let rest = messages_of(store, stream, subject, entries.drop_first());
        match sequence_of(entries[0]) {
            Some(sequence) if store.messages[(stream, sequence)].subject == subject => seq![
                store.messages[(stream, sequence)],
            ] + rest,
            _ => rest,
        }
    }
}

/// The payloads of messages as lines, one after another.
pub open spec fn joined(messages: Seq<Message>) -> Seq<u8>
    decreases messages.len(),
{
    if messages.len() == 0 {
        Seq::empty()
    } else {
        line_bytes(messages[0].payload) + joined(messages.drop_first())
    }
}

/// The time of the latest message, or of a given one that is later.
spec fn latest(newest: Option<Time>, messages: Seq<Message>) -> Option<Time>
    decreases messages.len(),
{
    if messages.len() == 0 {
        newest
    } else {
        latest(Some(later_time(newest, messages[0].published)), messages.drop_first())
    }
}

/// Whether messages were last published at a time: one was published then, and none later.
/// Without messages it is the given time.
pub open spec fn last_published(messages: Seq<Message>, otherwise: Time, time: Time) -> bool {
    if messages.len() == 0 {
        time == otherwise
    } else {
        &&& exists|i: int| 0 <= i < messages.len() && (#[trigger] messages[i]).published == time
        &&& forall|i: int| 0 <= i < messages.len() ==> (#[trigger] messages[i]).published <= time
    }
}

proof fn lemma_latest(newest: Time, messages: Seq<Message>)
    ensures
        latest(Some(newest), messages) matches Some(time) && time >= newest && (forall|i: int|
            0 <= i < messages.len() ==> (#[trigger] messages[i]).published <= time) && (time
            == newest || exists|i: int|
            0 <= i < messages.len() && (#[trigger] messages[i]).published == time),
    decreases messages.len(),
{
    if messages.len() > 0 {
        let rest = messages.drop_first();
        let first = messages[0].published;
        let newer = later_time(Some(newest), first);
        lemma_latest(newer, rest);
        let time = latest(Some(newer), rest).unwrap();
        assert forall|i: int| 0 <= i < messages.len() implies (#[trigger] messages[i]).published
            <= time by {
            if i > 0 {
                assert(rest[i - 1] == messages[i]);
            }
        }
        if time != newer {
            let i = choose|i: int| 0 <= i < rest.len() && (#[trigger] rest[i]).published == time;
            assert(messages[i + 1] == rest[i]);
        }
    }
}

/// The log of a subject, and its date.
spec fn log_of(store: Store, stream: Text, subject: Text, mounted_at: Time) -> Snapshot {
    let messages = messages_of(store, stream, subject, listed(store, stream));
    FileSnapshot {
        bytes: joined(messages),
        version: VersionStamp::of(
            match latest(None, messages) {
                Some(newest) => newest,
                None => mounted_at,
            },
        ),
    }
}

/// The messages that a stream lists: none where there is no such stream.
pub open spec fn listed(store: Store, stream: Text) -> Seq<Entry> {
    let request = StorageRequest::ListStreamMessages { stream };
    if store.grants(request) {
        (store.listed)(request)
    } else {
        Seq::empty()
    }
}

/// The lines of a subject as a log.
pub open spec fn log_bytes(store: Store, stream: Text, subject: Text) -> Seq<u8> {
    joined(messages_of(store, stream, subject, listed(store, stream)))
}

/// Whether a file holds the lines of a subject and is dated by the latest of them, or by
/// the mount where there are none.
pub open spec fn shows_log(
    store: Store,
    stream: Text,
    subject: Text,
    mounted_at: Time,
    snapshot: Snapshot,
) -> bool {
    let messages = messages_of(store, stream, subject, listed(store, stream));
    &&& snapshot.bytes == joined(messages)
    &&& exists|time: Time|
        #[trigger] last_published(messages, mounted_at, time) && snapshot.version
            == VersionStamp::of(time)
}

proof fn lemma_log_of(store: Store, stream: Text, subject: Text, mounted_at: Time)
    ensures
        shows_log(store, stream, subject, mounted_at, log_of(store, stream, subject, mounted_at)),
{
    let messages = messages_of(store, stream, subject, listed(store, stream));
    if messages.len() == 0 {
        assert(last_published(messages, mounted_at, mounted_at));
    } else {
        let rest = messages.drop_first();
        let first = messages[0].published;
        lemma_latest(first, rest);
        let time = latest(None, messages).unwrap();
        assert(time == latest(Some(first), rest).unwrap());
        assert forall|i: int| 0 <= i < messages.len() implies (#[trigger] messages[i]).published
            <= time by {
            if i > 0 {
                assert(rest[i - 1] == messages[i]);
            }
        }
        if time != first {
            let i = choose|i: int| 0 <= i < rest.len() && (#[trigger] rest[i]).published == time;
            assert(messages[i + 1] == rest[i]);
        }
        assert(last_published(messages, mounted_at, time));
    }
}

/// Whether the listed messages of a stream are there and can be had.
pub open spec fn legible(store: Store, stream: Text, entries: Seq<Entry>) -> bool {
    forall|i: int|
        0 <= i < entries.len() ==> (sequence_of(#[trigger] entries[i]) matches Some(sequence)
            ==> store.grants(StorageRequest::StreamMessage { stream, sequence })
            && store.messages.dom().contains((stream, sequence)))
}

/// Collecting the lines of a subject asks for one message after another, and goes on with
/// all of them.
proof fn lemma_collected<T>(
    operation: spec_fn(Talk) -> Step<T>,
    stream: Text,
    subject: Text,
    entries: Seq<Entry>,
    bytes: Seq<u8>,
    newest: Option<Time>,
    rest: spec_fn(Step<(Seq<u8>, Option<Time>)>) -> Step<T>,
    next: spec_fn(Talk) -> Step<T>,
    store: Store,
    talk: Talk,
    turns: nat,
) -> (reached: (Talk, nat))
    requires
        turns >= entries.len(),
        talk.listening(),
        legible(store, stream, entries),
        forall|t: Talk| #[trigger]
            operation(t) == rest(collected(t, stream, subject, entries, bytes, newest)),
        forall|t: Talk, request: Request| #[trigger]
            rest((Err(Pause::Ask(request)), t)) == (Err::<T, Stop>(Pause::Ask(request)), t),
        forall|t: Talk| #[trigger]
            next(t) == rest(
                (
                    Ok(
                        (
                            bytes + joined(messages_of(store, stream, subject, entries)),
                            latest(newest, messages_of(store, stream, subject, entries)),
                        ),
                    ),
                    t,
                ),
            ),
    ensures
        reached.0.listening(),
        turns - entries.len() <= reached.1 <= turns,
        run(operation, store, talk, turns) == run(next, store, reached.0, reached.1),
    decreases entries.len(),
{
    let messages = messages_of(store, stream, subject, entries);
    if entries.len() == 0 {
        assert(bytes + joined(messages) =~= bytes);
        lemma_goes_on(operation, talk, next, talk, store, turns);
        (talk, turns)
    } else {
        let others = entries.drop_first();
        assert forall|i: int| 0 <= i < others.len() implies (sequence_of(
            #[trigger] others[i],
        ) matches Some(sequence) ==> store.grants(
            StorageRequest::StreamMessage { stream, sequence },
        ) && store.messages.dom().contains((stream, sequence))) by {
            assert(others[i] == entries[i + 1]);
        }
        match sequence_of(entries[0]) {
            None => lemma_collected(
                operation,
                stream,
                subject,
                others,
                bytes,
                newest,
                rest,
                next,
                store,
                talk,
                turns,
            ),
            Some(sequence) => {
                let request = StorageRequest::StreamMessage { stream, sequence };
                assert(entries[0] == entries[0int]);
                let message = store.messages[(stream, sequence)];
                let (more, newer) = if message.subject == subject {
                    (
                        bytes + line_bytes(message.payload),
                        Some(later_time(newest, message.published)),
                    )
                } else {
                    (bytes, newest)
                };
                let going_on = |t: Talk| rest(collected(t, stream, subject, others, more, newer));
                lemma_turn(operation, talk, request, going_on, store, turns);
                let left = messages_of(store, stream, subject, others);
                if message.subject == subject {
                    assert(messages =~= seq![message] + left);
                    assert(messages.drop_first() =~= left);
                    assert(more + joined(left) =~= bytes + joined(messages));
                }
                lemma_collected(
                    going_on,
                    stream,
                    subject,
                    others,
                    more,
                    newer,
                    rest,
                    next,
                    store,
                    talk.told(store.reply(request)).heard(),
                    (turns - 1) as nat,
                )
            },
        }
    }
}

/// Whether the log of a subject can be had.
pub open spec fn log_can_be_read(store: Store, stream: Text, allow_missing: bool) -> bool {
    let request = StorageRequest::ListStreamMessages { stream };
    &&& store.grants(request) || allow_missing && (store.fails)(request) == Some(
        StorageFailure::<Text>::NotFound,
    )
    &&& legible(store, stream, listed(store, stream))
}

/// Reading the log of a subject goes on with its lines.
proof fn lemma_log<T>(
    operation: spec_fn(Talk) -> Step<T>,
    stream: Text,
    subject: Text,
    allow_missing: bool,
    mounted_at: Time,
    rest: spec_fn(Step<Snapshot>) -> Step<T>,
    next: spec_fn(Talk) -> Step<T>,
    store: Store,
    talk: Talk,
    turns: nat,
) -> (reached: (Talk, nat))
    requires
        turns >= 1 + listed(store, stream).len(),
        talk.listening(),
        log_can_be_read(store, stream, allow_missing),
        forall|t: Talk| #[trigger]
            operation(t) == rest(subject_log(t, stream, subject, allow_missing, mounted_at)),
        forall|t: Talk, request: Request| #[trigger]
            rest((Err(Pause::Ask(request)), t)) == (Err::<T, Stop>(Pause::Ask(request)), t),
        forall|t: Talk| #[trigger]
            next(t) == rest((Ok(log_of(store, stream, subject, mounted_at)), t)),
    ensures
        reached.0.listening(),
        turns - 1 - listed(store, stream).len() <= reached.1 <= turns,
        run(operation, store, talk, turns) == run(next, store, reached.0, reached.1),
{
    let request = StorageRequest::ListStreamMessages { stream };
    let entries = listed(store, stream);
    let dating = |step: Step<(Seq<u8>, Option<Time>)>|
        match step.0 {
            Err(stop) => rest((Err(stop), step.1)),
            Ok((bytes, newest)) => rest(
                (
                    Ok(
                        FileSnapshot {
                            bytes,
                            version: VersionStamp::of(
                                match newest {
                                    Some(newest) => newest,
                                    None => mounted_at,
                                },
                            ),
                        },
                    ),
                    step.1,
                ),
            ),
        };
    let collecting = |t: Talk|
        dating(collected(t, stream, subject, entries, Seq::empty(), None));
    lemma_turn(operation, talk, request, collecting, store, turns);
    let messages = messages_of(store, stream, subject, entries);
    assert(Seq::<u8>::empty() + joined(messages) =~= joined(messages));
    lemma_collected(
        collecting,
        stream,
        subject,
        entries,
        Seq::empty(),
        None,
        dating,
        next,
        store,
        talk.told(store.reply(request)).heard(),
        (turns - 1) as nat,
    )
}

// ---------------------------------------------------------------------------
// Reading logs
// ---------------------------------------------------------------------------

/// The file of a subject holds the payloads of its messages as lines, in the order of the
/// stream, and is dated by the latest of them. It is not there where the stream or its
/// messages are not. Nothing changes.
pub proof fn law_subject_files_hold_the_lines_of_the_subject(
    facts: Seq<Fact>,
    status: MountStatus,
    mounted_at: Time,
    parsed: JetStreamPath<Text>,
    stream: Text,
    subject: Text,
    path: Components,
    store: Store,
    talk: Talk,
    turns: nat,
)
    requires
        turns >= 5 + listed(store, stream).len(),
        talk.listening(),
        unqueued(facts, path),
        attentive(store, path),
        remembered(store, path) is None,
        JetStreamPath::parsed(mount_text(path)) == Ok::<JetStreamPath<Text>, EventFsError<Text>>(
            parsed,
        ),
        parsed is StreamSubject,
        StorageFact::of(parsed) == Some(StorageFact::StreamSubject { stream, subject }),
        store.grants(StorageRequest::ListStreams),
        store.grants(StorageRequest::ListStreamSubjects { stream }),
        log_can_be_read(store, stream, false),
    ensures
        ({
            let (result, after, _) = run(
                reading(facts, status, mounted_at, path),
                store,
                talk,
                turns,
            );
            let there = (store.named)(StorageRequest::ListStreams).contains(stream) && lists_name(
                (store.listed)(StorageRequest::ListStreamSubjects { stream }),
                subject_file_name(subject),
            );
            &&& after == store
            &&& there ==> (result matches Ok(snapshot) && shows_log(
                store,
                stream,
                subject,
                mounted_at,
                snapshot,
            ))
            &&& !there ==> result == Err::<Snapshot, Stop>(Pause::Fail(errno::ENOENT))
        }),
{
    let one = lemma_unqueued_read(
        facts,
        status,
        mounted_at,
        parsed,
        path,
        store,
        talk,
        turns,
    );
    let left = (turns - 2) as nat;
    let operation = reading_stored(status, mounted_at, parsed, path);
    let streams = StorageRequest::ListStreams;
    let subjects = StorageRequest::ListStreamSubjects { stream };
    let missing = |t: Talk| (Err::<Snapshot, Stop>(Pause::Fail(errno::ENOENT)), t);
    let two = one.told(store.reply(streams)).heard();
    let fewer = (left - 1) as nat;
    if !(store.named)(streams).contains(stream) {
        lemma_turn(operation, one, streams, missing, store, left);
        lemma_end(missing, store, two, fewer);
    } else {
        let log = |t: Talk| subject_log(t, stream, subject, false, mounted_at);
        let knowing = |t: Talk|
            {
                let (known, t) = subject_known(t, stream, subject);
                match known {
                    Err(stop) => (Err::<Snapshot, Stop>(stop), t),
                    Ok(true) => log(t),
                    Ok(false) => missing(t),
                }
            };
        lemma_turn(operation, one, streams, knowing, store, left);
        let three = two.told(store.reply(subjects)).heard();
        let few = (fewer - 1) as nat;
        if !lists_name((store.listed)(subjects), subject_file_name(subject)) {
            lemma_turn(knowing, two, subjects, missing, store, fewer);
            lemma_end(missing, store, three, few);
        } else {
            lemma_turn(knowing, two, subjects, log, store, fewer);
            let rest = |step: Step<Snapshot>| step;
            let next = |t: Talk|
                (Ok::<Snapshot, Stop>(log_of(store, stream, subject, mounted_at)), t);
            let (four, last) = lemma_log(
                log,
                stream,
                subject,
                false,
                mounted_at,
                rest,
                next,
                store,
                three,
                few,
            );
            lemma_end(next, store, four, last);
            lemma_log_of(store, stream, subject, mounted_at);
        }
    }
}

/// An event log or a mailbox holds the payloads of its subject's messages as lines, in the
/// order of the stream, and is dated by the latest of them; it holds nothing where there
/// is no such stream. What was read is remembered, and nothing else changes.
pub proof fn law_logs_hold_the_lines_of_their_subject(
    facts: Seq<Fact>,
    status: MountStatus,
    mounted_at: Time,
    parsed: JetStreamPath<Text>,
    stream: Text,
    subject: Text,
    path: Components,
    store: Store,
    talk: Talk,
    turns: nat,
)
    requires
        turns >= 4 + listed(store, stream).len(),
        talk.listening(),
        unqueued(facts, path),
        attentive(store, path),
        remembered(store, path) is None,
        JetStreamPath::parsed(mount_text(path)) == Ok::<JetStreamPath<Text>, EventFsError<Text>>(
            parsed,
        ),
        !(parsed is StreamSubject),
        StorageFact::of(parsed) == Some(StorageFact::StreamSubject { stream, subject }),
        log_can_be_read(store, stream, true),
        forall|request: Request|
            (#[trigger] store.grants(request)) || !(request is RememberFile),
    ensures
        ({
            let (result, after, _) = run(
                reading(facts, status, mounted_at, path),
                store,
                talk,
                turns,
            );
            result matches Ok(snapshot) && shows_log(store, stream, subject, mounted_at, snapshot)
                && after == (Store {
                memory: store.memory.insert(
                    mount_text(path),
                    memory_entry(
                        path,
                        CacheOrigin::MaterializedView { path: mount_text(path) },
                        snapshot,
                    ),
                ),
                ..store
            })
        }),
{
    law_parsed_paths_are_valid(mount_text(path));
    let one = lemma_unqueued_read(
        facts,
        status,
        mounted_at,
        parsed,
        path,
        store,
        talk,
        turns,
    );
    let left = (turns - 2) as nat;
    let operation = reading_stored(status, mounted_at, parsed, path);
    let origin = CacheOrigin::MaterializedView { path: mount_text(path) };
    let snapshot = log_of(store, stream, subject, mounted_at);
    let rest = |step: Step<Snapshot>|
        match step.0 {
            Err(stop) => (Err::<Snapshot, Stop>(stop), step.1),
            Ok(snapshot) => remembering(step.1, path, origin, snapshot),
        };
    let next = |t: Talk| remembering(t, path, origin, snapshot);
    let (two, fewer) = lemma_log(
        operation,
        stream,
        subject,
        true,
        mounted_at,
        rest,
        next,
        store,
        one,
        left,
    );
    let entry = memory_entry(path, origin, snapshot);
    assert(store.grants(StorageRequest::RememberFile { entry }));
    lemma_remembering(next, path, origin, snapshot, store, two, fewer);
    lemma_log_of(store, stream, subject, mounted_at);
}

// ---------------------------------------------------------------------------
// Reading queued lines
// ---------------------------------------------------------------------------

/// The request for how many lines of a queued write a log has taken.
pub open spec fn taken_of(entry: QueuedLines) -> Request {
    StorageRequest::AppliedJsonLines {
        stream: entry.stream,
        subject: entry.subject,
        bytes: entry.bytes,
        idempotency_key: entry.idempotency_key,
    }
}

/// The lines of a queued write that a log has not taken yet, by what the store knows and by
/// what was counted when it was queued.
pub open spec fn still_queued(store: Store, entry: QueuedLines) -> Seq<u8> {
    let known = (store.applied)(taken_of(entry));
    let applied = if known >= entry.applied_lines {
        known
    } else {
        entry.applied_lines
    };
    unapplied(utf8_text(entry.bytes)->Ok_0, applied as nat)
}

/// The lines of queued writes that a log has not taken yet, one write after another.
pub open spec fn all_still_queued(store: Store, entries: Seq<QueuedLines>) -> Seq<u8>
    decreases entries.len(),
{
    if entries.len() == 0 {
        Seq::empty()
    } else {
        still_queued(store, entries[0]) + all_still_queued(store, entries.drop_first())
    }
}

/// The latest of the stamps of queued writes and of a given one.
spec fn latest_stamp(newest: Option<VersionStamp>, entries: Seq<QueuedLines>) -> Option<VersionStamp>
    decreases entries.len(),
{
    if entries.len() == 0 {
        newest
    } else {
        latest_stamp(Some(later_stamp(newest, entries[0].version)), entries.drop_first())
    }
}

/// Whether queued lines are text, and it can be told how many of them a log has taken.
pub open spec fn countable(store: Store, entries: Seq<QueuedLines>) -> bool {
    forall|i: int|
        0 <= i < entries.len() ==> utf8_text((#[trigger] entries[i]).bytes) is Ok && store.grants(
            taken_of(entries[i]),
        )
}

proof fn lemma_queued_lines<T>(
    operation: spec_fn(Talk) -> Step<T>,
    entries: Seq<QueuedLines>,
    bytes: Seq<u8>,
    newest: Option<VersionStamp>,
    rest: spec_fn(Step<(Seq<u8>, Option<VersionStamp>)>) -> Step<T>,
    next: spec_fn(Talk) -> Step<T>,
    store: Store,
    talk: Talk,
    turns: nat,
) -> (reached: (Talk, nat))
    requires
        turns >= entries.len(),
        talk.listening(),
        countable(store, entries),
        forall|t: Talk| #[trigger]
            operation(t) == rest(with_queued_lines(t, entries, bytes, newest)),
        forall|t: Talk, request: Request| #[trigger]
            rest((Err(Pause::Ask(request)), t)) == (Err::<T, Stop>(Pause::Ask(request)), t),
        forall|t: Talk| #[trigger]
            next(t) == rest(
                (
                    Ok((bytes + all_still_queued(store, entries), latest_stamp(newest, entries))),
                    t,
                ),
            ),
    ensures
        reached.0.listening(),
        turns - entries.len() <= reached.1 <= turns,
        run(operation, store, talk, turns) == run(next, store, reached.0, reached.1),
    decreases entries.len(),
{
    if entries.len() == 0 {
        assert(bytes + all_still_queued(store, entries) =~= bytes);
        lemma_goes_on(operation, talk, next, talk, store, turns);
        (talk, turns)
    } else {
        let others = entries.drop_first();
        let entry = entries[0];
        let request = taken_of(entry);
        assert forall|i: int| 0 <= i < others.len() implies utf8_text(
            (#[trigger] others[i]).bytes,
        ) is Ok && store.grants(taken_of(others[i])) by {
            assert(others[i] == entries[i + 1]);
        }
        let more = bytes + still_queued(store, entry);
        let newer = Some(later_stamp(newest, entry.version));
        let going_on = |t: Talk| rest(with_queued_lines(t, others, more, newer));
        lemma_turn(operation, talk, request, going_on, store, turns);
        assert(more + all_still_queued(store, others) =~= bytes + all_still_queued(store, entries));
        lemma_queued_lines(
            going_on,
            others,
            more,
            newer,
            rest,
            next,
            store,
            talk.told(store.reply(request)).heard(),
            (turns - 1) as nat,
        )
    }
}

/// A log for which lines are queued holds what the storage has of it, or what is remembered
/// of it, and behind that the queued lines that it has not taken yet, in the order of the
/// queue. Nothing changes.
pub proof fn law_queued_lines_stand_behind_the_log(
    facts: Seq<Fact>,
    status: MountStatus,
    mounted_at: Time,
    parsed: JetStreamPath<Text>,
    stream: Text,
    subject: Text,
    path: Components,
    store: Store,
    talk: Talk,
    turns: nat,
)
    requires
        turns >= 3 + listed(store, stream).len() + queued_lines(facts, path).len(),
        talk.listening(),
        !deleted(facts, path),
        whole_value(facts, path) is None,
        queued_lines(facts, path).len() > 0,
        countable(store, queued_lines(facts, path)),
        attentive(store, path),
        JetStreamPath::parsed(mount_text(path)) == Ok::<JetStreamPath<Text>, EventFsError<Text>>(
            parsed,
        ),
        StorageFact::of(parsed) == Some(StorageFact::StreamSubject { stream, subject }),
        log_can_be_read(store, stream, true),
    ensures
        ({
            let (result, after, _) = run(
                reading(facts, status, mounted_at, path),
                store,
                talk,
                turns,
            );
            let before = match remembered(store, path) {
                Some(snapshot) => snapshot.bytes,
                None => log_bytes(store, stream, subject),
            };
            &&& after == store
            &&& result matches Ok(snapshot) && snapshot.bytes == before + all_still_queued(
                store,
                queued_lines(facts, path),
            )
        }),
{
    law_parsed_paths_are_valid(mount_text(path));
    let operation = reading(facts, status, mounted_at, path);
    let pending = queued_lines(facts, path);
    let drain = StorageRequest::DrainWatchEvents;
    let recall = recall(path);
    let stored = match remembered(store, path) {
        Some(snapshot) => snapshot,
        None => log_of(store, stream, subject, mounted_at),
    };
    let dated = |stored: Snapshot, step: Step<(Seq<u8>, Option<VersionStamp>)>|
        match step.0 {
            Err(stop) => (Err::<Snapshot, Stop>(stop), step.1),
            Ok((bytes, newest)) => (
                Ok(
                    FileSnapshot {
                        bytes,
                        version: match newest {
                            Some(newest) => later_stamp(Some(stored.version), newest),
                            None => stored.version,
                        },
                    },
                ),
                step.1,
            ),
        };
    let behind = |stored: Snapshot, t: Talk|
        dated(stored, with_queued_lines(t, pending, stored.bytes, None));
    let based = |step: Step<Snapshot>|
        match step.0 {
            Err(Pause::Fail(number)) if unavailable(number) => behind(empty_log(mounted_at), step.1),
            Err(stop) => (Err::<Snapshot, Stop>(stop), step.1),
            Ok(stored) => behind(stored, step.1),
        };
    let recalling = |t: Talk|
        {
            let (cached, t) = t.cached(recall);
            match cached {
                Err(stop) => (Err::<Snapshot, Stop>(stop), t),
                Ok(Some(snapshot)) => behind(snapshot, t),
                Ok(None) => based(subject_log(t, stream, subject, true, mounted_at)),
            }
        };
    lemma_turn(operation, talk, drain, recalling, store, turns);
    let one = talk.told(store.reply(drain)).heard();
    let left = (turns - 1) as nat;
    let two = one.told(store.reply(recall)).heard();
    let fewer = (left - 1) as nat;
    let adding = |t: Talk| behind(stored, t);
    let (three, few) = match remembered(store, path) {
        Some(snapshot) => {
            lemma_turn(recalling, one, recall, adding, store, left);
            (two, fewer)
        },
        None => {
            let looking = |t: Talk| based(subject_log(t, stream, subject, true, mounted_at));
            lemma_turn(recalling, one, recall, looking, store, left);
            lemma_log(
                looking,
                stream,
                subject,
                true,
                mounted_at,
                based,
                adding,
                store,
                two,
                fewer,
            )
        },
    };
    let rest = |step: Step<(Seq<u8>, Option<VersionStamp>)>| dated(stored, step);
    let next = |t: Talk|
        rest(
            (
                Ok(
                    (
                        stored.bytes + all_still_queued(store, pending),
                        latest_stamp(None, pending),
                    ),
                ),
                t,
            ),
        );
    let (four, last) = lemma_queued_lines(
        adding,
        pending,
        stored.bytes,
        None,
        rest,
        next,
        store,
        three,
        few,
    );
    lemma_end(next, store, four, last);
}

// ---------------------------------------------------------------------------
// Committing lines
// ---------------------------------------------------------------------------

/// The request that appends lines.
pub open spec fn publish(stream: Text, subject: Text, bytes: Seq<u8>, key: Text) -> Request {
    StorageRequest::PublishJsonLines { stream, subject, bytes, idempotency_key: key }
}

/// The queued write of lines of which a log has taken some.
pub open spec fn lines_write(
    store: Store,
    path: Components,
    stream: Text,
    subject: Text,
    bytes: Seq<u8>,
    key: Text,
    applied_lines: usize,
) -> QueuedWrite {
    FailedWrite {
        idempotency_key: key,
        version: VersionStamp::of(store.now),
        path,
        operation: FailedWriteOperation::PublishJsonLines { stream, subject, bytes, applied_lines },
    }
}

/// Storing lines once it is known what the log held before, or queueing them.
spec fn storing_lines(
    path: Components,
    stream: Text,
    subject: Text,
    bytes: Seq<u8>,
    key: Text,
    base: Option<Seq<u8>>,
    mounted_at: Time,
) -> spec_fn(Talk) -> Step<()> {
    |talk: Talk|
        {
            let (outcome, talk) = talk.try_done(publish(stream, subject, bytes, key));
            match outcome {
                Err(stop) => (Err(stop), talk),
                Ok(Ok(())) => invalidated(talk, path),
                Ok(Err(failure)) => queueing_lines(
                    path,
                    stream,
                    subject,
                    bytes,
                    key,
                    base,
                    mounted_at,
                )(
                    talk.complaining(
                        "commit queued for "@ + mount_text(path) + ": "@ + failure_text(failure),
                    ),
                ),
            }
        }
}

/// Queueing lines once it is known how many of them the log has taken.
spec fn queueing_lines(
    path: Components,
    stream: Text,
    subject: Text,
    bytes: Seq<u8>,
    key: Text,
    base: Option<Seq<u8>>,
    mounted_at: Time,
) -> spec_fn(Talk) -> Step<()> {
    |talk: Talk|
        {
            let (applied, talk) = progress(talk, stream, subject, bytes, base, mounted_at);
            match applied {
                Err(stop) => (Err(stop), talk),
                Ok(applied_lines) => queueing_operation(
                    path,
                    key,
                    FailedWriteOperation::PublishJsonLines { stream, subject, bytes, applied_lines },
                )(talk),
            }
        }
}

#[verifier::rlimit(40)]
proof fn lemma_committing_lines(
    path: Components,
    parsed: JetStreamPath<Text>,
    stream: Text,
    subject: Text,
    bytes: Seq<u8>,
    seed: Text,
    mounted_at: Time,
    talk: Talk,
)
    requires
        JetStreamPath::parsed(mount_text(path)) == Ok::<JetStreamPath<Text>, EventFsError<Text>>(
            parsed,
        ),
        StorageFact::of(parsed) == Some(StorageFact::StreamSubject { stream, subject }),
        lines_complaint(bytes) is None,
    ensures
        committed(talk, path, bytes, seed, mounted_at) == {
            let (allowed, talk) = gate_passed(talk);
            match allowed {
                Err(stop) => (Err::<(), Stop>(stop), talk),
                Ok(()) => {
                    let (base, talk) = log_now(talk, "jsonl base"@, stream, subject, mounted_at);
                    match base {
                        Err(stop) => (Err(stop), talk),
                        Ok(base) => storing_lines(
                            path,
                            stream,
                            subject,
                            bytes,
                            write_key(mount_text(path), bytes, seed),
                            base,
                            mounted_at,
                        )(talk),
                    }
                },
            }
        },
{
    law_parsed_paths_are_valid(mount_text(path));
    let key = write_key(mount_text(path), bytes, seed);
    let action: Action = JetStreamAction::PublishJsonLines { stream, subject };
    assert(write_plan(parsed) == Ok::<Action, EventFsError<Text>>(action));
    let (allowed, talk) = gate_passed(talk);
    if allowed is Ok {
        let (base, talk) = log_now(talk, "jsonl base"@, stream, subject, mounted_at);
        if base is Ok {
            let (outcome, talk) = talk.try_done(publish(stream, subject, bytes, key));
            if let Ok(Err(failure)) = outcome {
                let talk = talk.complaining(
                    "commit queued for "@ + mount_text(path) + ": "@ + failure_text(failure),
                );
                assert(put_off(talk, path, action, bytes, key, base->Ok_0, mounted_at)
                    == queueing_lines(
                    path,
                    stream,
                    subject,
                    bytes,
                    key,
                    base->Ok_0,
                    mounted_at,
                )(talk));
            }
        }
    }
}

/// Committing lines to a log loses nothing: they are appended to the log, and nothing else
/// has changed; where the storage refuses, the lines are in the queue, with how many of
/// them the log has taken since it was seen; where the queue refuses them too, the commit
/// fails and nothing has changed.
#[verifier::rlimit(40)]
pub proof fn law_committed_lines_are_appended_or_queued(
    path: Components,
    parsed: JetStreamPath<Text>,
    stream: Text,
    subject: Text,
    bytes: Seq<u8>,
    seed: Text,
    mounted_at: Time,
    store: Store,
    talk: Talk,
    turns: nat,
)
    requires
        turns >= 9 + 2 * listed(store, stream).len(),
        talk.listening(),
        JetStreamPath::parsed(mount_text(path)) == Ok::<JetStreamPath<Text>, EventFsError<Text>>(
            parsed,
        ),
        StorageFact::of(parsed) == Some(StorageFact::StreamSubject { stream, subject }),
        lines_complaint(bytes) is None,
        store.gate && store.grants(StorageRequest::WriteGate),
        log_can_be_read(store, stream, true),
    ensures
        ({
            let (result, after, _) = run(
                committing(path, bytes, seed, mounted_at),
                store,
                talk,
                turns,
            );
            let key = write_key(mount_text(path), bytes, seed);
            let now = log_bytes(store, stream, subject);
            let write = lines_write(
                store,
                path,
                stream,
                subject,
                bytes,
                key,
                lines_taken(now, now, bytes) as usize,
            );
            let stored = store.grants(publish(stream, subject, bytes, key));
            let queued = !stored && store.grants(StorageRequest::CurrentTime) && store.grants(
                StorageRequest::Enqueue { write },
            );
            &&& settles(result)
            &&& stored ==> same_content(
                store.with_lines(Appended { stream, subject, bytes, skipped: 0 }),
                after,
            )
            &&& queued ==> same_content(queueing(store, write), after)
            &&& !stored && !queued ==> result is Err && after == store
            &&& stored && can_go_stale(store, path) ==> result is Ok
            &&& queued && can_go_stale(store, path) && store.grants(StorageRequest::SyncWriteGate)
                ==> result is Ok
            &&& (stored || queued) && can_go_stale(store, path) ==> made_stale(store, after, path)
                && entry_of(after.memory, mount_text(path)) is None
        }),
{
    let key = write_key(mount_text(path), bytes, seed);
    let now = log_bytes(store, stream, subject);
    let operation = committing(path, bytes, seed, mounted_at);
    let gate = StorageRequest::WriteGate;
    let based = |step: Step<Snapshot>|
        match step.0 {
            Ok(log) => storing_lines(
                path,
                stream,
                subject,
                bytes,
                key,
                Some(log.bytes),
                mounted_at,
            )(step.1),
            Err(Pause::Ask(request)) => (Err::<(), Stop>(Pause::Ask(request)), step.1),
            Err(Pause::Fail(number)) => if unavailable(number) {
                storing_lines(
                    path,
                    stream,
                    subject,
                    bytes,
                    key,
                    Some(Seq::empty()),
                    mounted_at,
                )(step.1)
            } else {
                storing_lines(path, stream, subject, bytes, key, None, mounted_at)(
                    step.1.complaining(
                        "jsonl base"@ + " snapshot unavailable for "@ + stream + (":"@ + subject
                            + ": errno "@) + signed_decimal(number as int),
                    ),
                )
            },
        };
    let looking = |t: Talk| based(subject_log(t, stream, subject, true, mounted_at));
    let gated = |t: Talk|
        {
            let (allowed, t) = gate_passed(t);
            match allowed {
                Err(stop) => (Err::<(), Stop>(stop), t),
                Ok(()) => looking(t),
            }
        };
    assert forall|t: Talk| #[trigger] operation(t) == gated(t) by {
        lemma_committing_lines(path, parsed, stream, subject, bytes, seed, mounted_at, t);
    }
    lemma_goes_on(operation, talk, gated, talk, store, turns);
    lemma_turn(gated, talk, gate, looking, store, turns);
    let one = talk.told(store.reply(gate)).heard();
    let left = (turns - 1) as nat;
    let storing = storing_lines(path, stream, subject, bytes, key, Some(now), mounted_at);
    let (two, fewer) = lemma_log(
        looking,
        stream,
        subject,
        true,
        mounted_at,
        based,
        storing,
        store,
        one,
        left,
    );
    let request = publish(stream, subject, bytes, key);
    let three = two.told(store.reply(request)).heard();
    let few = (fewer - 1) as nat;
    if store.grants(request) {
        let end = |t: Talk| (Ok::<(), Stop>(()), t);
        let marking = |t: Talk| invalidated(t, path);
        lemma_turn(storing, two, request, marking, store, fewer);
        let (reached, four, rest) = lemma_invalidated(
            marking,
            path,
            end,
            store.after(request),
            three,
            few,
        );
        if can_go_stale(store, path) {
            lemma_end(end, reached, four, rest);
        }
    } else {
        let complaint = "commit queued for "@ + mount_text(path) + ": "@ + failure_text(
            (store.fails)(request).unwrap(),
        );
        let counting = queueing_lines(path, stream, subject, bytes, key, Some(now), mounted_at);
        let late = |t: Talk| counting(t.complaining(complaint));
        lemma_turn(storing, two, request, late, store, fewer);
        let noted = three.complaining(complaint);
        lemma_goes_on(late, three, counting, noted, store, few);
        let applied_lines = lines_taken(now, now, bytes) as usize;
        let operation = FailedWriteOperation::PublishJsonLines {
            stream,
            subject,
            bytes,
            applied_lines,
        };
        let next = queueing_operation(path, key, operation);
        let counted = |step: Step<Snapshot>|
            {
                let (applied, t) = match step.0 {
                    Ok(log) => (Ok(lines_taken(now, log.bytes, bytes) as usize), step.1),
                    Err(Pause::Ask(request)) => (Err::<usize, Stop>(Pause::Ask(request)), step.1),
                    Err(Pause::Fail(number)) => if unavailable(number) {
                        (Ok(lines_taken(now, Seq::empty(), bytes) as usize), step.1)
                    } else {
                        (
                            Ok(0),
                            step.1.complaining(
                                "jsonl progress"@ + " snapshot unavailable for "@ + stream + (":"@
                                    + subject + ": errno "@) + signed_decimal(
                                    number as int,
                                ),
                            ),
                        )
                    },
                };
                match applied {
                    Err(stop) => (Err::<(), Stop>(stop), t),
                    Ok(applied_lines) => queueing_operation(
                        path,
                        key,
                        FailedWriteOperation::PublishJsonLines {
                            stream,
                            subject,
                            bytes,
                            applied_lines,
                        },
                    )(t),
                }
            };
        let (four, rest) = lemma_log(
            counting,
            stream,
            subject,
            true,
            mounted_at,
            counted,
            next,
            store,
            noted,
            few,
        );
        lemma_queued(path, key, operation, store, four, rest);
    }
}

/// Lines that a log has taken since it was seen are counted, and no others: where it went
/// on with so many of them, that is how many there are.
pub proof fn law_lines_that_a_log_took_are_counted(
    base: Seq<u8>,
    current: Seq<u8>,
    pending: Seq<u8>,
    base_text: Text,
    current_text: Text,
    pending_text: Text,
    count: nat,
)
    requires
        utf8_text(base) == Ok::<Text, Text>(base_text),
        utf8_text(current) == Ok::<Text, Text>(current_text),
        utf8_text(pending) == Ok::<Text, Text>(pending_text),
        count <= canonical_lines(pending_text).len(),
        canonical_lines(current_text) == canonical_lines(base_text) + canonical_lines(
            pending_text,
        ).take(count as int),
    ensures
        lines_taken(base, current, pending) == count,
{
    let lines = canonical_lines(pending_text);
    let before = canonical_lines(base_text);
    let after = canonical_lines(current_text);
    assert(after.subrange(0, before.len() as int) =~= before);
    assert(after.skip(before.len() as int) =~= lines.take(count as int));
    lemma_common_prefix_of_first(lines, count);
}

proof fn lemma_common_prefix_of_first(lines: Seq<Seq<u8>>, count: nat)
    requires
        count <= lines.len(),
    ensures
        common_prefix(lines.take(count as int), lines) == count,
    decreases count,
{
    if count > 0 {
        let rest = lines.drop_first();
        assert(lines.take(count as int).drop_first() =~= rest.take(count - 1));
        lemma_common_prefix_of_first(rest, (count - 1) as nat);
    }
}

/// Telling how many lines a log has taken.
pub open spec fn counting_lines(
    stream: Text,
    subject: Text,
    bytes: Seq<u8>,
    base: Option<Seq<u8>>,
    mounted_at: Time,
) -> spec_fn(Talk) -> Step<usize> {
    |talk: Talk| progress(talk, stream, subject, bytes, base, mounted_at)
}

/// How many lines a log has taken is told by what the log holds now. Nothing changes.
pub proof fn law_progress_is_told_by_the_log(
    stream: Text,
    subject: Text,
    bytes: Seq<u8>,
    base: Seq<u8>,
    mounted_at: Time,
    store: Store,
    talk: Talk,
    turns: nat,
)
    requires
        turns >= 1 + listed(store, stream).len(),
        talk.listening(),
        log_can_be_read(store, stream, true),
    ensures
        ({
            let (result, after, _) = run(
                counting_lines(stream, subject, bytes, Some(base), mounted_at),
                store,
                talk,
                turns,
            );
            &&& after == store
            &&& result == Ok::<usize, Stop>(
                lines_taken(base, log_bytes(store, stream, subject), bytes) as usize,
            )
        }),
{
    let operation = counting_lines(stream, subject, bytes, Some(base), mounted_at);
    let now = log_bytes(store, stream, subject);
    let next = |t: Talk| (Ok::<usize, Stop>(lines_taken(base, now, bytes) as usize), t);
    let counted = |step: Step<Snapshot>|
        match step.0 {
            Ok(log) => (Ok::<usize, Stop>(lines_taken(base, log.bytes, bytes) as usize), step.1),
            Err(Pause::Ask(request)) => (Err::<usize, Stop>(Pause::Ask(request)), step.1),
            Err(Pause::Fail(number)) => if unavailable(number) {
                (Ok(lines_taken(base, Seq::empty(), bytes) as usize), step.1)
            } else {
                (
                    Ok(0),
                    step.1.complaining(
                        "jsonl progress"@ + " snapshot unavailable for "@ + stream + (":"@ + subject
                            + ": errno "@) + signed_decimal(number as int),
                    ),
                )
            },
        };
    let (one, left) = lemma_log(
        operation,
        stream,
        subject,
        true,
        mounted_at,
        counted,
        next,
        store,
        talk,
        turns,
    );
    lemma_end(next, store, one, left);
}

} // verus!
