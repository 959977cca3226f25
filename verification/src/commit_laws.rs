//! What committing comes to: the bytes are in the storage, or in the queue, or the commit
//! has failed.

use vstd::prelude::*;

use crate::affected::StorageFact;
use crate::commit::{committed, memory_after, queue_complaint, queued_now, stored_or_queued};
use crate::errno;
use crate::errors::EventFsError;
use crate::handles::{commit_bytes, handle_committed, handle_released, OpenFile, Session};
use crate::inquiry::{
    done_in, flag_in, FailedWrite, FailedWriteOperation, Pause, QueuedOperation, QueuedWrite,
    Remembered, Reply, Request, Step, Stop, StorageRequest, Talk,
};
use crate::json::{document_complaint, lines_complaint};
use crate::keys::write_key;
use crate::kinds::HandleMode;
use crate::mount_paths::{mount_text, Components};
use crate::mutations::truncated;
use crate::path::JetStreamPath;
use crate::path_laws::law_parsed_paths_are_valid;
use crate::plan::{write_plan, Action};
use crate::store::{
    entry_of, goes_on_as, lemma_end, lemma_goes_on, lemma_turn, run, Appended, Store,
};
use crate::text::Text;
use crate::upkeep::{failure_text, gate_synced, invalidated};
use crate::versions::{Time, VersionStamp};

verus! {

/// The commit of bytes to a path.
pub open spec fn committing(path: Components, bytes: Seq<u8>, seed: Text, mounted_at: Time) -> spec_fn(
    Talk,
) -> Step<()> {
    |talk: Talk| committed(talk, path, bytes, seed, mounted_at)
}

/// Whether two stores hold the same: they differ in what is remembered and marked at
/// most.
pub open spec fn same_content(left: Store, right: Store) -> bool {
    right == (Store { memory: right.memory, marks: right.marks, ..left })
}

/// Whether a path was marked as stale, and nothing of it is remembered.
pub open spec fn made_stale(before: Store, after: Store, path: Components) -> bool {
    ||| after.marks == before.marks.push(StorageRequest::InvalidateLocal { path })
    ||| after.marks == before.marks.push(StorageRequest::InvalidateSubtree { path })
}

/// A step that is followed by another.
pub open spec fn followed<T>(step: Step<()>, next: spec_fn(Talk) -> Step<T>) -> Step<T> {
    match step.0 {
        Ok(()) => next(step.1),
        Err(stop) => (Err(stop), step.1),
    }
}

/// The requests that make a path stale.
pub open spec fn local(path: Components) -> Request {
    StorageRequest::InvalidateLocal { path }
}

/// The request that makes a path stale and all below it.
pub open spec fn subtree(path: Components) -> Request {
    StorageRequest::InvalidateSubtree { path }
}

/// Whether a path can be made stale.
pub open spec fn can_go_stale(store: Store, path: Components) -> bool {
    store.grants(local(path)) || store.grants(subtree(path))
}

/// Making a path stale leaves the content of the store as it is, and what follows goes on
/// from there.
pub proof fn lemma_invalidated<T>(
    operation: spec_fn(Talk) -> Step<T>,
    path: Components,
    next: spec_fn(Talk) -> Step<T>,
    store: Store,
    talk: Talk,
    turns: nat,
) -> (reached: (Store, Talk, nat))
    requires
        turns >= 2,
        talk.listening(),
        forall|t: Talk| #[trigger] operation(t) == followed(invalidated(t, path), next),
    ensures
        same_content(store, reached.0),
        reached.1.listening(),
        turns - 2 <= reached.2 < turns,
        can_go_stale(store, path) ==> made_stale(store, reached.0, path) && entry_of(
            reached.0.memory,
            mount_text(path),
        ) is None && run(operation, store, talk, turns) == run(
            next,
            reached.0,
            reached.1,
            reached.2,
        ),
        !can_go_stale(store, path) ==> (run(operation, store, talk, turns).0 matches Err(
            Pause::Fail(_),
        )) && run(operation, store, talk, turns).1 == store,
{
    let first = local(path);
    let one = talk.told(store.reply(first)).heard();
    if store.grants(first) {
        lemma_turn(operation, talk, first, next, store, turns);
        (store.after(first), one, (turns - 1) as nat)
    } else {
        let failure = (store.fails)(first).unwrap();
        let complaining = |t: Talk|
            followed(
                t.complaining(
                    "local invalidation planning failed for "@ + mount_text(path) + ": "@
                        + failure_text(failure),
                ).done(subtree(path)),
                next,
            );
        lemma_turn(operation, talk, first, complaining, store, turns);
        let second = subtree(path);
        let left = (turns - 1) as nat;
        let two = one.told(store.reply(second)).heard().complaining(
            "local invalidation planning failed for "@ + mount_text(path) + ": "@
                + failure_text(failure),
        );
        if store.grants(second) {
            let later = |t: Talk|
                next(
                    t.complaining(
                        "local invalidation planning failed for "@ + mount_text(path) + ": "@
                            + failure_text(failure),
                    ),
                );
            lemma_turn(complaining, one, second, later, store, left);
            lemma_goes_on(
                later,
                one.told(store.reply(second)).heard(),
                next,
                two,
                store.after(second),
                (left - 1) as nat,
            );
            (store.after(second), two, (left - 1) as nat)
        } else {
            let failed = |t: Talk|
                t.complaining(
                    "local invalidation planning failed for "@ + mount_text(path) + ": "@
                        + failure_text(failure),
                ).fail::<T>((store.fails)(second).unwrap());
            lemma_turn(complaining, one, second, failed, store, left);
            lemma_end(
                failed,
                store,
                one.told(store.reply(second)).heard(),
                (left - 1) as nat,
            );
            (store, one, left)
        }
    }
}

// ---------------------------------------------------------------------------
// Whole values
// ---------------------------------------------------------------------------

/// The request that puts a value into the storage.
pub open spec fn put(fact: StorageFact<Text>, bytes: Seq<u8>, key: Text) -> Request {
    match fact {
        StorageFact::Kv { bucket, key: name } => StorageRequest::KvPut {
            bucket,
            key: name,
            bytes,
            idempotency_key: key,
        },
        StorageFact::Object { bucket, name } => StorageRequest::ObjectPut {
            bucket,
            object: name,
            bytes,
            idempotency_key: key,
        },
        StorageFact::StreamSubject { stream, subject } => StorageRequest::PublishJsonLines {
            stream,
            subject,
            bytes,
            idempotency_key: key,
        },
    }
}

/// The store with a value in it.
pub open spec fn holding(store: Store, fact: StorageFact<Text>, bytes: Seq<u8>) -> Store {
    match fact {
        StorageFact::Kv { bucket, key } => store.with_value(bucket, key, bytes),
        StorageFact::Object { bucket, name } => store.with_object(bucket, name, bytes),
        StorageFact::StreamSubject { stream, subject } => store.with_lines(
            Appended { stream, subject, bytes, skipped: 0 },
        ),
    }
}

/// The bytes that the storage holds as a value.
pub open spec fn held(store: Store, fact: StorageFact<Text>) -> Option<Seq<u8>> {
    match fact {
        StorageFact::Kv { bucket, key } => match entry_of(store.values, (bucket, key)) {
            Some(value) => Some(value.bytes),
            None => None,
        },
        StorageFact::Object { bucket, name } => match entry_of(store.objects, (bucket, name)) {
            Some(object) => Some(object.bytes),
            None => None,
        },
        StorageFact::StreamSubject { .. } => None,
    }
}

/// Since when the storage holds a value.
pub open spec fn held_since(store: Store, fact: StorageFact<Text>) -> Time {
    match fact {
        StorageFact::Kv { bucket, key } => store.values[(bucket, key)].created,
        StorageFact::Object { bucket, name } => store.objects[(bucket, name)].modified,
        StorageFact::StreamSubject { .. } => store.now,
    }
}

/// The request for what the storage has of a value that was stored.
pub open spec fn probe(fact: StorageFact<Text>) -> Request {
    match fact {
        StorageFact::Kv { bucket, key } => StorageRequest::KvGet { bucket, key },
        StorageFact::Object { bucket, name } => StorageRequest::ObjectMetadata {
            bucket,
            object: name,
        },
        StorageFact::StreamSubject { .. } => StorageRequest::WriteGate,
    }
}

/// The queued write of a whole value.
pub open spec fn whole_write(
    store: Store,
    path: Components,
    parsed: JetStreamPath<Text>,
    fact: StorageFact<Text>,
    bytes: Seq<u8>,
    key: Text,
) -> QueuedWrite {
    FailedWrite {
        idempotency_key: key,
        version: VersionStamp::of(store.now),
        path,
        operation: match fact {
            StorageFact::Kv { bucket, key } => if parsed is KvKey {
                FailedWriteOperation::KvPut { bucket, key, bytes }
            } else {
                FailedWriteOperation::MaterializedPut { bucket, key, bytes }
            },
            StorageFact::Object { bucket, name } => FailedWriteOperation::ObjectPut {
                bucket,
                object: name,
                bytes,
            },
            StorageFact::StreamSubject { stream, subject } => {
                FailedWriteOperation::PublishJsonLines { stream, subject, bytes, applied_lines: 0 }
            },
        },
    }
}

/// The store with one more write in its queue.
pub open spec fn queueing(store: Store, write: QueuedWrite) -> Store {
    Store { queue: store.queue.push(write), ..store }
}

/// Whether bytes may be written to a path as a whole: a record has to be JSON.
pub open spec fn writable_whole(parsed: JetStreamPath<Text>, bytes: Seq<u8>) -> bool {
    parsed is KvKey || parsed is Object || document_complaint(bytes) is None
}

/// What is remembered of a write that was stored, followed by nothing.
spec fn remembering_write(path: Components, action: Action, bytes: Seq<u8>) -> spec_fn(Talk) -> Step<()> {
    |talk: Talk|
        {
            let (memory, talk) = memory_after(talk, path, action, bytes);
            match memory {
                Err(stop) => (Err(stop), talk),
                Ok(Ok(Some(entry))) => talk.done(StorageRequest::RememberFile { entry }),
                Ok(Ok(None)) => (Ok(()), talk),
                Ok(Err(failure)) => (
                    Ok(()),
                    talk.complaining(
                        "cache refresh after write failed for "@ + mount_text(path) + ": "@
                            + failure_text(failure),
                    ),
                ),
            }
        }
}

/// Remembering a write that was stored: nothing but the memory changes, and what is
/// remembered is what was written.
proof fn lemma_remembered(
    path: Components,
    parsed: JetStreamPath<Text>,
    fact: StorageFact<Text>,
    action: Action,
    bytes: Seq<u8>,
    store: Store,
    talk: Talk,
    turns: nat,
)
    requires
        turns >= 2,
        talk.listening(),
        parsed.valid(),
        StorageFact::of(parsed) == Some(fact),
        !(fact is StreamSubject),
        write_plan(parsed) == Ok::<Action, EventFsError<Text>>(action),
        held(store, fact) == Some(bytes),
        entry_of(store.memory, mount_text(path)) is None,
    ensures
        ({
            let (result, after, _) = run(remembering_write(path, action, bytes), store, talk, turns);
            &&& after == (Store { memory: after.memory, ..store })
            &&& entry_of(after.memory, mount_text(path)) matches Some(entry) ==> entry.bytes == bytes
                && entry.version == VersionStamp::of(held_since(store, fact)) && entry.valid
            &&& store.grants(probe(fact)) && result is Ok ==> entry_of(
                after.memory,
                mount_text(path),
            ) is Some
            &&& (forall|entry: Remembered|
                entry.path == mount_text(path) ==> #[trigger] store.grants(
                    StorageRequest::RememberFile { entry },
                )) ==> result is Ok
            &&& settles(result)
        }),
{
    let operation = remembering_write(path, action, bytes);
    let request = probe(fact);
    let one = talk.told(store.reply(request)).heard();
    let left = (turns - 1) as nat;
    if store.grants(request) {
        let entry = memory_after(talk.told(store.reply(request)), path, action, bytes).0->Ok_0->Ok_0.unwrap();
        let last = |t: Talk| t.done(StorageRequest::RememberFile { entry });
        lemma_turn(operation, talk, request, last, store, turns);
        let remember = StorageRequest::RememberFile { entry };
        let finish = |t: Talk| t.settle(done_in(store.reply(remember)));
        lemma_turn(last, one, remember, finish, store, left);
        lemma_end(
            finish,
            store.after(remember),
            one.told(store.reply(remember)).heard(),
            (left - 1) as nat,
        );
    } else {
        let failure = (store.fails)(request).unwrap();
        let finish = |t: Talk|
            (
                Ok::<(), Stop>(()),
                t.complaining(
                    "cache refresh after write failed for "@ + mount_text(path) + ": "@
                        + failure_text(failure),
                ),
            );
        lemma_turn(operation, talk, request, finish, store, turns);
        lemma_end(finish, store, one, left);
    }
}

/// Whether an operation came to an end.
pub open spec fn settles<T>(result: Result<T, Stop>) -> bool {
    !(result matches Err(Pause::Ask(_)))
}

/// Putting an operation into the queue, and what follows.
pub open spec fn queueing_operation(
    path: Components,
    key: Text,
    operation: QueuedOperation,
) -> spec_fn(Talk) -> Step<()> {
    |talk: Talk|
        {
            let (queued, talk) = queued_now(talk, path, key, operation);
            match queued {
                Err(stop) => (Err(stop), talk),
                Ok(Err(failure)) => talk.fail(failure),
                Ok(Ok(())) => {
                    let (done, talk) = invalidated(talk, path);
                    match done {
                        Err(stop) => (Err(stop), talk),
                        Ok(()) => gate_synced(talk, queue_complaint()),
                    }
                },
            }
        }
}

/// What is queued is in the queue, and nothing else of the store changes; where it cannot
/// be queued, nothing changes and the operation fails.
pub proof fn lemma_queued(
    path: Components,
    key: Text,
    operation: QueuedOperation,
    store: Store,
    talk: Talk,
    turns: nat,
)
    requires
        turns >= 5,
        talk.listening(),
    ensures
        ({
            let (result, after, _) = run(
                queueing_operation(path, key, operation),
                store,
                talk,
                turns,
            );
            let write = FailedWrite {
                idempotency_key: key,
                version: VersionStamp::of(store.now),
                path,
                operation,
            };
            let enqueue = StorageRequest::Enqueue { write };
            &&& settles(result)
            &&& if store.grants(StorageRequest::CurrentTime) && store.grants(enqueue) {
                &&& same_content(queueing(store, write), after)
                &&& can_go_stale(store, path) ==> made_stale(store, after, path) && entry_of(
                    after.memory,
                    mount_text(path),
                ) is None
                &&& can_go_stale(store, path) && store.grants(StorageRequest::SyncWriteGate)
                    ==> result is Ok
            } else {
                result is Err && after == store
            }
        }),
{
    let asking = queueing_operation(path, key, operation);
    let first = StorageRequest::CurrentTime;
    let one = talk.told(store.reply(first)).heard();
    let left = (turns - 1) as nat;
    if !store.grants(first) {
        let failed = |t: Talk| t.fail::<()>((store.fails)(first).unwrap());
        lemma_turn(asking, talk, first, failed, store, turns);
        lemma_end(failed, store, one, left);
    } else {
        let write = FailedWrite {
            idempotency_key: key,
            version: VersionStamp::of(store.now),
            path,
            operation,
        };
        let second = StorageRequest::Enqueue { write };
        let enqueueing = |t: Talk|
            {
                let (queued, t) = t.try_done(second);
                match queued {
                    Err(stop) => (Err::<(), Stop>(stop), t),
                    Ok(Err(failure)) => t.fail(failure),
                    Ok(Ok(())) => {
                        let (done, t) = invalidated(t, path);
                        match done {
                            Err(stop) => (Err(stop), t),
                            Ok(()) => gate_synced(t, queue_complaint()),
                        }
                    },
                }
            };
        lemma_turn(asking, talk, first, enqueueing, store, turns);
        let two = one.told(store.reply(second)).heard();
        let fewer = (left - 1) as nat;
        if !store.grants(second) {
            let failed = |t: Talk| t.fail::<()>((store.fails)(second).unwrap());
            lemma_turn(enqueueing, one, second, failed, store, left);
            lemma_end(failed, store, two, fewer);
        } else {
            let syncing = |t: Talk| gate_synced(t, queue_complaint());
            let marking = |t: Talk| followed(invalidated(t, path), syncing);
            lemma_turn(enqueueing, one, second, marking, store, left);
            let taken = store.after(second);
            assert(taken == queueing(store, write));
            let (reached, three, rest) = lemma_invalidated(
                marking,
                path,
                syncing,
                taken,
                two,
                fewer,
            );
            if can_go_stale(store, path) {
                let last = StorageRequest::SyncWriteGate;
                let finish = |t: Talk|
                    match flag_in(reached.reply(last)) {
                        Err(failure) => t.fail::<()>(failure),
                        Ok(true) => (
                            Ok::<(), Stop>(()),
                            t.complaining(queue_complaint()),
                        ),
                        Ok(false) => (Ok::<(), Stop>(()), t),
                    };
                lemma_turn(syncing, three, last, finish, reached, rest);
                lemma_end(
                    finish,
                    reached.after(last),
                    three.told(reached.reply(last)).heard(),
                    (rest - 1) as nat,
                );
            }
        }
    }
}

/// What has come of a value that was to be written to a path: the storage then holds those
/// bytes, and nothing else in it or in the queue has changed; where the storage refuses,
/// the whole write is in the queue instead; where the queue refuses it too, it has failed
/// and nothing has changed. What was taken has made the path stale, which is remembered
/// with what was written at most.
pub open spec fn taken(
    before: Store,
    result: Result<(), Stop>,
    after: Store,
    path: Components,
    parsed: JetStreamPath<Text>,
    fact: StorageFact<Text>,
    bytes: Seq<u8>,
    seed: Text,
) -> bool {
    let key = write_key(mount_text(path), bytes, seed);
    let write = whole_write(before, path, parsed, fact, bytes, key);
    let stored = before.grants(put(fact, bytes, key));
    let queued = !stored && before.grants(StorageRequest::CurrentTime) && before.grants(
        StorageRequest::Enqueue { write },
    );
    let remembered = forall|entry: Remembered|
        entry.path == mount_text(path) ==> #[trigger] before.grants(
            StorageRequest::RememberFile { entry },
        );
    &&& settles(result)
    &&& stored ==> same_content(holding(before, fact, bytes), after) && held(after, fact) == Some(
        bytes,
    )
    &&& queued ==> same_content(queueing(before, write), after)
    &&& !stored && !queued ==> result is Err && after == before
    &&& stored && can_go_stale(before, path) && remembered ==> result is Ok
    &&& queued && can_go_stale(before, path) && before.grants(StorageRequest::SyncWriteGate)
        ==> result is Ok
    &&& (stored || queued) && can_go_stale(before, path) ==> made_stale(before, after, path) && (
    entry_of(after.memory, mount_text(path)) matches Some(entry) ==> entry.bytes == bytes
        && entry.version == VersionStamp::of(before.now) && entry.valid)
    &&& stored && can_go_stale(before, path) && before.grants(probe(fact)) && result is Ok
        ==> entry_of(after.memory, mount_text(path)) is Some
}

/// Committing a whole value to a path that shows a key or an object loses nothing: it is
/// stored, or queued, or the commit fails.
#[verifier::rlimit(40)]
pub proof fn law_commits_store_or_queue_the_value(
    path: Components,
    parsed: JetStreamPath<Text>,
    fact: StorageFact<Text>,
    bytes: Seq<u8>,
    seed: Text,
    mounted_at: Time,
    store: Store,
    talk: Talk,
    turns: nat,
)
    requires
        turns >= 8,
        talk.listening(),
        JetStreamPath::parsed(mount_text(path)) == Ok::<
            JetStreamPath<Text>,
            EventFsError<Text>,
        >(parsed),
        StorageFact::of(parsed) == Some(fact),
        !(fact is StreamSubject),
        writable_whole(parsed, bytes),
        store.gate && store.grants(StorageRequest::WriteGate),
    ensures
        ({
            let (result, after, _) = run(
                committing(path, bytes, seed, mounted_at),
                store,
                talk,
                turns,
            );
            taken(store, result, after, path, parsed, fact, bytes, seed)
        }),
{
    law_parsed_paths_are_valid(mount_text(path));
    let operation = committing(path, bytes, seed, mounted_at);
    let action = write_plan(parsed)->Ok_0;
    let key = write_key(mount_text(path), bytes, seed);
    let gate = StorageRequest::WriteGate;
    let storing = |t: Talk| stored_or_queued(t, path, parsed, action, bytes, seed, mounted_at);
    lemma_turn(operation, talk, gate, storing, store, turns);
    let one = talk.told(store.reply(gate)).heard();
    let left = (turns - 1) as nat;
    let request = put(fact, bytes, key);
    let two = one.told(store.reply(request)).heard();
    let fewer = (left - 1) as nat;
    if store.grants(request) {
        let next = remembering_write(path, action, bytes);
        let writing = |t: Talk| followed(invalidated(t, path), next);
        lemma_turn(storing, one, request, writing, store, left);
        let stored = store.after(request);
        assert(stored == holding(store, fact, bytes));
        let (reached, three, rest) = lemma_invalidated(writing, path, next, stored, two, fewer);
        if can_go_stale(store, path) {
            lemma_remembered(path, parsed, fact, action, bytes, reached, three, rest);
            if forall|entry: Remembered|
                entry.path == mount_text(path) ==> #[trigger] store.grants(
                    StorageRequest::RememberFile { entry },
                ) {
                assert forall|entry: Remembered|
                    entry.path == mount_text(path) implies #[trigger] reached.grants(
                    StorageRequest::RememberFile { entry },
                ) by {
                    assert(store.grants(StorageRequest::RememberFile { entry }));
                }
            }
        }
    } else {
        let write = whole_write(store, path, parsed, fact, bytes, key);
        let complaint = "commit queued for "@ + mount_text(path) + ": "@
            + failure_text((store.fails)(request).unwrap());
        let queueing = queueing_operation(path, key, write.operation);
        let late = |t: Talk| queueing(t.complaining(complaint));
        lemma_turn(storing, one, request, late, store, left);
        lemma_goes_on(late, two, queueing, two.complaining(complaint), store, fewer);
        lemma_queued(path, key, write.operation, store, two.complaining(complaint), fewer);
    }
}

/// Records and lines have to be JSON: a commit of anything else to a record or a log fails
/// with `EINVAL`, and nothing has changed.
pub proof fn law_only_json_is_committed_to_records_and_logs(
    path: Components,
    parsed: JetStreamPath<Text>,
    fact: StorageFact<Text>,
    bytes: Seq<u8>,
    seed: Text,
    mounted_at: Time,
    store: Store,
    talk: Talk,
    turns: nat,
)
    requires
        turns >= 1,
        talk.listening(),
        JetStreamPath::parsed(mount_text(path)) == Ok::<JetStreamPath<Text>, EventFsError<Text>>(
            parsed,
        ),
        StorageFact::of(parsed) == Some(fact),
        if fact is StreamSubject {
            lines_complaint(bytes) is Some
        } else {
            !(parsed is KvKey) && !(parsed is Object) && document_complaint(bytes) is Some
        },
        store.gate && store.grants(StorageRequest::WriteGate),
    ensures
        ({
            let (result, after, _) = run(
                committing(path, bytes, seed, mounted_at),
                store,
                talk,
                turns,
            );
            result == Err::<(), Stop>(Pause::Fail(errno::EINVAL)) && after == store
        }),
{
    law_parsed_paths_are_valid(mount_text(path));
    let operation = committing(path, bytes, seed, mounted_at);
    let gate = StorageRequest::WriteGate;
    let refused = |t: Talk| (Err::<(), Stop>(Pause::Fail(errno::EINVAL)), t);
    lemma_turn(operation, talk, gate, refused, store, turns);
    lemma_end(refused, store, talk.told(store.reply(gate)).heard(), (turns - 1) as nat);
}

/// A commit to a path that cannot be written fails, and nothing has changed: what shows no
/// single value that can change is never written.
pub proof fn law_only_values_are_committed_to(
    path: Components,
    bytes: Seq<u8>,
    seed: Text,
    mounted_at: Time,
    store: Store,
    talk: Talk,
    turns: nat,
)
    requires
        turns >= 1,
        talk.listening(),
        JetStreamPath::parsed(mount_text(path)) matches Ok(parsed) ==> StorageFact::of(
            parsed,
        ) is None,
        store.gate && store.grants(StorageRequest::WriteGate),
    ensures
        ({
            let (result, after, _) = run(
                committing(path, bytes, seed, mounted_at),
                store,
                talk,
                turns,
            );
            result matches Err(Pause::Fail(_)) && after == store
        }),
{
    let operation = committing(path, bytes, seed, mounted_at);
    let gate = StorageRequest::WriteGate;
    let number = match JetStreamPath::parsed(mount_text(path)) {
        Err(error) => error.number().0,
        Ok(parsed) => write_plan(parsed)->Err_0.number().0,
    };
    let refused = |t: Talk| (Err::<(), Stop>(Pause::Fail(number)), t);
    lemma_turn(operation, talk, gate, refused, store, turns);
    lemma_end(refused, store, talk.told(store.reply(gate)).heard(), (turns - 1) as nat);
}

// ---------------------------------------------------------------------------
// Cutting to nothing
// ---------------------------------------------------------------------------

/// Cutting the file at a path to nothing.
pub open spec fn truncating(path: Components, seed: Text, mounted_at: Time) -> spec_fn(Talk) -> Step<
    (),
> {
    |talk: Talk| truncated(talk, path, seed, mounted_at).0
}

/// Cutting a key or an object to nothing writes a value without bytes: it is stored, or
/// queued, or the cut fails.
#[verifier::rlimit(40)]
pub proof fn law_truncating_writes_an_empty_value(
    path: Components,
    parsed: JetStreamPath<Text>,
    fact: StorageFact<Text>,
    seed: Text,
    mounted_at: Time,
    store: Store,
    talk: Talk,
    turns: nat,
)
    requires
        turns >= 8,
        talk.listening(),
        JetStreamPath::parsed(mount_text(path)) == Ok::<
            JetStreamPath<Text>,
            EventFsError<Text>,
        >(parsed),
        StorageFact::of(parsed) == Some(fact),
        !(fact is StreamSubject),
        writable_whole(parsed, Seq::empty()),
        store.gate && store.grants(StorageRequest::WriteGate),
    ensures
        truncated(talk, path, seed, mounted_at).1,
        ({
            let (result, after, _) = run(truncating(path, seed, mounted_at), store, talk, turns);
            taken(store, result, after, path, parsed, fact, Seq::empty(), seed)
        }),
{
    law_parsed_paths_are_valid(mount_text(path));
    let committing = committing(path, Seq::empty(), seed, mounted_at);
    lemma_goes_on(
        truncating(path, seed, mounted_at),
        talk,
        committing,
        talk,
        store,
        turns,
    );
    law_commits_store_or_queue_the_value(
        path,
        parsed,
        fact,
        Seq::empty(),
        seed,
        mounted_at,
        store,
        talk,
        turns,
    );
}

// ---------------------------------------------------------------------------
// Closing files
// ---------------------------------------------------------------------------

/// Bringing an open file into the storage.
pub open spec fn syncing(session: Session, fh: u64, mounted_at: Time) -> spec_fn(Talk) -> Step<()> {
    |talk: Talk| handle_committed(session, talk, fh, mounted_at).0
}

/// Closing an open file.
pub open spec fn releasing(session: Session, fh: u64, mounted_at: Time) -> spec_fn(Talk) -> Step<()> {
    |talk: Talk| handle_released(session, talk, fh, mounted_at).0
}

/// What an open file is to leave behind: what was written to it, and where a new file
/// that is written as a whole was left empty, what it holds by default.
pub open spec fn left_behind(file: OpenFile, bytes: Seq<u8>) -> bool {
    if file.buffer.len() > 0 || file.mode == HandleMode::JsonLines || file.staged_create is None {
        bytes == file.buffer
    } else {
        bytes == file.staged_create.unwrap().default_payload
    }
}

#[verifier::spinoff_prover]
#[verifier::rlimit(60)]
proof fn lemma_closing(
    session: Session,
    fh: u64,
    file: OpenFile,
    bytes: Seq<u8>,
    mounted_at: Time,
    talk: Talk,
)
    requires
        session.files.dom().contains(fh) && session.files[fh] == file,
        file.writable && file.dirty && !file.committed,
        left_behind(file, bytes),
    ensures
        releasing(session, fh, mounted_at)(talk) == committed(
            talk,
            file.path,
            bytes,
            file.commit_seed,
            mounted_at,
        ),
        syncing(session, fh, mounted_at)(talk) == committed(
            talk,
            file.path,
            bytes,
            file.commit_seed,
            mounted_at,
        ),
{
    assert(commit_bytes(file) == bytes);
    let done = committed(talk, file.path, bytes, file.commit_seed, mounted_at);
    assert(handle_committed(session, talk, fh, mounted_at).0 == done);
}

/// Closing or syncing a file does what a commit of its bytes to its path does, under its
/// own seed.
pub proof fn law_closing_commits_what_was_written(
    session: Session,
    fh: u64,
    file: OpenFile,
    bytes: Seq<u8>,
    mounted_at: Time,
    store: Store,
    talk: Talk,
    turns: nat,
)
    requires
        session.files.dom().contains(fh) && session.files[fh] == file,
        file.writable && file.dirty && !file.committed,
        left_behind(file, bytes),
    ensures
        run(releasing(session, fh, mounted_at), store, talk, turns) == run(
            committing(file.path, bytes, file.commit_seed, mounted_at),
            store,
            talk,
            turns,
        ),
        run(syncing(session, fh, mounted_at), store, talk, turns) == run(
            committing(file.path, bytes, file.commit_seed, mounted_at),
            store,
            talk,
            turns,
        ),
{
    let commit = committing(file.path, bytes, file.commit_seed, mounted_at);
    let release = releasing(session, fh, mounted_at);
    let sync = syncing(session, fh, mounted_at);
    assert(goes_on_as(release, talk, commit, talk) && goes_on_as(sync, talk, commit, talk)) by {
        assert forall|more: Seq<Reply>| #[trigger]
            release(talk.extended(more)) == commit(talk.extended(more)) by {
            lemma_closing(session, fh, file, bytes, mounted_at, talk.extended(more));
        }
        assert forall|more: Seq<Reply>| #[trigger]
            sync(talk.extended(more)) == commit(talk.extended(more)) by {
            lemma_closing(session, fh, file, bytes, mounted_at, talk.extended(more));
        }
    }
    lemma_goes_on(release, talk, commit, talk, store, turns);
    lemma_goes_on(sync, talk, commit, talk, store, turns);
}

/// A file that was synced has nothing left to commit, and only then: one that could not be
/// synced is as it was. Other files stay.
#[verifier::rlimit(40)]
pub proof fn law_synced_files_are_committed(session: Session, fh: u64, mounted_at: Time, talk: Talk)
    requires
        session.files.dom().contains(fh),
        session.files[fh].writable && session.files[fh].dirty && !session.files[fh].committed,
    ensures
        ({
            let ((result, _), after) = handle_committed(session, talk, fh, mounted_at);
            if result is Ok {
                &&& after.files.dom().contains(fh)
                &&& !after.files[fh].dirty && after.files[fh].committed
                &&& after == session.with(fh, after.files[fh])
                &&& forall|later: Talk|
                    #![trigger handle_committed(after, later, fh, mounted_at)]
                    handle_committed(after, later, fh, mounted_at) == (
                        (Ok::<(), Stop>(()), later),
                        after,
                    )
            } else {
                after == session
            }
        }),
{
}

/// Closing a file loses nothing: what was written to it is stored, or queued, or closing
/// it fails.
#[verifier::rlimit(40)]
pub proof fn law_closing_stores_or_queues_what_was_written(
    session: Session,
    fh: u64,
    file: OpenFile,
    bytes: Seq<u8>,
    parsed: JetStreamPath<Text>,
    fact: StorageFact<Text>,
    mounted_at: Time,
    store: Store,
    talk: Talk,
    turns: nat,
)
    requires
        turns >= 8,
        talk.listening(),
        session.files.dom().contains(fh) && session.files[fh] == file,
        file.writable && file.dirty && !file.committed,
        left_behind(file, bytes),
        JetStreamPath::parsed(mount_text(file.path)) == Ok::<
            JetStreamPath<Text>,
            EventFsError<Text>,
        >(parsed),
        StorageFact::of(parsed) == Some(fact),
        !(fact is StreamSubject),
        writable_whole(parsed, bytes),
        store.gate && store.grants(StorageRequest::WriteGate),
    ensures
        ({
            let (result, after, _) = run(releasing(session, fh, mounted_at), store, talk, turns);
            taken(store, result, after, file.path, parsed, fact, bytes, file.commit_seed)
        }),
        ({
            let (result, after, _) = run(syncing(session, fh, mounted_at), store, talk, turns);
            taken(store, result, after, file.path, parsed, fact, bytes, file.commit_seed)
        }),
{
    law_closing_commits_what_was_written(
        session,
        fh,
        file,
        bytes,
        mounted_at,
        store,
        talk,
        turns,
    );
    law_commits_store_or_queue_the_value(
        file.path,
        parsed,
        fact,
        bytes,
        file.commit_seed,
        mounted_at,
        store,
        talk,
        turns,
    );
}

/// Closing a file that nothing was written to asks for nothing and leaves no other file.
pub proof fn law_closing_asks_for_nothing_without_writes(
    session: Session,
    fh: u64,
    mounted_at: Time,
    store: Store,
    talk: Talk,
    turns: nat,
)
    requires
        session.files.dom().contains(fh) ==> {
            let file = session.files[fh];
            !file.writable || !file.dirty || file.committed
        },
    ensures
        run(releasing(session, fh, mounted_at), store, talk, turns) == (
            Ok::<(), Stop>(()),
            store,
            talk,
        ),
        handle_released(session, talk, fh, mounted_at).1 == session.without(fh),
{
    lemma_end(releasing(session, fh, mounted_at), store, talk, turns);
}

} // verus!
