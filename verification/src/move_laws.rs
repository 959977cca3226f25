//! What moving comes to: what was at one path is at the other, or the move has failed.

use vstd::prelude::*;

use crate::affected::StorageFact;
use crate::commit::queued_now;
use crate::commit_laws::{
    can_go_stale, followed, lemma_invalidated, probe, queueing, same_content, settles,
};
use crate::durable::{kv_kind, object_kind, DynamicPathKind};
use crate::errno;
use crate::errors::EventFsError;
use crate::inquiry::{
    done_in, FailedWrite, FailedWriteOperation, ObjectContent, Pause, QueuedOperation,
    QueuedWrite, Request, Revision, Step, Stop, StorageRequest, Talk,
};
use crate::keys::{rename_material, write_key};
use crate::mount_paths::{mount_text, Components};
use crate::mutations::{move_finished, move_queued, moved, no_directory, settled_call};
use crate::path::JetStreamPath;
use crate::plan::{bucket_and_name, move_of, surface_of, RenamePlan};
use crate::store::{entry_of, lemma_end, lemma_goes_on, lemma_turn, run, Store};
use crate::text::Text;
use crate::upkeep::{failure_text, invalidated, replayed, unlinked};
use crate::versions::VersionStamp;

verus! {

/// Moving a file.
pub open spec fn moving(from: Components, to: Components, flags: u32, seed: Text) -> spec_fn(
    Talk,
) -> Step<()> {
    |talk: Talk| moved(talk, from, to, flags, seed).0
}

/// Whether everything that is asked for after the queue was worked off is granted.
pub open spec fn tidies(store: Store, from: Components, to: Components) -> bool {
    &&& store.grants(StorageRequest::InvalidateAll)
    &&& can_go_stale(store, from)
    &&& store.grants(StorageRequest::ForgetPath { path: from })
    &&& can_go_stale(store, to)
}

/// Making both paths of a move stale leaves the content of the store as it is.
proof fn lemma_tidied(
    operation: spec_fn(Talk) -> Step<()>,
    from: Components,
    to: Components,
    store: Store,
    talk: Talk,
    turns: nat,
)
    requires
        turns >= 5,
        talk.listening(),
        forall|t: Talk| #[trigger]
            operation(t) == followed(unlinked(t, from), |t: Talk| invalidated(t, to)),
    ensures
        ({
            let (result, after, _) = run(operation, store, talk, turns);
            &&& settles(result)
            &&& same_content(store, after)
            &&& can_go_stale(store, from) && store.grants(
                StorageRequest::ForgetPath { path: from },
            ) && can_go_stale(store, to) ==> result is Ok
        }),
{
    let forget = StorageRequest::ForgetPath { path: from };
    let end = |t: Talk| (Ok::<(), Stop>(()), t);
    let last = |t: Talk| followed(invalidated(t, to), end);
    let forgetting = |t: Talk| followed(t.done(forget), |t: Talk| invalidated(t, to));
    assert forall|t: Talk| #[trigger] operation(t) == followed(invalidated(t, from), forgetting) by {
    }
    let (one, first, left) = lemma_invalidated(operation, from, forgetting, store, talk, turns);
    if can_go_stale(store, from) {
        if one.grants(forget) {
            lemma_turn(forgetting, first, forget, last, one, left);
            let two = one.after(forget);
            let (three, second, rest) = lemma_invalidated(
                last,
                to,
                end,
                two,
                first.told(one.reply(forget)).heard(),
                (left - 1) as nat,
            );
            if can_go_stale(store, to) {
                lemma_end(end, three, second, rest);
            }
        } else {
            let failed = |t: Talk| t.fail::<()>((one.fails)(forget).unwrap());
            lemma_turn(forgetting, first, forget, failed, one, left);
            lemma_end(
                failed,
                one,
                first.told(one.reply(forget)).heard(),
                (left - 1) as nat,
            );
        }
    }
}

/// What follows a move that is queued: the queue is worked off, and nothing else of the
/// content changes.
proof fn lemma_finished(from: Components, to: Components, store: Store, talk: Talk, turns: nat)
    requires
        turns >= 8,
        talk.listening(),
        store.grants(StorageRequest::WriteGate),
    ensures
        ({
            let (result, after, _) = run(
                |t: Talk| move_finished(t, from, to),
                store,
                talk,
                turns,
            );
            &&& settles(result)
            &&& store.grants(StorageRequest::ReplayQueue) ==> same_content(
                store.worked_off(store.queue),
                after,
            )
            &&& !store.grants(StorageRequest::ReplayQueue) ==> same_content(store, after)
            &&& tidies(store, from, to) ==> result is Ok
        }),
{
    lemma_worked_off_keeps(store, store.queue);
    let operation = |t: Talk| move_finished(t, from, to);
    let tidying = |t: Talk| followed(unlinked(t, from), |t: Talk| invalidated(t, to));
    let replay = StorageRequest::ReplayQueue;
    let gate = StorageRequest::WriteGate;
    let all = StorageRequest::InvalidateAll;
    let outcome = done_in(store.reply(replay));
    let told = |t: Talk|
        match outcome {
            Ok(()) => t,
            Err(failure) => t.complaining("queue replay failed: "@ + failure_text(failure)),
        };
    let read_only = "writeback queue has pending entries after replay; mount is read-only"@;
    let asking = |t: Talk|
        {
            let (accepting, t) = told(t).flag(gate);
            match accepting {
                Err(stop) => (Err::<(), Stop>(stop), t),
                Ok(accepting) => {
                    let t = if accepting {
                        t
                    } else {
                        t.complaining(read_only)
                    };
                    followed(t.done(all), tidying)
                },
            }
        };
    lemma_turn(operation, talk, replay, asking, store, turns);
    let one = store.after(replay);
    let first = talk.told(store.reply(replay)).heard();
    let left = (turns - 1) as nat;
    let noted = |t: Talk|
        if one.gate {
            told(t)
        } else {
            told(t).complaining(read_only)
        };
    let marking = |t: Talk| followed(noted(t).done(all), tidying);
    lemma_turn(asking, first, gate, marking, one, left);
    let second = first.told(one.reply(gate)).heard();
    let fewer = (left - 1) as nat;
    let third = second.told(one.reply(all)).heard();
    let few = (fewer - 1) as nat;
    if one.grants(all) {
        let noted_tidying = |t: Talk| tidying(noted(t));
        lemma_turn(marking, second, all, noted_tidying, one, fewer);
        let two = one.after(all);
        lemma_goes_on(noted_tidying, third, tidying, noted(third), two, few);
        lemma_tidied(tidying, from, to, two, noted(third), few);
    } else {
        let failed = |t: Talk| noted(t).fail::<()>((one.fails)(all).unwrap());
        lemma_turn(marking, second, all, failed, one, fewer);
        lemma_end(failed, one, third, few);
    }
}

/// Working off a queue changes neither what is granted nor what is remembered or marked.
pub proof fn lemma_worked_off_keeps(store: Store, writes: Seq<QueuedWrite>)
    ensures
        store.worked_off(writes).fails == store.fails,
        store.worked_off(writes).gate == store.gate,
        store.worked_off(writes).memory == store.memory,
        store.worked_off(writes).marks == store.marks,
        store.worked_off(writes).queue == Seq::<QueuedWrite>::empty(),
    decreases writes.len(),
{
    if writes.len() > 0 {
        lemma_worked_off_keeps(store, writes.drop_last());
    }
}

/// The queued completion of a move.
pub open spec fn move_write(
    store: Store,
    from: Components,
    to: Components,
    number: u64,
    bytes: Seq<u8>,
    operation: QueuedOperation,
    seed: Text,
) -> QueuedWrite {
    FailedWrite {
        idempotency_key: write_key(
            mount_text(to),
            rename_material(mount_text(from), number, bytes),
            seed,
        ),
        version: VersionStamp::of(store.now),
        path: to,
        operation,
    }
}

/// What has come of a move that is completed by a queued write: it has failed and nothing
/// has changed, or the write is in the queue, behind all others, and was made good with
/// them where the queue could be worked off.
pub open spec fn completed(
    before: Store,
    result: Result<(), Stop>,
    after: Store,
    from: Components,
    to: Components,
    write: QueuedWrite,
) -> bool {
    let queued = before.grants(StorageRequest::CurrentTime) && before.grants(
        StorageRequest::Enqueue { write },
    );
    let replayed = before.grants(StorageRequest::ReplayQueue);
    &&& settles(result)
    &&& !queued ==> result is Err && after == before
    &&& queued && !replayed ==> same_content(queueing(before, write), after)
    &&& queued && replayed ==> same_content(
        before.worked_off(before.queue).made_good(write.operation),
        after,
    ) && after.queue.len() == 0
    &&& queued && tidies(before, from, to) ==> result is Ok
}

/// The move is put into the queue and completed.
proof fn lemma_completed(
    from: Components,
    to: Components,
    write: QueuedWrite,
    store: Store,
    talk: Talk,
    turns: nat,
)
    requires
        turns >= 10,
        talk.listening(),
        store.grants(StorageRequest::WriteGate),
        write.path == to,
        write.version == VersionStamp::of(store.now),
    ensures
        ({
            let (result, after, _) = run(
                completing(from, to, write.idempotency_key, write.operation),
                store,
                talk,
                turns,
            );
            completed(store, result, after, from, to, write)
        }),
{
    let operation = completing(from, to, write.idempotency_key, write.operation);
    let next = |t: Talk| move_finished(t, from, to);
    let first = StorageRequest::CurrentTime;
    let second = StorageRequest::Enqueue { write };
    let one = talk.told(store.reply(first)).heard();
    let left = (turns - 1) as nat;
    if !store.grants(first) {
        let failed = |t: Talk| t.fail::<()>((store.fails)(first).unwrap());
        lemma_turn(operation, talk, first, failed, store, turns);
        lemma_end(failed, store, one, left);
    } else {
        let enqueueing = |t: Talk| followed(settled_call(t.try_done(second)), next);
        lemma_turn(operation, talk, first, enqueueing, store, turns);
        let two = one.told(store.reply(second)).heard();
        let fewer = (left - 1) as nat;
        if !store.grants(second) {
            let failed = |t: Talk| t.fail::<()>((store.fails)(second).unwrap());
            lemma_turn(enqueueing, one, second, failed, store, left);
            lemma_end(failed, store, two, fewer);
        } else {
            lemma_turn(enqueueing, one, second, next, store, left);
            let waiting = store.after(second);
            assert(waiting == queueing(store, write));
            lemma_finished(from, to, waiting, two, fewer);
            lemma_goes_on(next, two, |t: Talk| move_finished(t, from, to), two, waiting, fewer);
            assert(waiting.queue.drop_last() =~= store.queue);
            lemma_worked_off_alike(waiting, store, store.queue);
            lemma_worked_off_keeps(store, store.queue);
            lemma_worked_off_keeps(waiting, waiting.queue);
        }
    }
}

/// What waits in the queue plays no part in what becomes of a list of writes.
proof fn lemma_worked_off_alike(left: Store, right: Store, writes: Seq<QueuedWrite>)
    requires
        left == (Store { queue: left.queue, ..right }),
    ensures
        left.worked_off(writes) == right.worked_off(writes),
    decreases writes.len(),
{
    if writes.len() > 0 {
        lemma_worked_off_alike(left, right, writes.drop_last());
    }
}

/// Putting a move into the queue, and what follows.
spec fn completing(
    from: Components,
    to: Components,
    key: Text,
    operation: QueuedOperation,
) -> spec_fn(Talk) -> Step<()> {
    |talk: Talk|
        followed(
            settled_call(queued_now(talk, to, key, operation)),
            |t: Talk| move_finished(t, from, to),
        )
}

// ---------------------------------------------------------------------------
// Keys
// ---------------------------------------------------------------------------

/// Whether a key is nothing and nothing lies below it.
pub open spec fn key_is_free(store: Store, bucket: Text, name: Text) -> bool {
    &&& entry_of(store.values, (bucket, name)) is None
    &&& (store.listed)(StorageRequest::ListKvPrefix { bucket, prefix: name }).len() == 0
}

/// Whether a key is nothing and something lies below it: a directory.
pub open spec fn key_is_directory(store: Store, bucket: Text, name: Text) -> bool {
    &&& entry_of(store.values, (bucket, name)) is None
    &&& (store.listed)(StorageRequest::ListKvPrefix { bucket, prefix: name }).len() > 0
}

/// Whether the kind of a key can be told.
pub open spec fn key_can_be_told(store: Store, bucket: Text, name: Text) -> bool {
    &&& store.grants(StorageRequest::KvGet { bucket, key: name })
    &&& store.grants(StorageRequest::ListKvPrefix { bucket, prefix: name })
}

/// The kind of a key is what the store has there, and what follows goes on from it.
pub proof fn lemma_key_kind<T>(
    operation: spec_fn(Talk) -> Step<T>,
    bucket: Text,
    name: Text,
    rest: spec_fn(Step<DynamicPathKind>) -> Step<T>,
    next: spec_fn(Talk) -> Step<T>,
    store: Store,
    talk: Talk,
    turns: nat,
) -> (reached: (Talk, nat))
    requires
        turns >= 2,
        talk.listening(),
        key_can_be_told(store, bucket, name),
        forall|t: Talk| #[trigger] operation(t) == rest(kv_kind(t, bucket, name)),
        forall|t: Talk, request: Request| #[trigger]
            rest((Err(Pause::Ask(request)), t)) == (Err::<T, Stop>(Pause::Ask(request)), t),
        forall|t: Talk| #[trigger]
            next(t) == rest(
                (
                    Ok(
                        if entry_of(store.values, (bucket, name)) is Some {
                            DynamicPathKind::File
                        } else if key_is_free(store, bucket, name) {
                            DynamicPathKind::Missing
                        } else {
                            DynamicPathKind::Directory
                        },
                    ),
                    t,
                ),
            ),
    ensures
        reached.0.listening(),
        turns - 2 <= reached.1 < turns,
        run(operation, store, talk, turns) == run(next, store, reached.0, reached.1),
{
    let first = StorageRequest::KvGet { bucket, key: name };
    let one = talk.told(store.reply(first)).heard();
    if entry_of(store.values, (bucket, name)) is Some {
        lemma_turn(operation, talk, first, next, store, turns);
        (one, (turns - 1) as nat)
    } else {
        let second = StorageRequest::ListKvPrefix { bucket, prefix: name };
        let listing = |t: Talk|
            {
                let (below, t) = t.entries(second);
                match below {
                    Err(stop) => rest((Err(stop), t)),
                    Ok(below) => rest(
                        (
                            Ok(
                                if below.len() == 0 {
                                    DynamicPathKind::Missing
                                } else {
                                    DynamicPathKind::Directory
                                },
                            ),
                            t,
                        ),
                    ),
                }
            };
        lemma_turn(operation, talk, first, listing, store, turns);
        let left = (turns - 1) as nat;
        lemma_turn(listing, one, second, next, store, left);
        (one.told(store.reply(second)).heard(), (left - 1) as nat)
    }
}

/// Moving a key to another place: what was there is there no more, and its bytes are at
/// the other place, whether or not something was there before; or the move waits in the
/// queue with those bytes; or it fails and nothing has changed.
pub proof fn law_moving_key_takes_its_bytes_along(
    from: Components,
    to: Components,
    source_path: JetStreamPath<Text>,
    target_path: JetStreamPath<Text>,
    bucket: Text,
    source_name: Text,
    target_name: Text,
    source: Revision,
    seed: Text,
    store: Store,
    talk: Talk,
    turns: nat,
)
    requires
        turns >= 16,
        talk.listening(),
        from != to,
        JetStreamPath::parsed(mount_text(from)) == Ok::<JetStreamPath<Text>, EventFsError<Text>>(
            source_path,
        ),
        JetStreamPath::parsed(mount_text(to)) == Ok::<JetStreamPath<Text>, EventFsError<Text>>(
            target_path,
        ),
        surface_of(source_path) is Some && surface_of(source_path) == surface_of(target_path),
        StorageFact::of(source_path) == Some(StorageFact::Kv { bucket, key: source_name }),
        StorageFact::of(target_path) == Some(StorageFact::Kv { bucket, key: target_name }),
        store.gate && store.grants(StorageRequest::WriteGate),
        key_can_be_told(store, bucket, source_name),
        store.grants(StorageRequest::KvGet { bucket, key: source_name }),
        key_can_be_told(store, bucket, target_name),
        entry_of(store.values, (bucket, source_name)) == Some(source),
        !key_is_directory(store, bucket, target_name),
    ensures
        ({
            let (result, after, _) = run(moving(from, to, 0, seed), store, talk, turns);
            let write = move_write(
                store,
                from,
                to,
                source.revision,
                source.bytes,
                FailedWriteOperation::KvRenameComplete {
                    from_bucket: bucket,
                    from_key: source_name,
                    source_revision: source.revision,
                    to_bucket: bucket,
                    to_key: target_name,
                    bytes: source.bytes,
                },
                seed,
            );
            &&& completed(store, result, after, from, to, write)
            &&& store.grants(StorageRequest::CurrentTime) && store.grants(
                StorageRequest::Enqueue { write },
            ) && store.grants(StorageRequest::ReplayQueue) ==> {
                &&& entry_of(after.values, (bucket, target_name)) matches Some(arrived)
                    && arrived.bytes == source.bytes
                &&& source_name != target_name ==> entry_of(
                    after.values,
                    (bucket, source_name),
                ) is None
            }
        }),
{
    let plan = RenamePlan::Kv { from_bucket: bucket, from_key: source_name, to_bucket: bucket, to_key: target_name };
    let operation = moving(from, to, 0, seed);
    let finish = |t: Talk| move_finished(t, from, to);
    let queueing = |t: Talk| followed(move_queued(t, from, to, plan, seed).0, finish);
    let gate = StorageRequest::WriteGate;
    lemma_turn(operation, talk, gate, queueing, store, turns);
    let one = talk.told(store.reply(gate)).heard();
    let left = (turns - 1) as nat;
    let write = move_write(
        store,
        from,
        to,
        source.revision,
        source.bytes,
        FailedWriteOperation::KvRenameComplete {
                    from_bucket: bucket,
                    from_key: source_name,
                    source_revision: source.revision,
                    to_bucket: bucket,
                    to_key: target_name,
                    bytes: source.bytes,
                },
        seed,
    );
    let complete = completing(from, to, write.idempotency_key, write.operation);
    let behind = |kind: Step<DynamicPathKind>| followed(no_directory(kind), complete);
    let checking = |t: Talk| behind(kv_kind(t, bucket, target_name));
    let get = StorageRequest::KvGet { bucket, key: source_name };
    let taking = |entry: Revision, t: Talk|
        followed(
            no_directory(kv_kind(t, bucket, target_name)),
            completing(
                from,
                to,
                write_key(
                    mount_text(to),
                    rename_material(mount_text(from), entry.revision, entry.bytes),
                    seed,
                ),
                FailedWriteOperation::KvRenameComplete {
                    from_bucket: bucket,
                    from_key: source_name,
                    source_revision: entry.revision,
                    to_bucket: bucket,
                    to_key: target_name,
                    bytes: entry.bytes,
                },
            ),
        );
    let getting = |t: Talk|
        {
            let (value, t) = t.value(get);
            match value {
                Err(stop) => (Err::<(), Stop>(stop), t),
                Ok(None) => (Err(Pause::Fail(errno::ENOENT)), t),
                Ok(Some(entry)) => taking(entry, t),
            }
        };
    let sorting = |kind: Step<DynamicPathKind>|
        match kind.0 {
            Err(stop) => (Err::<(), Stop>(stop), kind.1),
            Ok(DynamicPathKind::Missing) => (Err(Pause::Fail(errno::ENOENT)), kind.1),
            Ok(DynamicPathKind::Directory) => (Err(Pause::Fail(errno::EISDIR)), kind.1),
            Ok(DynamicPathKind::File) => getting(kind.1),
        };
    assert forall|t: Talk| #[trigger] queueing(t) == sorting(kv_kind(t, bucket, source_name)) by {
    }
    let (two, fewer) = lemma_key_kind(
        queueing,
        bucket,
        source_name,
        sorting,
        getting,
        store,
        one,
        left,
    );
    lemma_turn(getting, two, get, checking, store, fewer);
    let three = two.told(store.reply(get)).heard();
    let few = (fewer - 1) as nat;
    let (four, rest) = lemma_key_kind(
        checking,
        bucket,
        target_name,
        behind,
        complete,
        store,
        three,
        few,
    );
    lemma_completed(from, to, write, store, four, rest);
}

/// Nothing is moved from where nothing is, nor a directory, nor a key onto a directory:
/// the move fails and nothing has changed.
pub proof fn law_moving_key_without_source_or_onto_directory_fails(
    from: Components,
    to: Components,
    source_path: JetStreamPath<Text>,
    target_path: JetStreamPath<Text>,
    bucket: Text,
    source_name: Text,
    target_name: Text,
    seed: Text,
    store: Store,
    talk: Talk,
    turns: nat,
)
    requires
        turns >= 16,
        talk.listening(),
        from != to,
        JetStreamPath::parsed(mount_text(from)) == Ok::<JetStreamPath<Text>, EventFsError<Text>>(
            source_path,
        ),
        JetStreamPath::parsed(mount_text(to)) == Ok::<JetStreamPath<Text>, EventFsError<Text>>(
            target_path,
        ),
        surface_of(source_path) is Some && surface_of(source_path) == surface_of(target_path),
        StorageFact::of(source_path) == Some(StorageFact::Kv { bucket, key: source_name }),
        StorageFact::of(target_path) == Some(StorageFact::Kv { bucket, key: target_name }),
        store.gate && store.grants(StorageRequest::WriteGate),
        key_can_be_told(store, bucket, source_name),
        store.grants(StorageRequest::KvGet { bucket, key: source_name }),
        key_can_be_told(store, bucket, target_name),
        entry_of(store.values, (bucket, source_name)) is None || key_is_directory(
            store,
            bucket,
            target_name,
        ),
    ensures
        ({
            let (result, after, _) = run(moving(from, to, 0, seed), store, talk, turns);
            &&& after == store
            &&& result == Err::<(), Stop>(
                Pause::Fail(
                    if key_is_free(store, bucket, source_name) {
                        errno::ENOENT
                    } else {
                        errno::EISDIR
                    },
                ),
            )
        }),
{
    let plan = RenamePlan::Kv { from_bucket: bucket, from_key: source_name, to_bucket: bucket, to_key: target_name };
    let operation = moving(from, to, 0, seed);
    let finish = |t: Talk| move_finished(t, from, to);
    let queueing = |t: Talk| followed(move_queued(t, from, to, plan, seed).0, finish);
    let gate = StorageRequest::WriteGate;
    lemma_turn(operation, talk, gate, queueing, store, turns);
    let one = talk.told(store.reply(gate)).heard();
    let left = (turns - 1) as nat;
    let get = StorageRequest::KvGet { bucket, key: source_name };
    let complete = |entry: Revision|
        completing(
            from,
            to,
            write_key(
                mount_text(to),
                rename_material(mount_text(from), entry.revision, entry.bytes),
                seed,
            ),
            FailedWriteOperation::KvRenameComplete {
                    from_bucket: bucket,
                    from_key: source_name,
                    source_revision: entry.revision,
                    to_bucket: bucket,
                    to_key: target_name,
                    bytes: entry.bytes,
                },
        );
    let getting = |t: Talk|
        {
            let (value, t) = t.value(get);
            match value {
                Err(stop) => (Err::<(), Stop>(stop), t),
                Ok(None) => (Err(Pause::Fail(errno::ENOENT)), t),
                Ok(Some(entry)) => followed(
                    no_directory(kv_kind(t, bucket, target_name)),
                    complete(entry),
                ),
            }
        };
    let sorting = |kind: Step<DynamicPathKind>|
        match kind.0 {
            Err(stop) => (Err::<(), Stop>(stop), kind.1),
            Ok(DynamicPathKind::Missing) => (Err(Pause::Fail(errno::ENOENT)), kind.1),
            Ok(DynamicPathKind::Directory) => (Err(Pause::Fail(errno::EISDIR)), kind.1),
            Ok(DynamicPathKind::File) => getting(kind.1),
        };
    assert forall|t: Talk| #[trigger] queueing(t) == sorting(kv_kind(t, bucket, source_name)) by {
    }
    let refusing = |t: Talk| (Err::<(), Stop>(Pause::Fail(errno::EISDIR)), t);
    if entry_of(store.values, (bucket, source_name)) is None {
        let number = if key_is_free(store, bucket, source_name) {
            errno::ENOENT
        } else {
            errno::EISDIR
        };
        let refusing = |t: Talk| (Err::<(), Stop>(Pause::Fail(number)), t);
        let (two, fewer) = lemma_key_kind(
            queueing,
            bucket,
            source_name,
            sorting,
            refusing,
            store,
            one,
            left,
        );
        lemma_end(refusing, store, two, fewer);
    } else {
        let (two, fewer) = lemma_key_kind(
            queueing,
            bucket,
            source_name,
            sorting,
            getting,
            store,
            one,
            left,
        );
        let source = store.values[(bucket, source_name)];
        let behind = |kind: Step<DynamicPathKind>| followed(no_directory(kind), complete(source));
        let checking = |t: Talk| behind(kv_kind(t, bucket, target_name));
        lemma_turn(getting, two, get, checking, store, fewer);
        let three = two.told(store.reply(get)).heard();
        let few = (fewer - 1) as nat;
        let (four, rest) = lemma_key_kind(
            checking,
            bucket,
            target_name,
            behind,
            refusing,
            store,
            three,
            few,
        );
        lemma_end(refusing, store, four, rest);
    }
}

// ---------------------------------------------------------------------------
// Objects
// ---------------------------------------------------------------------------

/// Whether an object is nothing and nothing lies below it.
pub open spec fn object_is_free(store: Store, bucket: Text, name: Text) -> bool {
    &&& entry_of(store.objects, (bucket, name)) is None
    &&& (store.listed)(StorageRequest::ListObjectPrefix { bucket, prefix: name }).len() == 0
}

/// Whether an object is nothing and something lies below it: a directory.
pub open spec fn object_is_directory(store: Store, bucket: Text, name: Text) -> bool {
    &&& entry_of(store.objects, (bucket, name)) is None
    &&& (store.listed)(StorageRequest::ListObjectPrefix { bucket, prefix: name }).len() > 0
}

/// Whether the kind of an object can be told.
pub open spec fn object_can_be_told(store: Store, bucket: Text, name: Text) -> bool {
    &&& store.grants(StorageRequest::ObjectMetadata { bucket, object: name })
    &&& store.grants(StorageRequest::ListObjectPrefix { bucket, prefix: name })
}

/// The kind of an object is what the store has there, and what follows goes on from it.
pub proof fn lemma_object_kind<T>(
    operation: spec_fn(Talk) -> Step<T>,
    bucket: Text,
    name: Text,
    rest: spec_fn(Step<DynamicPathKind>) -> Step<T>,
    next: spec_fn(Talk) -> Step<T>,
    store: Store,
    talk: Talk,
    turns: nat,
) -> (reached: (Talk, nat))
    requires
        turns >= 2,
        talk.listening(),
        object_can_be_told(store, bucket, name),
        forall|t: Talk| #[trigger] operation(t) == rest(object_kind(t, bucket, name)),
        forall|t: Talk, request: Request| #[trigger]
            rest((Err(Pause::Ask(request)), t)) == (Err::<T, Stop>(Pause::Ask(request)), t),
        forall|t: Talk| #[trigger]
            next(t) == rest(
                (
                    Ok(
                        if entry_of(store.objects, (bucket, name)) is Some {
                            DynamicPathKind::File
                        } else if object_is_free(store, bucket, name) {
                            DynamicPathKind::Missing
                        } else {
                            DynamicPathKind::Directory
                        },
                    ),
                    t,
                ),
            ),
    ensures
        reached.0.listening(),
        turns - 2 <= reached.1 < turns,
        run(operation, store, talk, turns) == run(next, store, reached.0, reached.1),
{
    let first = StorageRequest::ObjectMetadata { bucket, object: name };
    let one = talk.told(store.reply(first)).heard();
    if entry_of(store.objects, (bucket, name)) is Some {
        lemma_turn(operation, talk, first, next, store, turns);
        (one, (turns - 1) as nat)
    } else {
        let second = StorageRequest::ListObjectPrefix { bucket, prefix: name };
        let listing = |t: Talk|
            {
                let (below, t) = t.entries(second);
                match below {
                    Err(stop) => rest((Err(stop), t)),
                    Ok(below) => rest(
                        (
                            Ok(
                                if below.len() == 0 {
                                    DynamicPathKind::Missing
                                } else {
                                    DynamicPathKind::Directory
                                },
                            ),
                            t,
                        ),
                    ),
                }
            };
        lemma_turn(operation, talk, first, listing, store, turns);
        let left = (turns - 1) as nat;
        lemma_turn(listing, one, second, next, store, left);
        (one.told(store.reply(second)).heard(), (left - 1) as nat)
    }
}

/// Moving an object to another place: what was there is there no more, and its bytes are at
/// the other place, whether or not something was there before; or the move waits in the
/// queue with those bytes; or it fails and nothing has changed.
pub proof fn law_moving_object_takes_its_bytes_along(
    from: Components,
    to: Components,
    source_path: JetStreamPath<Text>,
    target_path: JetStreamPath<Text>,
    bucket: Text,
    source_name: Text,
    target_name: Text,
    source: ObjectContent,
    seed: Text,
    store: Store,
    talk: Talk,
    turns: nat,
)
    requires
        turns >= 16,
        talk.listening(),
        from != to,
        JetStreamPath::parsed(mount_text(from)) == Ok::<JetStreamPath<Text>, EventFsError<Text>>(
            source_path,
        ),
        JetStreamPath::parsed(mount_text(to)) == Ok::<JetStreamPath<Text>, EventFsError<Text>>(
            target_path,
        ),
        surface_of(source_path) is Some && surface_of(source_path) == surface_of(target_path),
        StorageFact::of(source_path) == Some(StorageFact::Object { bucket, name: source_name }),
        StorageFact::of(target_path) == Some(StorageFact::Object { bucket, name: target_name }),
        store.gate && store.grants(StorageRequest::WriteGate),
        object_can_be_told(store, bucket, source_name),
        store.grants(StorageRequest::ObjectGet { bucket, object: source_name }),
        object_can_be_told(store, bucket, target_name),
        entry_of(store.objects, (bucket, source_name)) == Some(source),
        !object_is_directory(store, bucket, target_name),
    ensures
        ({
            let (result, after, _) = run(moving(from, to, 0, seed), store, talk, turns);
            let write = move_write(
                store,
                from,
                to,
                source.sequence,
                source.bytes,
                FailedWriteOperation::ObjectRenameComplete {
                    from_bucket: bucket,
                    from_object: source_name,
                    source_sequence: source.sequence,
                    source_nuid: source.nuid,
                    to_bucket: bucket,
                    to_object: target_name,
                    bytes: source.bytes,
                },
                seed,
            );
            &&& completed(store, result, after, from, to, write)
            &&& store.grants(StorageRequest::CurrentTime) && store.grants(
                StorageRequest::Enqueue { write },
            ) && store.grants(StorageRequest::ReplayQueue) ==> {
                &&& entry_of(after.objects, (bucket, target_name)) matches Some(arrived)
                    && arrived.bytes == source.bytes
                &&& source_name != target_name ==> entry_of(
                    after.objects,
                    (bucket, source_name),
                ) is None
            }
        }),
{
    let plan = RenamePlan::Object { from_bucket: bucket, from_object: source_name, to_bucket: bucket, to_object: target_name };
    let operation = moving(from, to, 0, seed);
    let finish = |t: Talk| move_finished(t, from, to);
    let queueing = |t: Talk| followed(move_queued(t, from, to, plan, seed).0, finish);
    let gate = StorageRequest::WriteGate;
    lemma_turn(operation, talk, gate, queueing, store, turns);
    let one = talk.told(store.reply(gate)).heard();
    let left = (turns - 1) as nat;
    let write = move_write(
        store,
        from,
        to,
        source.sequence,
        source.bytes,
        FailedWriteOperation::ObjectRenameComplete {
                    from_bucket: bucket,
                    from_object: source_name,
                    source_sequence: source.sequence,
                    source_nuid: source.nuid,
                    to_bucket: bucket,
                    to_object: target_name,
                    bytes: source.bytes,
                },
        seed,
    );
    let complete = completing(from, to, write.idempotency_key, write.operation);
    let behind = |kind: Step<DynamicPathKind>| followed(no_directory(kind), complete);
    let checking = |t: Talk| behind(object_kind(t, bucket, target_name));
    let get = StorageRequest::ObjectGet { bucket, object: source_name };
    let taking = |entry: ObjectContent, t: Talk|
        followed(
            no_directory(object_kind(t, bucket, target_name)),
            completing(
                from,
                to,
                write_key(
                    mount_text(to),
                    rename_material(mount_text(from), entry.sequence, entry.bytes),
                    seed,
                ),
                FailedWriteOperation::ObjectRenameComplete {
                    from_bucket: bucket,
                    from_object: source_name,
                    source_sequence: entry.sequence,
                    source_nuid: entry.nuid,
                    to_bucket: bucket,
                    to_object: target_name,
                    bytes: entry.bytes,
                },
            ),
        );
    let getting = |t: Talk|
        {
            let (value, t) = t.object(get);
            match value {
                Err(stop) => (Err::<(), Stop>(stop), t),
                Ok(None) => (Err(Pause::Fail(errno::ENOENT)), t),
                Ok(Some(entry)) => taking(entry, t),
            }
        };
    let sorting = |kind: Step<DynamicPathKind>|
        match kind.0 {
            Err(stop) => (Err::<(), Stop>(stop), kind.1),
            Ok(DynamicPathKind::Missing) => (Err(Pause::Fail(errno::ENOENT)), kind.1),
            Ok(DynamicPathKind::Directory) => (Err(Pause::Fail(errno::EISDIR)), kind.1),
            Ok(DynamicPathKind::File) => getting(kind.1),
        };
    assert forall|t: Talk| #[trigger] queueing(t) == sorting(object_kind(t, bucket, source_name)) by {
    }
    let (two, fewer) = lemma_object_kind(
        queueing,
        bucket,
        source_name,
        sorting,
        getting,
        store,
        one,
        left,
    );
    lemma_turn(getting, two, get, checking, store, fewer);
    let three = two.told(store.reply(get)).heard();
    let few = (fewer - 1) as nat;
    let (four, rest) = lemma_object_kind(
        checking,
        bucket,
        target_name,
        behind,
        complete,
        store,
        three,
        few,
    );
    lemma_completed(from, to, write, store, four, rest);
}

/// Nothing is moved from where nothing is, nor a directory, nor an object onto a directory:
/// the move fails and nothing has changed.
pub proof fn law_moving_object_without_source_or_onto_directory_fails(
    from: Components,
    to: Components,
    source_path: JetStreamPath<Text>,
    target_path: JetStreamPath<Text>,
    bucket: Text,
    source_name: Text,
    target_name: Text,
    seed: Text,
    store: Store,
    talk: Talk,
    turns: nat,
)
    requires
        turns >= 16,
        talk.listening(),
        from != to,
        JetStreamPath::parsed(mount_text(from)) == Ok::<JetStreamPath<Text>, EventFsError<Text>>(
            source_path,
        ),
        JetStreamPath::parsed(mount_text(to)) == Ok::<JetStreamPath<Text>, EventFsError<Text>>(
            target_path,
        ),
        surface_of(source_path) is Some && surface_of(source_path) == surface_of(target_path),
        StorageFact::of(source_path) == Some(StorageFact::Object { bucket, name: source_name }),
        StorageFact::of(target_path) == Some(StorageFact::Object { bucket, name: target_name }),
        store.gate && store.grants(StorageRequest::WriteGate),
        object_can_be_told(store, bucket, source_name),
        store.grants(StorageRequest::ObjectGet { bucket, object: source_name }),
        object_can_be_told(store, bucket, target_name),
        entry_of(store.objects, (bucket, source_name)) is None || object_is_directory(
            store,
            bucket,
            target_name,
        ),
    ensures
        ({
            let (result, after, _) = run(moving(from, to, 0, seed), store, talk, turns);
            &&& after == store
            &&& result == Err::<(), Stop>(
                Pause::Fail(
                    if object_is_free(store, bucket, source_name) {
                        errno::ENOENT
                    } else {
                        errno::EISDIR
                    },
                ),
            )
        }),
{
    let plan = RenamePlan::Object { from_bucket: bucket, from_object: source_name, to_bucket: bucket, to_object: target_name };
    let operation = moving(from, to, 0, seed);
    let finish = |t: Talk| move_finished(t, from, to);
    let queueing = |t: Talk| followed(move_queued(t, from, to, plan, seed).0, finish);
    let gate = StorageRequest::WriteGate;
    lemma_turn(operation, talk, gate, queueing, store, turns);
    let one = talk.told(store.reply(gate)).heard();
    let left = (turns - 1) as nat;
    let get = StorageRequest::ObjectGet { bucket, object: source_name };
    let complete = |entry: ObjectContent|
        completing(
            from,
            to,
            write_key(
                mount_text(to),
                rename_material(mount_text(from), entry.sequence, entry.bytes),
                seed,
            ),
            FailedWriteOperation::ObjectRenameComplete {
                    from_bucket: bucket,
                    from_object: source_name,
                    source_sequence: entry.sequence,
                    source_nuid: entry.nuid,
                    to_bucket: bucket,
                    to_object: target_name,
                    bytes: entry.bytes,
                },
        );
    let getting = |t: Talk|
        {
            let (value, t) = t.object(get);
            match value {
                Err(stop) => (Err::<(), Stop>(stop), t),
                Ok(None) => (Err(Pause::Fail(errno::ENOENT)), t),
                Ok(Some(entry)) => followed(
                    no_directory(object_kind(t, bucket, target_name)),
                    complete(entry),
                ),
            }
        };
    let sorting = |kind: Step<DynamicPathKind>|
        match kind.0 {
            Err(stop) => (Err::<(), Stop>(stop), kind.1),
            Ok(DynamicPathKind::Missing) => (Err(Pause::Fail(errno::ENOENT)), kind.1),
            Ok(DynamicPathKind::Directory) => (Err(Pause::Fail(errno::EISDIR)), kind.1),
            Ok(DynamicPathKind::File) => getting(kind.1),
        };
    assert forall|t: Talk| #[trigger] queueing(t) == sorting(object_kind(t, bucket, source_name)) by {
    }
    let refusing = |t: Talk| (Err::<(), Stop>(Pause::Fail(errno::EISDIR)), t);
    if entry_of(store.objects, (bucket, source_name)) is None {
        let number = if object_is_free(store, bucket, source_name) {
            errno::ENOENT
        } else {
            errno::EISDIR
        };
        let refusing = |t: Talk| (Err::<(), Stop>(Pause::Fail(number)), t);
        let (two, fewer) = lemma_object_kind(
            queueing,
            bucket,
            source_name,
            sorting,
            refusing,
            store,
            one,
            left,
        );
        lemma_end(refusing, store, two, fewer);
    } else {
        let (two, fewer) = lemma_object_kind(
            queueing,
            bucket,
            source_name,
            sorting,
            getting,
            store,
            one,
            left,
        );
        let source = store.objects[(bucket, source_name)];
        let behind = |kind: Step<DynamicPathKind>| followed(no_directory(kind), complete(source));
        let checking = |t: Talk| behind(object_kind(t, bucket, target_name));
        lemma_turn(getting, two, get, checking, store, fewer);
        let three = two.told(store.reply(get)).heard();
        let few = (fewer - 1) as nat;
        let (four, rest) = lemma_object_kind(
            checking,
            bucket,
            target_name,
            behind,
            refusing,
            store,
            three,
            few,
        );
        lemma_end(refusing, store, four, rest);
    }
}

// ---------------------------------------------------------------------------
// Refusals
// ---------------------------------------------------------------------------

/// A move with flags, or between places that do not belong together, fails and changes
/// nothing; one to the same place succeeds and changes nothing.
pub proof fn law_moves_stay_within_their_place(
    from: Components,
    to: Components,
    source_path: JetStreamPath<Text>,
    target_path: JetStreamPath<Text>,
    flags: u32,
    seed: Text,
    store: Store,
    talk: Talk,
    turns: nat,
)
    requires
        turns >= 1,
        talk.listening(),
        JetStreamPath::parsed(mount_text(from)) == Ok::<JetStreamPath<Text>, EventFsError<Text>>(
            source_path,
        ),
        JetStreamPath::parsed(mount_text(to)) == Ok::<JetStreamPath<Text>, EventFsError<Text>>(
            target_path,
        ),
        flags != 0 || from == to || surface_of(source_path) is None || surface_of(source_path)
            != surface_of(target_path),
        store.gate && store.grants(StorageRequest::WriteGate),
    ensures
        ({
            let (result, after, _) = run(moving(from, to, flags, seed), store, talk, turns);
            &&& after == store
            &&& result == if flags != 0 {
                Err::<(), Stop>(Pause::Fail(errno::EINVAL))
            } else if from == to {
                Ok(())
            } else {
                Err(Pause::Fail(errno::EXDEV))
            }
        }),
{
    let operation = moving(from, to, flags, seed);
    let gate = StorageRequest::WriteGate;
    let result = if flags != 0 {
        Err::<(), Stop>(Pause::Fail(errno::EINVAL))
    } else if from == to {
        Ok(())
    } else {
        Err(Pause::Fail(errno::EXDEV))
    };
    let ended = |t: Talk| (result, t);
    lemma_turn(operation, talk, gate, ended, store, turns);
    lemma_end(ended, store, talk.told(store.reply(gate)).heard(), (turns - 1) as nat);
}

/// A move fails where the storage cannot tell what is to be moved, and nothing has changed.
pub proof fn law_moves_need_a_source(
    from: Components,
    to: Components,
    source_path: JetStreamPath<Text>,
    target_path: JetStreamPath<Text>,
    seed: Text,
    store: Store,
    talk: Talk,
    turns: nat,
)
    requires
        turns >= 2,
        talk.listening(),
        from != to,
        JetStreamPath::parsed(mount_text(from)) == Ok::<JetStreamPath<Text>, EventFsError<Text>>(
            source_path,
        ),
        JetStreamPath::parsed(mount_text(to)) == Ok::<JetStreamPath<Text>, EventFsError<Text>>(
            target_path,
        ),
        surface_of(source_path) is Some && surface_of(source_path) == surface_of(target_path),
        bucket_and_name(source_path).unwrap().0 == bucket_and_name(target_path).unwrap().0,
        store.gate && store.grants(StorageRequest::WriteGate),
        StorageFact::of(source_path) matches Some(fact) && !store.grants(probe(fact)),
    ensures
        ({
            let (result, after, _) = run(moving(from, to, 0, seed), store, talk, turns);
            result matches Err(Pause::Fail(_)) && after == store
        }),
{
    let operation = moving(from, to, 0, seed);
    let gate = StorageRequest::WriteGate;
    let plan = move_of(source_path, target_path).unwrap();
    let finish = |t: Talk| move_finished(t, from, to);
    let queueing = |t: Talk| followed(move_queued(t, from, to, plan, seed).0, finish);
    lemma_turn(operation, talk, gate, queueing, store, turns);
    let one = talk.told(store.reply(gate)).heard();
    let left = (turns - 1) as nat;
    let request = probe(StorageFact::of(source_path).unwrap());
    let failed = |t: Talk| t.fail::<()>((store.fails)(request).unwrap());
    lemma_turn(queueing, one, request, failed, store, left);
    lemma_end(failed, store, one.told(store.reply(request)).heard(), (left - 1) as nat);
}

} // verus!
