//! What changes of the tree come to: what is removed is gone, what is made is there, and
//! what is refused leaves everything as it was.

use vstd::prelude::*;

use crate::affected::StorageFact;
use crate::commit::committed;
use crate::commit_laws::{
    can_go_stale, committing, followed, law_commits_store_or_queue_the_value, lemma_invalidated,
    local, same_content, settles, subtree, taken, writable_whole,
};
use crate::durable::{kv_kind, object_kind, DynamicPathKind};
use crate::errno;
use crate::errors::EventFsError;
use crate::inquiry::{done_in, Pause, Request, Step, Stop, StorageRequest, Talk};
use crate::kinds::creation;
use crate::mount_paths::{mount_text, Components};
use crate::move_laws::{
    key_can_be_told, key_is_free, lemma_key_kind, lemma_object_kind, lemma_worked_off_keeps,
    object_can_be_told, object_is_free,
};
use crate::mutations::{directory_made, directory_needed, file_made, removal};
use crate::overlay::queued_entries;
use crate::path::JetStreamPath;
use crate::path_laws::law_parsed_paths_are_valid;
use crate::plan::{mkdir_plan, unlink_plan};
use crate::store::{entry_of, lemma_end, lemma_goes_on, lemma_turn, run, Store};
use crate::text::Text;
use crate::upkeep::{
    drained, errors_with, failure_text, gate_passed, gate_synced, invalidated, replayed,
    unlinked, KEPT_ERRORS,
};
use crate::versions::Time;

verus! {

// ---------------------------------------------------------------------------
// Removing
// ---------------------------------------------------------------------------

/// Removing the file at a path.
pub open spec fn removing(path: Components) -> spec_fn(Talk) -> Step<()> {
    |talk: Talk| removal(talk, path)
}

/// The request that removes a value.
pub open spec fn delete(fact: StorageFact<Text>) -> Request {
    match fact {
        StorageFact::Kv { bucket, key } => StorageRequest::KvDelete { bucket, key },
        StorageFact::Object { bucket, name } => StorageRequest::ObjectDelete {
            bucket,
            object: name,
        },
        StorageFact::StreamSubject { .. } => StorageRequest::WriteGate,
    }
}

/// The store without a value.
pub open spec fn lacking(store: Store, fact: StorageFact<Text>) -> Store {
    match fact {
        StorageFact::Kv { bucket, key } => store.without_value(bucket, key),
        StorageFact::Object { bucket, name } => store.without_object(bucket, name),
        StorageFact::StreamSubject { .. } => store,
    }
}

/// Removing a key, an object or a record: the storage has it no more, nothing else in it
/// has changed, and the path is stale and has lost its inode. Where the storage refuses,
/// removing fails and nothing has changed.
pub proof fn law_removed_files_are_gone(
    path: Components,
    parsed: JetStreamPath<Text>,
    fact: StorageFact<Text>,
    store: Store,
    talk: Talk,
    turns: nat,
)
    requires
        turns >= 5,
        talk.listening(),
        JetStreamPath::parsed(mount_text(path)) == Ok::<JetStreamPath<Text>, EventFsError<Text>>(
            parsed,
        ),
        StorageFact::of(parsed) == Some(fact),
        !(fact is StreamSubject),
        store.gate && store.grants(StorageRequest::WriteGate),
    ensures
        ({
            let (result, after, _) = run(removing(path), store, talk, turns);
            let forget = StorageRequest::ForgetPath { path };
            &&& settles(result)
            &&& store.grants(delete(fact)) ==> {
                &&& same_content(lacking(store, fact), after)
                &&& can_go_stale(store, path) ==> (result is Ok <==> store.grants(forget))
                &&& can_go_stale(store, path) && store.grants(forget) ==> {
                    &&& entry_of(after.memory, mount_text(path)) is None
                    &&& after.marks.len() == store.marks.len() + 2
                    &&& after.marks.last() == forget
                    &&& after.marks[store.marks.len() as int] == local(path)
                        || after.marks[store.marks.len() as int] == subtree(
                        path,
                    )
                }
            }
            &&& !store.grants(delete(fact)) ==> result is Err && after == store
        }),
{
    law_parsed_paths_are_valid(mount_text(path));
    let gate = StorageRequest::WriteGate;
    let request = delete(fact);
    let forget = StorageRequest::ForgetPath { path };
    let tidying = |t: Talk| unlinked(t, path);
    let deleting = |t: Talk| followed(t.done(request), tidying);
    lemma_turn(removing(path), talk, gate, deleting, store, turns);
    let one = talk.told(store.reply(gate)).heard();
    let left = (turns - 1) as nat;
    let two = one.told(store.reply(request)).heard();
    let fewer = (left - 1) as nat;
    if store.grants(request) {
        lemma_turn(deleting, one, request, tidying, store, left);
        let gone = store.after(request);
        assert(gone == lacking(store, fact));
        let forgetting = |t: Talk| t.done(forget);
        assert forall|t: Talk| #[trigger] tidying(t) == followed(invalidated(t, path), forgetting) by {
        }
        let (reached, three, rest) = lemma_invalidated(tidying, path, forgetting, gone, two, fewer);
        if can_go_stale(store, path) {
            let outcome = done_in(reached.reply(forget));
            let finish = |t: Talk| t.settle(outcome);
            lemma_turn(forgetting, three, forget, finish, reached, rest);
            lemma_end(
                finish,
                reached.after(forget),
                three.told(reached.reply(forget)).heard(),
                (rest - 1) as nat,
            );
        }
    } else {
        let failed = |t: Talk| t.fail::<()>((store.fails)(request).unwrap());
        lemma_turn(deleting, one, request, failed, store, left);
        lemma_end(failed, store, two, fewer);
    }
}

/// Nothing else can be removed: neither a log nor a path that shows no single value. It
/// fails, and nothing has changed.
pub proof fn law_only_whole_files_are_removed(
    path: Components,
    parsed: JetStreamPath<Text>,
    store: Store,
    talk: Talk,
    turns: nat,
)
    requires
        turns >= 1,
        talk.listening(),
        JetStreamPath::parsed(mount_text(path)) == Ok::<JetStreamPath<Text>, EventFsError<Text>>(
            parsed,
        ),
        StorageFact::of(parsed) matches Some(fact) ==> fact is StreamSubject,
        store.gate && store.grants(StorageRequest::WriteGate),
    ensures
        ({
            let (result, after, _) = run(removing(path), store, talk, turns);
            result matches Err(Pause::Fail(_)) && after == store
        }),
{
    let gate = StorageRequest::WriteGate;
    let one = talk.told(store.reply(gate)).heard();
    let refused = |t: Talk|
        match unlink_plan(parsed) {
            Err(error) => (Err::<(), Stop>(Pause::Fail(error.number().0)), t),
            Ok(_) => (Err(Pause::Fail(errno::EROFS)), t),
        };
    lemma_turn(removing(path), talk, gate, refused, store, turns);
    lemma_end(refused, store, one, (turns - 1) as nat);
}

// ---------------------------------------------------------------------------
// Making directories
// ---------------------------------------------------------------------------

/// Making the directory at a path.
pub open spec fn making_directory(path: Components) -> spec_fn(Talk) -> Step<()> {
    |talk: Talk| directory_made(talk, path)
}

/// What has to be made sure of for a directory that is made.
pub open spec fn ensuring(parsed: JetStreamPath<Text>) -> Option<Request> {
    match parsed {
        JetStreamPath::KvBucket { bucket } => Some(StorageRequest::EnsureKvBucket { bucket }),
        JetStreamPath::StreamRoot { stream } => Some(StorageRequest::EnsureStream { stream }),
        JetStreamPath::ObjectBucket { bucket } => Some(
            StorageRequest::EnsureObjectBucket { bucket },
        ),
        _ => None,
    }
}

/// Making the directory of a bucket or of a stream makes sure that the storage has it, and
/// succeeds exactly where the storage does so.
pub proof fn law_made_directories_are_ensured(
    path: Components,
    parsed: JetStreamPath<Text>,
    store: Store,
    talk: Talk,
    turns: nat,
)
    requires
        turns >= 2,
        talk.listening(),
        JetStreamPath::parsed(mount_text(path)) == Ok::<JetStreamPath<Text>, EventFsError<Text>>(
            parsed,
        ),
        ensuring(parsed) is Some,
        store.gate && store.grants(StorageRequest::WriteGate),
    ensures
        ({
            let (result, after, _) = run(making_directory(path), store, talk, turns);
            let request = ensuring(parsed).unwrap();
            if store.grants(request) {
                &&& result is Ok
                &&& after == (Store { ensured: store.ensured.insert(request), ..store })
            } else {
                result matches Err(Pause::Fail(_)) && after == store
            }
        }),
{
    let gate = StorageRequest::WriteGate;
    let request = ensuring(parsed).unwrap();
    let asking = |t: Talk| t.done(request);
    lemma_turn(making_directory(path), talk, gate, asking, store, turns);
    let one = talk.told(store.reply(gate)).heard();
    let left = (turns - 1) as nat;
    let outcome = done_in(store.reply(request));
    let finish = |t: Talk| t.settle(outcome);
    lemma_turn(asking, one, request, finish, store, left);
    lemma_end(
        finish,
        store.after(request),
        one.told(store.reply(request)).heard(),
        (left - 1) as nat,
    );
}

/// Below a bucket a directory is there exactly where something lies below it: making it
/// succeeds there, fails with `EEXIST` where a file is, and with `ENOENT` otherwise.
/// Nothing changes.
pub proof fn law_directories_below_buckets_cannot_be_made(
    path: Components,
    parsed: JetStreamPath<Text>,
    store: Store,
    talk: Talk,
    turns: nat,
)
    requires
        turns >= 3,
        talk.listening(),
        JetStreamPath::parsed(mount_text(path)) == Ok::<JetStreamPath<Text>, EventFsError<Text>>(
            parsed,
        ),
        match parsed {
            JetStreamPath::KvKey { bucket, key } => key_can_be_told(store, bucket, key),
            JetStreamPath::Object { bucket, object } => object_can_be_told(store, bucket, object),
            _ => false,
        },
        store.gate && store.grants(StorageRequest::WriteGate),
    ensures
        ({
            let (result, after, _) = run(making_directory(path), store, talk, turns);
            let (file, free) = match parsed {
                JetStreamPath::KvKey { bucket, key } => (
                    entry_of(store.values, (bucket, key)) is Some,
                    key_is_free(store, bucket, key),
                ),
                JetStreamPath::Object { bucket, object } => (
                    entry_of(store.objects, (bucket, object)) is Some,
                    object_is_free(store, bucket, object),
                ),
                _ => (false, false),
            };
            &&& after == store
            &&& result == if file {
                Err::<(), Stop>(Pause::Fail(errno::EEXIST))
            } else if free {
                Err(Pause::Fail(errno::ENOENT))
            } else {
                Ok(())
            }
        }),
{
    let gate = StorageRequest::WriteGate;
    let one = talk.told(store.reply(gate)).heard();
    let left = (turns - 1) as nat;
    let rest = |step: Step<DynamicPathKind>| directory_needed(step);
    match parsed {
        JetStreamPath::KvKey { bucket, key } => {
            let kind = if entry_of(store.values, (bucket, key)) is Some {
                DynamicPathKind::File
            } else if key_is_free(store, bucket, key) {
                DynamicPathKind::Missing
            } else {
                DynamicPathKind::Directory
            };
            let needing = |t: Talk| rest(kv_kind(t, bucket, key));
            let finish = |t: Talk| rest((Ok(kind), t));
            lemma_turn(making_directory(path), talk, gate, needing, store, turns);
            let (two, fewer) = lemma_key_kind(
                needing,
                bucket,
                key,
                rest,
                finish,
                store,
                one,
                left,
            );
            lemma_end(finish, store, two, fewer);
        },
        JetStreamPath::Object { bucket, object } => {
            let kind = if entry_of(store.objects, (bucket, object)) is Some {
                DynamicPathKind::File
            } else if object_is_free(store, bucket, object) {
                DynamicPathKind::Missing
            } else {
                DynamicPathKind::Directory
            };
            let needing = |t: Talk| rest(object_kind(t, bucket, object));
            let finish = |t: Talk| rest((Ok(kind), t));
            lemma_turn(making_directory(path), talk, gate, needing, store, turns);
            let (two, fewer) = lemma_object_kind(
                needing,
                bucket,
                object,
                rest,
                finish,
                store,
                one,
                left,
            );
            lemma_end(finish, store, two, fewer);
        },
        _ => {},
    }
}

/// The directories of the materialized tree, and those of a stream, are there anyway:
/// making them succeeds. Every other path can be no directory. Nothing changes.
pub proof fn law_other_directories_are_there_or_cannot_be(
    path: Components,
    parsed: JetStreamPath<Text>,
    store: Store,
    talk: Talk,
    turns: nat,
)
    requires
        turns >= 1,
        talk.listening(),
        JetStreamPath::parsed(mount_text(path)) == Ok::<JetStreamPath<Text>, EventFsError<Text>>(
            parsed,
        ),
        ensuring(parsed) is None,
        !(parsed is KvKey) && !(parsed is Object),
        store.gate && store.grants(StorageRequest::WriteGate),
    ensures
        ({
            let (result, after, _) = run(making_directory(path), store, talk, turns);
            let there = parsed is StreamMessages || parsed is StreamSubjects
                || parsed is TaskNamespace || parsed is AgentRoot || parsed is AgentDirectory
                || parsed is SemanticArea;
            &&& after == store
            &&& there ==> result is Ok
            &&& !there ==> (result matches Err(Pause::Fail(_)))
        }),
{
    let gate = StorageRequest::WriteGate;
    let one = talk.told(store.reply(gate)).heard();
    let finish = |t: Talk|
        match mkdir_plan(parsed) {
            Err(error) => (Err::<(), Stop>(Pause::Fail(error.number().0)), t),
            Ok(_) => (Ok(()), t),
        };
    lemma_turn(making_directory(path), talk, gate, finish, store, turns);
    lemma_end(finish, store, one, (turns - 1) as nat);
}

// ---------------------------------------------------------------------------
// Making files
// ---------------------------------------------------------------------------

/// Making the file at a path while nothing is queued.
pub open spec fn making_file(path: Components, mode: u32, seed: Text, mounted_at: Time) -> spec_fn(
    Talk,
) -> Step<u64> {
    |talk: Talk| file_made(talk, Seq::empty(), path, mode, seed, mounted_at).0
}

/// A result with something else in it.
pub open spec fn valued<T>(result: Result<(), Stop>, value: T) -> Result<T, Stop> {
    match result {
        Ok(()) => Ok(value),
        Err(stop) => Err(stop),
    }
}

/// An operation that differs from another in what it hands out comes to the same.
pub proof fn lemma_valued<T>(
    operation: spec_fn(Talk) -> Step<T>,
    other: spec_fn(Talk) -> Step<()>,
    value: T,
    store: Store,
    talk: Talk,
    turns: nat,
)
    requires
        forall|t: Talk| #[trigger] operation(t) == (valued(other(t).0, value), other(t).1),
    ensures
        ({
            let (result, after, later) = run(other, store, talk, turns);
            run(operation, store, talk, turns) == (valued(result, value), after, later)
        }),
    decreases turns,
{
    assert(operation(talk) == (valued(other(talk).0, value), other(talk).1));
    if turns > 0 {
        if let Err(Pause::Ask(request)) = other(talk).0 {
            lemma_valued(
                operation,
                other,
                value,
                store.after(request),
                talk.told(store.reply(request)),
                (turns - 1) as nat,
            );
        }
    }
}

/// What a new file holds: nothing, or `null` where it is a record.
pub open spec fn blank(parsed: JetStreamPath<Text>) -> Seq<u8> {
    if parsed is KvKey || parsed is Object {
        Seq::empty()
    } else {
        seq!['n' as u8, 'u' as u8, 'l' as u8, 'l' as u8]
    }
}

/// Whether the kind of the value behind a path can be told.
pub open spec fn can_be_told(store: Store, fact: StorageFact<Text>) -> bool {
    match fact {
        StorageFact::Kv { bucket, key } => key_can_be_told(store, bucket, key),
        StorageFact::Object { bucket, name } => object_can_be_told(store, bucket, name),
        StorageFact::StreamSubject { .. } => false,
    }
}

/// What is at the place of a value.
pub open spec fn kind_at(store: Store, fact: StorageFact<Text>) -> DynamicPathKind {
    match fact {
        StorageFact::Kv { bucket, key } => if entry_of(store.values, (bucket, key)) is Some {
            DynamicPathKind::File
        } else if key_is_free(store, bucket, key) {
            DynamicPathKind::Missing
        } else {
            DynamicPathKind::Directory
        },
        StorageFact::Object { bucket, name } => if entry_of(store.objects, (bucket, name)) is Some {
            DynamicPathKind::File
        } else if object_is_free(store, bucket, name) {
            DynamicPathKind::Missing
        } else {
            DynamicPathKind::Directory
        },
        StorageFact::StreamSubject { .. } => DynamicPathKind::Missing,
    }
}

/// Writing what a new file holds.
#[verifier::opaque]
spec fn storing(
    path: Components,
    payload: Seq<u8>,
    seed: Text,
    mounted_at: Time,
    talk: Talk,
) -> Step<u64> {
    let (done, talk) = committed(talk, path, payload, seed, mounted_at);
    (valued(done, payload.len() as u64), talk)
}

/// Making a file once it is known what is at its place.
spec fn sorted_out(
    path: Components,
    parsed: JetStreamPath<Text>,
    seed: Text,
    mounted_at: Time,
) -> spec_fn(Step<DynamicPathKind>) -> Step<u64> {
    |step: Step<DynamicPathKind>|
        match step.0 {
            Err(Pause::Fail(number)) if !(parsed is KvKey) && !(parsed is Object) && number
                == errno::ENOENT => storing(path, blank(parsed), seed, mounted_at, step.1),
            Err(stop) => (Err::<u64, Stop>(stop), step.1),
            Ok(DynamicPathKind::Missing) => storing(path, blank(parsed), seed, mounted_at, step.1),
            Ok(DynamicPathKind::File) => (Err(Pause::Fail(errno::EEXIST)), step.1),
            Ok(DynamicPathKind::Directory) => (Err(Pause::Fail(errno::EISDIR)), step.1),
        }
}

/// Making a file once the changes that were seen are taken in.
spec fn telling(
    path: Components,
    parsed: JetStreamPath<Text>,
    fact: StorageFact<Text>,
    seed: Text,
    mounted_at: Time,
) -> spec_fn(Talk) -> Step<u64> {
    |talk: Talk|
        match fact {
            StorageFact::Kv { bucket, key } => sorted_out(path, parsed, seed, mounted_at)(
                kv_kind(talk, bucket, key),
            ),
            StorageFact::Object { bucket, name } => sorted_out(path, parsed, seed, mounted_at)(
                object_kind(talk, bucket, name),
            ),
            _ => (Err::<u64, Stop>(Pause::Fail(errno::EIO)), talk),
        }
}

#[verifier::rlimit(40)]
proof fn lemma_making_file(
    path: Components,
    parsed: JetStreamPath<Text>,
    fact: StorageFact<Text>,
    mode: u32,
    seed: Text,
    mounted_at: Time,
    talk: Talk,
)
    requires
        JetStreamPath::parsed(mount_text(path)) == Ok::<JetStreamPath<Text>, EventFsError<Text>>(
            parsed,
        ),
        StorageFact::of(parsed) == Some(fact),
        !(fact is StreamSubject),
        mode & errno::S_IFMT == errno::S_IFREG,
    ensures
        making_file(path, mode, seed, mounted_at)(talk) == {
            let (allowed, talk) = gate_passed(talk);
            match allowed {
                Err(stop) => (Err::<u64, Stop>(stop), talk),
                Ok(()) => {
                    let (done, talk) = drained(talk);
                    match done {
                        Err(stop) => (Err(stop), talk),
                        Ok(()) => telling(path, parsed, fact, seed, mounted_at)(talk),
                    }
                },
            }
        },
{
    law_parsed_paths_are_valid(mount_text(path));
    assert(queued_entries(Seq::empty(), path) =~= Seq::empty());
    let allowed = gate_passed(talk);
    let done = drained(allowed.1);
    if allowed.0 is Ok && done.0 is Ok {
        let made = creation(allowed.1, Seq::empty(), path);
        let payload = blank(parsed);
        assert(made.0 matches Ok(content) ==> content =~= payload);
        assert(file_made(talk, Seq::empty(), path, mode, seed, mounted_at).0 == match made.0 {
            Err(stop) => (Err::<u64, Stop>(stop), made.1),
            Ok(_) => storing(path, payload, seed, mounted_at, made.1),
        }) by {
            reveal(storing);
        }
    }
}

/// Making a file where nothing is writes what a new file holds: it is stored, or queued,
/// or making it fails; where it succeeds it is as long as that. Where a file or a
/// directory is already, it fails with `EEXIST` or `EISDIR`, and nothing has changed.
#[verifier::rlimit(40)]
pub proof fn law_made_files_are_stored_or_queued(
    path: Components,
    parsed: JetStreamPath<Text>,
    fact: StorageFact<Text>,
    mode: u32,
    seed: Text,
    mounted_at: Time,
    store: Store,
    talk: Talk,
    turns: nat,
)
    requires
        turns >= 12,
        talk.listening(),
        JetStreamPath::parsed(mount_text(path)) == Ok::<JetStreamPath<Text>, EventFsError<Text>>(
            parsed,
        ),
        StorageFact::of(parsed) == Some(fact),
        !(fact is StreamSubject),
        writable_whole(parsed, blank(parsed)),
        mode & errno::S_IFMT == errno::S_IFREG,
        store.gate && store.grants(StorageRequest::WriteGate),
        store.grants(StorageRequest::DrainWatchEvents),
        can_be_told(store, fact),
    ensures
        ({
            let (result, after, _) = run(
                making_file(path, mode, seed, mounted_at),
                store,
                talk,
                turns,
            );
            match kind_at(store, fact) {
                DynamicPathKind::Missing => exists|done: Result<(), Stop>| #[trigger]
                    taken(store, done, after, path, parsed, fact, blank(parsed), seed) && result
                        == valued(done, blank(parsed).len() as u64),
                DynamicPathKind::File => result == Err::<u64, Stop>(Pause::Fail(errno::EEXIST))
                    && after == store,
                DynamicPathKind::Directory => result == Err::<u64, Stop>(
                    Pause::Fail(errno::EISDIR),
                ) && after == store,
            }
        }),
{
    law_parsed_paths_are_valid(mount_text(path));
    let operation = making_file(path, mode, seed, mounted_at);
    let gate = StorageRequest::WriteGate;
    let drain = StorageRequest::DrainWatchEvents;
    let payload = blank(parsed);
    let rest = sorted_out(path, parsed, seed, mounted_at);
    let tell = telling(path, parsed, fact, seed, mounted_at);
    let draining = |t: Talk|
        {
            let (done, t) = drained(t);
            match done {
                Err(stop) => (Err::<u64, Stop>(stop), t),
                Ok(()) => tell(t),
            }
        };
    let gated = |t: Talk|
        {
            let (allowed, t) = gate_passed(t);
            match allowed {
                Err(stop) => (Err::<u64, Stop>(stop), t),
                Ok(()) => draining(t),
            }
        };
    assert forall|t: Talk| #[trigger] operation(t) == gated(t) by {
        lemma_making_file(path, parsed, fact, mode, seed, mounted_at, t);
    }
    lemma_goes_on(operation, talk, gated, talk, store, turns);
    lemma_turn(gated, talk, gate, draining, store, turns);
    let one = talk.told(store.reply(gate)).heard();
    let left = (turns - 1) as nat;
    lemma_turn(draining, one, drain, tell, store, left);
    let two = one.told(store.reply(drain)).heard();
    let fewer = (left - 1) as nat;
    let next = |t: Talk| rest((Ok(kind_at(store, fact)), t));
    let (three, few) = match fact {
        StorageFact::Kv { bucket, key } => lemma_key_kind(
            tell,
            bucket,
            key,
            rest,
            next,
            store,
            two,
            fewer,
        ),
        StorageFact::Object { bucket, name } => lemma_object_kind(
            tell,
            bucket,
            name,
            rest,
            next,
            store,
            two,
            fewer,
        ),
        _ => (two, fewer),
    };
    assert(run(operation, store, talk, turns) == run(next, store, three, few));
    match kind_at(store, fact) {
        DynamicPathKind::Missing => {
            let commit = committing(path, payload, seed, mounted_at);
            assert forall|t: Talk| #[trigger]
                next(t) == (valued(commit(t).0, payload.len() as u64), commit(t).1) by {
                reveal(storing);
            }
            lemma_valued(next, commit, payload.len() as u64, store, three, few);
            law_commits_store_or_queue_the_value(
                path,
                parsed,
                fact,
                payload,
                seed,
                mounted_at,
                store,
                three,
                few,
            );
            let (done, after, _) = run(commit, store, three, few);
            assert(taken(store, done, after, path, parsed, fact, payload, seed));
            assert(run(operation, store, talk, turns).0 == valued(done, payload.len() as u64));
            assert(run(operation, store, talk, turns).1 == after);
        },
        _ => {
            lemma_end(next, store, three, few);
        },
    }
}

/// Only plain files are made, and none where lines are appended: `ENOTSUP` comes back, and
/// nothing has changed.
pub proof fn law_only_plain_whole_files_are_made(
    path: Components,
    parsed: JetStreamPath<Text>,
    mode: u32,
    seed: Text,
    mounted_at: Time,
    store: Store,
    talk: Talk,
    turns: nat,
)
    requires
        turns >= 2,
        talk.listening(),
        JetStreamPath::parsed(mount_text(path)) == Ok::<JetStreamPath<Text>, EventFsError<Text>>(
            parsed,
        ),
        mode & errno::S_IFMT != errno::S_IFREG || (StorageFact::of(parsed) matches Some(
            StorageFact::StreamSubject { .. },
        )),
        store.gate && store.grants(StorageRequest::WriteGate),
        store.grants(StorageRequest::DrainWatchEvents),
    ensures
        ({
            let (result, after, _) = run(
                making_file(path, mode, seed, mounted_at),
                store,
                talk,
                turns,
            );
            result == Err::<u64, Stop>(Pause::Fail(errno::ENOTSUP)) && after == store
        }),
{
    law_parsed_paths_are_valid(mount_text(path));
    let operation = making_file(path, mode, seed, mounted_at);
    let gate = StorageRequest::WriteGate;
    let refused = |t: Talk| (Err::<u64, Stop>(Pause::Fail(errno::ENOTSUP)), t);
    let one = talk.told(store.reply(gate)).heard();
    let left = (turns - 1) as nat;
    if mode & errno::S_IFMT != errno::S_IFREG {
        lemma_turn(operation, talk, gate, refused, store, turns);
        lemma_end(refused, store, one, left);
    } else {
        let drain = StorageRequest::DrainWatchEvents;
        let draining = |t: Talk|
            {
                let (done, t) = drained(t);
                match done {
                    Err(stop) => (Err::<u64, Stop>(stop), t),
                    Ok(()) => refused(t),
                }
            };
        lemma_turn(operation, talk, gate, draining, store, turns);
        lemma_turn(draining, one, drain, refused, store, left);
        lemma_end(
            refused,
            store,
            one.told(store.reply(drain)).heard(),
            (left - 1) as nat,
        );
    }
}

// ---------------------------------------------------------------------------
// Upkeep
// ---------------------------------------------------------------------------

/// Making the queued writes good.
pub open spec fn replaying() -> spec_fn(Talk) -> Step<()> {
    |talk: Talk| replayed(talk)
}

/// Replaying makes every queued write good, in its order, and empties the queue; where it
/// cannot be done, the queue stays. Either way everything is stale then, nothing is
/// remembered, and a failure or writes that are no longer accepted are complained of.
pub proof fn law_replaying_makes_queued_writes_good(store: Store, talk: Talk, turns: nat)
    requires
        turns >= 3,
        talk.listening(),
        store.grants(StorageRequest::WriteGate),
        store.grants(StorageRequest::InvalidateAll),
    ensures
        ({
            let (result, after, later) = run(replaying(), store, talk, turns);
            let replay = store.grants(StorageRequest::ReplayQueue);
            let done = if replay {
                store.worked_off(store.queue)
            } else {
                store
            };
            &&& result is Ok
            &&& after == (Store {
                memory: Map::empty(),
                marks: store.marks.push(StorageRequest::InvalidateAll),
                ..done
            })
            &&& replay ==> after.queue.len() == 0
            &&& later.complaints.len() == talk.complaints.len() + (if replay {
                0int
            } else {
                1
            }) + (if store.gate {
                0int
            } else {
                1
            })
        }),
{
    lemma_worked_off_keeps(store, store.queue);
    let replay = StorageRequest::ReplayQueue;
    let gate = StorageRequest::WriteGate;
    let all = StorageRequest::InvalidateAll;
    let outcome = done_in(store.reply(replay));
    let told = |t: Talk|
        match outcome {
            Ok(()) => t,
            Err(failure) => t.complaining("queue replay failed: "@ + failure_text(failure)),
        };
    let read_only = "writeback queue has pending entries after replay; mount is read-only"@;
    let asking = |t: Talk|
        {
            let (accepting, t) = told(t).flag(gate);
            match accepting {
                Err(stop) => (Err::<(), Stop>(stop), t),
                Ok(accepting) => {
                    let t = if accepting {
                        t
                    } else {
                        t.complaining(read_only)
                    };
                    t.done(all)
                },
            }
        };
    lemma_turn(replaying(), talk, replay, asking, store, turns);
    let one = store.after(replay);
    let first = talk.told(store.reply(replay)).heard();
    let left = (turns - 1) as nat;
    let noted = |t: Talk|
        if one.gate {
            told(t)
        } else {
            told(t).complaining(read_only)
        };
    let marking = |t: Talk| noted(t).done(all);
    lemma_turn(asking, first, gate, marking, one, left);
    let second = first.told(one.reply(gate)).heard();
    let fewer = (left - 1) as nat;
    let finish = |t: Talk| (Ok::<(), Stop>(()), noted(t));
    lemma_turn(marking, second, all, finish, one, fewer);
    lemma_end(
        finish,
        one.after(all),
        second.told(one.reply(all)).heard(),
        (fewer - 1) as nat,
    );
}

/// Taking in the changes that were seen.
pub open spec fn draining() -> spec_fn(Talk) -> Step<()> {
    |talk: Talk| drained(talk)
}

/// Changes that cannot be taken in may be any: there is a gap then, nothing is remembered,
/// and there is a complaint. Otherwise nothing but what was seen changes.
pub proof fn law_lost_changes_leave_a_gap(store: Store, talk: Talk, turns: nat)
    requires
        turns >= 2,
        talk.listening(),
        store.grants(StorageRequest::WatchGap),
    ensures
        ({
            let (result, after, later) = run(draining(), store, talk, turns);
            &&& result is Ok
            &&& if store.grants(StorageRequest::DrainWatchEvents) {
                after == store && later.complaints == talk.complaints
            } else {
                &&& after == (Store {
                    memory: Map::empty(),
                    marks: store.marks.push(StorageRequest::WatchGap),
                    ..store
                })
                &&& later.complaints.len() == talk.complaints.len() + 1
            }
        }),
{
    let drain = StorageRequest::DrainWatchEvents;
    let gap = StorageRequest::WatchGap;
    let one = talk.told(store.reply(drain)).heard();
    let left = (turns - 1) as nat;
    if store.grants(drain) {
        let finish = |t: Talk| (Ok::<(), Stop>(()), t);
        lemma_turn(draining(), talk, drain, finish, store, turns);
        lemma_end(finish, store, one, left);
    } else {
        let failure = (store.fails)(drain).unwrap();
        let complaint = "watch event drain failed: "@ + failure_text(failure);
        let marking = |t: Talk| t.complaining(complaint).done(gap);
        lemma_turn(draining(), talk, drain, marking, store, turns);
        let finish = |t: Talk| (Ok::<(), Stop>(()), t.complaining(complaint));
        lemma_turn(marking, one, gap, finish, store, left);
        lemma_end(
            finish,
            store.after(gap),
            one.told(store.reply(gap)).heard(),
            (left - 1) as nat,
        );
    }
}

/// Bringing the write gate up to date.
pub open spec fn syncing_writes(reason: Text) -> spec_fn(Talk) -> Step<()> {
    |talk: Talk| gate_synced(talk, reason)
}

/// That writes are no longer accepted is complained of once, with its reason, when it comes
/// up. Nothing changes.
pub proof fn law_blocked_writes_are_complained_of(
    reason: Text,
    store: Store,
    talk: Talk,
    turns: nat,
)
    requires
        turns >= 1,
        talk.listening(),
        store.grants(StorageRequest::SyncWriteGate),
    ensures
        ({
            let (result, after, later) = run(syncing_writes(reason), store, talk, turns);
            &&& result is Ok && after == store
            &&& later.complaints == if store.closing {
                talk.complaints.push(reason)
            } else {
                talk.complaints
            }
        }),
{
    let request = StorageRequest::SyncWriteGate;
    let finish = |t: Talk|
        if store.closing {
            (Ok::<(), Stop>(()), t.complaining(reason))
        } else {
            (Ok::<(), Stop>(()), t)
        };
    lemma_turn(syncing_writes(reason), talk, request, finish, store, turns);
    lemma_end(finish, store, talk.told(store.reply(request)).heard(), (turns - 1) as nat);
}

/// The errors that are kept are the latest ones, in their order.
pub proof fn law_latest_errors_are_kept(errors: Seq<Text>, more: Seq<Text>)
    requires
        errors.len() <= KEPT_ERRORS,
    ensures
        ({
            let all = errors + more;
            let kept = if all.len() > KEPT_ERRORS {
                all.skip(all.len() - KEPT_ERRORS)
            } else {
                all
            };
            errors_with(errors, more) == kept
        }),
    decreases more.len(),
{
    let all = errors + more;
    if more.len() == 0 {
        assert(all =~= errors);
    } else {
        let front = more.drop_last();
        law_latest_errors_are_kept(errors, front);
        let before = errors + front;
        assert(all =~= before.push(more.last()));
        if all.len() > KEPT_ERRORS {
            assert(errors_with(errors, more) =~= all.skip(all.len() - KEPT_ERRORS));
        }
    }
}

} // verus!
