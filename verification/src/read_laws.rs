//! What reading comes to: a file holds what the storage has behind its path.

use vstd::prelude::*;

use crate::affected::StorageFact;
use crate::commit_laws::{
    committing, law_commits_store_or_queue_the_value, local, put, writable_whole,
};
use crate::documents::{message_rendering, metadata_document, payload_json, MountStatus};
use crate::errno;
use crate::errors::EventFsError;
use crate::files::{content_at, remembering, stored_content, subject_required};
use crate::inquiry::{
    done_in, CacheEntry, CacheOrigin, Pause, Remembered, Request, Step, Stop, StorageFailure,
    StorageRequest, Talk,
};
use crate::keys::write_key;
use crate::mount_paths::{mount_text, Components};
use crate::overlay::{deleted, queued_lines, whole_value, Fact, FileSnapshot, Snapshot};
use crate::path::{JetStreamPath, MetadataFile};
use crate::path_laws::law_parsed_paths_are_valid;
use crate::plan::read_plan;
use crate::store::{entry_of, lemma_end, lemma_turn, run, Store};
use crate::text::{string_texts, Text};
use crate::upkeep::errors_with;
use crate::versions::{Time, VersionStamp};

verus! {

/// Reading the file at a path.
pub open spec fn reading(
    facts: Seq<Fact>,
    status: MountStatus,
    mounted_at: Time,
    path: Components,
) -> spec_fn(Talk) -> Step<Snapshot> {
    |talk: Talk| content_at(talk, facts, status, mounted_at, path)
}

/// Whether the queued writes say nothing of what a path holds.
pub open spec fn unqueued(facts: Seq<Fact>, path: Components) -> bool {
    &&& !deleted(facts, path)
    &&& whole_value(facts, path) is None
    &&& queued_lines(facts, path).len() == 0
}

/// The request for what is remembered of a path.
pub open spec fn recall(path: Components) -> Request {
    StorageRequest::CachedFile { path: mount_text(path) }
}

/// What is remembered of a path.
pub open spec fn remembered(store: Store, path: Components) -> Option<Snapshot> {
    match entry_of(store.memory, mount_text(path)) {
        Some(entry) => Some(FileSnapshot { bytes: entry.bytes, version: entry.version }),
        None => None,
    }
}

/// Whether the changes that were seen can be taken in, and the memory can be asked.
pub open spec fn attentive(store: Store, path: Components) -> bool {
    store.grants(StorageRequest::DrainWatchEvents) && store.grants(recall(path))
}

/// A read that the queue says nothing of asks the memory, and then the storage.
pub proof fn lemma_unqueued_read(
    facts: Seq<Fact>,
    status: MountStatus,
    mounted_at: Time,
    parsed: JetStreamPath<Text>,
    path: Components,
    store: Store,
    talk: Talk,
    turns: nat,
) -> (reached: Talk)
    requires
        turns >= 2,
        talk.listening(),
        unqueued(facts, path),
        attentive(store, path),
        JetStreamPath::parsed(mount_text(path)) == Ok::<JetStreamPath<Text>, EventFsError<Text>>(
            parsed,
        ),
    ensures
        reached.listening(),
        reached.complaints == talk.complaints,
        remembered(store, path) is None ==> run(
            reading(facts, status, mounted_at, path),
            store,
            talk,
            turns,
        ) == run(
            reading_stored(status, mounted_at, parsed, path),
            store,
            reached,
            (turns - 2) as nat,
        ),
        remembered(store, path) matches Some(snapshot) ==> run(
            reading(facts, status, mounted_at, path),
            store,
            talk,
            turns,
        ) == (Ok::<Snapshot, Stop>(snapshot), store, reached),
{
    let operation = reading(facts, status, mounted_at, path);
    let drain = StorageRequest::DrainWatchEvents;
    let stored = reading_stored(status, mounted_at, parsed, path);
    let recalling = |t: Talk|
        {
            let (cached, t) = t.cached(recall(path));
            match cached {
                Err(stop) => (Err::<Snapshot, Stop>(stop), t),
                Ok(Some(snapshot)) => (Ok(snapshot), t),
                Ok(None) => stored(t),
            }
        };
    lemma_turn(operation, talk, drain, recalling, store, turns);
    let one = talk.told(store.reply(drain)).heard();
    let left = (turns - 1) as nat;
    let two = one.told(store.reply(recall(path))).heard();
    match remembered(store, path) {
        None => {
            lemma_turn(recalling, one, recall(path), stored, store, left);
        },
        Some(snapshot) => {
            let finish = |t: Talk| (Ok::<Snapshot, Stop>(snapshot), t);
            lemma_turn(recalling, one, recall(path), finish, store, left);
            lemma_end(finish, store, two, (left - 1) as nat);
        },
    }
    two
}

/// Reading what the storage has behind a path.
pub open spec fn reading_stored(
    status: MountStatus,
    mounted_at: Time,
    parsed: JetStreamPath<Text>,
    path: Components,
) -> spec_fn(Talk) -> Step<Snapshot> {
    |talk: Talk|
        {
            let (there, talk) = subject_required(talk, parsed);
            match there {
                Err(stop) => (Err(stop), talk),
                Ok(()) => match read_plan(parsed) {
                    Err(error) => (Err(Pause::Fail(error.number().0)), talk),
                    Ok(action) => stored_content(talk, action, status, mounted_at, parsed, path),
                },
            }
        }
}

// ---------------------------------------------------------------------------
// Single values
// ---------------------------------------------------------------------------

/// What a path that shows a single value stands for: the request for the value, where it
/// comes from, and what the store has of it. A numbered revision is the revision of that
/// number.
pub open spec fn behind(store: Store, parsed: JetStreamPath<Text>, path: Components) -> Option<
    (Request, CacheOrigin<Text>, Option<Snapshot>),
> {
    match parsed {
        JetStreamPath::KvKey { bucket, key } => {
            let value = entry_of(store.values, (bucket, key));
            Some(
                (
                    StorageRequest::KvGet { bucket, key },
                    CacheOrigin::KvRevision {
                        bucket,
                        key,
                        revision: match value {
                            Some(value) => value.revision,
                            None => 0,
                        },
                    },
                    match value {
                        Some(value) => Some(
                            FileSnapshot {
                                bytes: value.bytes,
                                version: VersionStamp::of(value.created),
                            },
                        ),
                        None => None,
                    },
                ),
            )
        },
        JetStreamPath::KvRevision { bucket, key, revision } => Some(
            (
                StorageRequest::KvRevision { bucket, key, revision },
                CacheOrigin::KvRevision { bucket, key, revision },
                match entry_of(store.revisions, (bucket, key, revision)) {
                    Some(value) => Some(
                        FileSnapshot { bytes: value.bytes, version: VersionStamp::of(value.created) },
                    ),
                    None => None,
                },
            ),
        ),
        JetStreamPath::Object { bucket, object } => Some(
            (
                StorageRequest::ObjectGet { bucket, object },
                CacheOrigin::ObjectVersion { bucket, object },
                match entry_of(store.objects, (bucket, object)) {
                    Some(value) => Some(
                        FileSnapshot {
                            bytes: value.bytes,
                            version: VersionStamp::of(value.modified),
                        },
                    ),
                    None => None,
                },
            ),
        ),
        JetStreamPath::Task { .. }
        | JetStreamPath::AgentRecord { .. }
        | JetStreamPath::SemanticRecord { .. } => match StorageFact::of(parsed) {
            Some(StorageFact::Kv { bucket, key }) => Some(
                (
                    StorageRequest::KvGet { bucket, key },
                    CacheOrigin::MaterializedView { path: mount_text(path) },
                    match entry_of(store.values, (bucket, key)) {
                        Some(value) => Some(
                            FileSnapshot {
                                bytes: value.bytes,
                                version: VersionStamp::of(value.created),
                            },
                        ),
                        None => None,
                    },
                ),
            ),
            _ => None,
        },
        _ => None,
    }
}

/// What is remembered of a file that was read.
pub open spec fn memory_entry(
    path: Components,
    origin: CacheOrigin<Text>,
    snapshot: Snapshot,
) -> Remembered {
    CacheEntry {
        path: mount_text(path),
        origin,
        version: snapshot.version,
        bytes: snapshot.bytes,
        valid: true,
    }
}

/// Remembering what was read: it is handed out, and nothing but the memory has changed.
pub proof fn lemma_remembering(
    operation: spec_fn(Talk) -> Step<Snapshot>,
    path: Components,
    origin: CacheOrigin<Text>,
    snapshot: Snapshot,
    store: Store,
    talk: Talk,
    turns: nat,
)
    requires
        turns >= 1,
        talk.listening(),
        forall|t: Talk| #[trigger]
            operation(t) == remembering(t, path, origin, snapshot),
    ensures
        ({
            let entry = memory_entry(path, origin, snapshot);
            let remember = StorageRequest::RememberFile { entry };
            let (result, after, _) = run(operation, store, talk, turns);
            if store.grants(remember) {
                &&& result == Ok::<Snapshot, Stop>(snapshot)
                &&& after == (Store { memory: store.memory.insert(entry.path, entry), ..store })
            } else {
                &&& result is Err && !(result matches Err(Pause::Ask(_)))
                &&& after == store
            }
        }),
{
    let remember = StorageRequest::RememberFile { entry: memory_entry(path, origin, snapshot) };
    let outcome = done_in(store.reply(remember));
    let finish = |t: Talk|
        match outcome {
            Ok(()) => (Ok::<Snapshot, Stop>(snapshot), t),
            Err(failure) => t.fail::<Snapshot>(failure),
        };
    lemma_turn(operation, talk, remember, finish, store, turns);
    lemma_end(
        finish,
        store.after(remember),
        talk.told(store.reply(remember)).heard(),
        (turns - 1) as nat,
    );
}

/// Reading a single value from the storage hands out what the store has behind the path.
pub proof fn lemma_stored_value(
    status: MountStatus,
    mounted_at: Time,
    parsed: JetStreamPath<Text>,
    path: Components,
    store: Store,
    talk: Talk,
    turns: nat,
)
    requires
        turns >= 2,
        talk.listening(),
        JetStreamPath::parsed(mount_text(path)) == Ok::<JetStreamPath<Text>, EventFsError<Text>>(
            parsed,
        ),
        behind(store, parsed, path) is Some,
        store.grants(behind(store, parsed, path).unwrap().0),
    ensures
        ({
            let (result, after, _) = run(
                reading_stored(status, mounted_at, parsed, path),
                store,
                talk,
                turns,
            );
            let (_, origin, stored) = behind(store, parsed, path).unwrap();
            match stored {
                Some(snapshot) => {
                    let entry = memory_entry(path, origin, snapshot);
                    if store.grants(StorageRequest::RememberFile { entry }) {
                        &&& result == Ok::<Snapshot, Stop>(snapshot)
                        &&& after == (Store {
                            memory: store.memory.insert(entry.path, entry),
                            ..store
                        })
                    } else {
                        result is Err && after == store
                    }
                },
                None => result == Err::<Snapshot, Stop>(Pause::Fail(errno::ENOENT)) && after
                    == store,
            }
        }),
{
    law_parsed_paths_are_valid(mount_text(path));
    let operation = reading_stored(status, mounted_at, parsed, path);
    let (request, origin, stored) = behind(store, parsed, path).unwrap();
    let one = talk.told(store.reply(request)).heard();
    let left = (turns - 1) as nat;
    match stored {
        Some(snapshot) => {
            let finish = |t: Talk| remembering(t, path, origin, snapshot);
            lemma_turn(operation, talk, request, finish, store, turns);
            lemma_remembering(finish, path, origin, snapshot, store, one, left);
        },
        None => {
            let missing = |t: Talk| (Err::<Snapshot, Stop>(Pause::Fail(errno::ENOENT)), t);
            lemma_turn(operation, talk, request, missing, store, turns);
            lemma_end(missing, store, one, left);
        },
    }
}

/// A file of a key, of a numbered revision, of an object or of a record holds what the
/// storage has there, with its version; it is not there where the storage has nothing.
/// What was read is remembered, and nothing else changes.
pub proof fn law_files_hold_what_is_stored(
    facts: Seq<Fact>,
    status: MountStatus,
    mounted_at: Time,
    parsed: JetStreamPath<Text>,
    path: Components,
    store: Store,
    talk: Talk,
    turns: nat,
)
    requires
        turns >= 4,
        talk.listening(),
        unqueued(facts, path),
        attentive(store, path),
        remembered(store, path) is None,
        JetStreamPath::parsed(mount_text(path)) == Ok::<JetStreamPath<Text>, EventFsError<Text>>(
            parsed,
        ),
        behind(store, parsed, path) is Some,
        store.grants(behind(store, parsed, path).unwrap().0),
    ensures
        ({
            let (result, after, _) = run(
                reading(facts, status, mounted_at, path),
                store,
                talk,
                turns,
            );
            let (_, origin, stored) = behind(store, parsed, path).unwrap();
            match stored {
                Some(snapshot) => {
                    let entry = memory_entry(path, origin, snapshot);
                    if store.grants(StorageRequest::RememberFile { entry }) {
                        &&& result == Ok::<Snapshot, Stop>(snapshot)
                        &&& after == (Store {
                            memory: store.memory.insert(entry.path, entry),
                            ..store
                        })
                    } else {
                        result is Err && after == store
                    }
                },
                None => result == Err::<Snapshot, Stop>(Pause::Fail(errno::ENOENT)) && after
                    == store,
            }
        }),
{
    let one = lemma_unqueued_read(
        facts,
        status,
        mounted_at,
        parsed,
        path,
        store,
        talk,
        turns,
    );
    lemma_stored_value(status, mounted_at, parsed, path, store, one, (turns - 2) as nat);
}

/// A file that is remembered holds what is remembered, and nothing changes.
pub proof fn law_remembered_files_hold_what_is_remembered(
    facts: Seq<Fact>,
    status: MountStatus,
    mounted_at: Time,
    parsed: JetStreamPath<Text>,
    path: Components,
    store: Store,
    talk: Talk,
    turns: nat,
)
    requires
        turns >= 2,
        talk.listening(),
        unqueued(facts, path),
        attentive(store, path),
        remembered(store, path) is Some,
        JetStreamPath::parsed(mount_text(path)) == Ok::<JetStreamPath<Text>, EventFsError<Text>>(
            parsed,
        ),
    ensures
        ({
            let (result, after, _) = run(
                reading(facts, status, mounted_at, path),
                store,
                talk,
                turns,
            );
            &&& result == Ok::<Snapshot, Stop>(remembered(store, path).unwrap())
            &&& after == store
        }),
{
    let one = lemma_unqueued_read(
        facts,
        status,
        mounted_at,
        parsed,
        path,
        store,
        talk,
        turns,
    );
}

/// The file of a message shows its stream, number, subject and payload, and is dated by
/// the message. It is not there where the stream has no such message.
pub proof fn law_message_files_show_the_message(
    facts: Seq<Fact>,
    status: MountStatus,
    mounted_at: Time,
    stream: Text,
    sequence: u64,
    path: Components,
    store: Store,
    talk: Talk,
    turns: nat,
)
    requires
        turns >= 4,
        talk.listening(),
        unqueued(facts, path),
        attentive(store, path),
        remembered(store, path) is None,
        JetStreamPath::parsed(mount_text(path)) == Ok::<JetStreamPath<Text>, EventFsError<Text>>(
            JetStreamPath::StreamMessage { stream, sequence },
        ),
        store.grants(StorageRequest::StreamMessage { stream, sequence }),
    ensures
        ({
            let (result, after, _) = run(
                reading(facts, status, mounted_at, path),
                store,
                talk,
                turns,
            );
            match entry_of(store.messages, (stream, sequence)) {
                Some(message) => match message_rendering(
                    message.stream,
                    message.sequence,
                    message.subject,
                    payload_json(message.payload),
                ) {
                    Ok(bytes) => {
                        let snapshot = FileSnapshot {
                            bytes,
                            version: VersionStamp::of(message.published),
                        };
                        let entry = memory_entry(
                            path,
                            CacheOrigin::StreamSequence { stream, sequence },
                            snapshot,
                        );
                        if store.grants(StorageRequest::RememberFile { entry }) {
                            &&& result == Ok::<Snapshot, Stop>(snapshot)
                            &&& after == (Store {
                                memory: store.memory.insert(entry.path, entry),
                                ..store
                            })
                        } else {
                            result is Err && after == store
                        }
                    },
                    Err(_) => result == Err::<Snapshot, Stop>(Pause::Fail(errno::EIO)) && after
                        == store,
                },
                None => result == Err::<Snapshot, Stop>(Pause::Fail(errno::ENOENT)) && after
                    == store,
            }
        }),
{
    let parsed = JetStreamPath::StreamMessage { stream, sequence };
    let one = lemma_unqueued_read(
        facts,
        status,
        mounted_at,
        parsed,
        path,
        store,
        talk,
        turns,
    );
    let left = (turns - 2) as nat;
    let operation = reading_stored(status, mounted_at, parsed, path);
    let request = StorageRequest::StreamMessage { stream, sequence };
    let two = one.told(store.reply(request)).heard();
    let origin = CacheOrigin::StreamSequence { stream, sequence };
    match entry_of(store.messages, (stream, sequence)) {
        Some(message) => match message_rendering(
            message.stream,
            message.sequence,
            message.subject,
            payload_json(message.payload),
        ) {
            Ok(bytes) => {
                let snapshot = FileSnapshot { bytes, version: VersionStamp::of(message.published) };
                let finish = |t: Talk| remembering(t, path, origin, snapshot);
                lemma_turn(operation, one, request, finish, store, left);
                lemma_remembering(finish, path, origin, snapshot, store, two, (left - 1) as nat);
            },
            Err(complaint) => {
                let failed = |t: Talk| t.fail::<Snapshot>(StorageFailure::Other(complaint));
                lemma_turn(operation, one, request, failed, store, left);
                lemma_end(failed, store, two, (left - 1) as nat);
            },
        },
        None => {
            let missing = |t: Talk| (Err::<Snapshot, Stop>(Pause::Fail(errno::ENOENT)), t);
            lemma_turn(operation, one, request, missing, store, left);
            lemma_end(missing, store, two, (left - 1) as nat);
        },
    }
}

/// A file cannot be read where the storage fails: `ENOENT` comes back where it finds
/// nothing, and otherwise `EIO`, with a complaint. Nothing changes.
pub proof fn law_failed_reads_fail(
    facts: Seq<Fact>,
    status: MountStatus,
    mounted_at: Time,
    parsed: JetStreamPath<Text>,
    path: Components,
    store: Store,
    talk: Talk,
    turns: nat,
)
    requires
        turns >= 3,
        talk.listening(),
        unqueued(facts, path),
        attentive(store, path),
        remembered(store, path) is None,
        JetStreamPath::parsed(mount_text(path)) == Ok::<JetStreamPath<Text>, EventFsError<Text>>(
            parsed,
        ),
        behind(store, parsed, path) is Some,
        !store.grants(behind(store, parsed, path).unwrap().0),
    ensures
        ({
            let (result, after, later) = run(
                reading(facts, status, mounted_at, path),
                store,
                talk,
                turns,
            );
            &&& after == store
            &&& match (store.fails)(behind(store, parsed, path).unwrap().0).unwrap() {
                StorageFailure::NotFound => result == Err::<Snapshot, Stop>(
                    Pause::Fail(errno::ENOENT),
                ) && later.complaints == talk.complaints,
                StorageFailure::Other(message) => result == Err::<Snapshot, Stop>(
                    Pause::Fail(errno::EIO),
                ) && later.complaints == talk.complaints.push(message),
            }
        }),
{
    law_parsed_paths_are_valid(mount_text(path));
    let one = lemma_unqueued_read(
        facts,
        status,
        mounted_at,
        parsed,
        path,
        store,
        talk,
        turns,
    );
    let left = (turns - 2) as nat;
    let operation = reading_stored(status, mounted_at, parsed, path);
    let request = behind(store, parsed, path).unwrap().0;
    let failed = |t: Talk| t.fail::<Snapshot>((store.fails)(request).unwrap());
    lemma_turn(operation, one, request, failed, store, left);
    lemma_end(failed, store, one.told(store.reply(request)).heard(), (left - 1) as nat);
}

/// The mount's own files show its state, with the errors that are kept and those that came
/// up meanwhile, and date from the mount. Nothing is asked of the storage, and nothing
/// changes.
pub proof fn law_own_files_show_the_mount(
    facts: Seq<Fact>,
    status: MountStatus,
    mounted_at: Time,
    file: MetadataFile,
    path: Components,
    store: Store,
    talk: Talk,
    turns: nat,
)
    requires
        turns >= 2,
        talk.listening(),
        unqueued(facts, path),
        attentive(store, path),
        remembered(store, path) is None,
        JetStreamPath::parsed(mount_text(path)) == Ok::<JetStreamPath<Text>, EventFsError<Text>>(
            JetStreamPath::MetadataFile(file),
        ),
    ensures
        ({
            let (result, after, _) = run(
                reading(facts, status, mounted_at, path),
                store,
                talk,
                turns,
            );
            &&& after == store
            &&& result == Ok::<Snapshot, Stop>(
                FileSnapshot {
                    bytes: metadata_document(
                        status,
                        errors_with(string_texts(status.recent_errors@), talk.complaints),
                        file,
                    ),
                    version: VersionStamp::of(mounted_at),
                },
            )
        }),
{
    let parsed = JetStreamPath::MetadataFile(file);
    let one = lemma_unqueued_read(
        facts,
        status,
        mounted_at,
        parsed,
        path,
        store,
        talk,
        turns,
    );
    lemma_end(reading_stored(status, mounted_at, parsed, path), store, one, (turns - 2) as nat);
}

/// What was written to a key, an object or a record is read back: after a commit that the
/// storage took, the file holds the bytes of the commit.
pub proof fn law_written_bytes_are_read_back(
    facts: Seq<Fact>,
    status: MountStatus,
    mounted_at: Time,
    parsed: JetStreamPath<Text>,
    fact: StorageFact<Text>,
    path: Components,
    bytes: Seq<u8>,
    seed: Text,
    store: Store,
    talk: Talk,
    turns: nat,
)
    requires
        turns >= 8,
        talk.listening(),
        unqueued(facts, path),
        attentive(store, path),
        JetStreamPath::parsed(mount_text(path)) == Ok::<JetStreamPath<Text>, EventFsError<Text>>(
            parsed,
        ),
        StorageFact::of(parsed) == Some(fact),
        !(fact is StreamSubject),
        writable_whole(parsed, bytes),
        store.gate,
        forall|request: Request| #[trigger] store.grants(request),
    ensures
        ({
            let (_, written, _) = run(
                committing(path, bytes, seed, mounted_at),
                store,
                talk,
                turns,
            );
            let (result, _, _) = run(
                reading(facts, status, mounted_at, path),
                written,
                talk,
                turns,
            );
            result matches Ok(snapshot) && snapshot.bytes == bytes
        }),
{
    law_parsed_paths_are_valid(mount_text(path));
    let key = write_key(mount_text(path), bytes, seed);
    assert(store.grants(put(fact, bytes, key)));
    assert(store.grants(StorageRequest::WriteGate));
    assert(store.grants(local(path)));
    law_commits_store_or_queue_the_value(
        path,
        parsed,
        fact,
        bytes,
        seed,
        mounted_at,
        store,
        talk,
        turns,
    );
    let (_, written, _) = run(committing(path, bytes, seed, mounted_at), store, talk, turns);
    assert forall|request: Request| #[trigger] written.grants(request) by {
        assert(store.grants(request));
    }
    if remembered(written, path) is Some {
        law_remembered_files_hold_what_is_remembered(
            facts,
            status,
            mounted_at,
            parsed,
            path,
            written,
            talk,
            turns,
        );
    } else {
        law_files_hold_what_is_stored(
            facts,
            status,
            mounted_at,
            parsed,
            path,
            written,
            talk,
            turns,
        );
    }
}

} // verus!
