//! What kinds and attributes come to: a path is what the storage has at its place, and a
//! file is as long as what it holds.

use vstd::prelude::*;

use crate::affected::StorageFact;
use crate::attr::FileType;
use crate::commit_laws::held;
use crate::directories::{deleted_from, known_visible, overlaid_from};
use crate::documents::MountStatus;
use crate::durable::{durable_entries, exact_file, subject_known, DynamicPathKind};
use crate::entries::{lists_name, Entry, EntryKind};
use crate::errno;
use crate::errors::EventFsError;
use crate::file_names::subject_file_name;
use crate::inquiry::{Pause, Reply, Request, Step, Stop, StorageFailure, StorageRequest, Talk};
use crate::kinds::{
    attr_of, file_metadata, kind_of, shown_as, stored_kind, FileMetadata, RuntimeAttr,
};
use crate::mount_paths::{mount_text, Components};
use crate::move_laws::{lemma_key_kind, lemma_object_kind};
use crate::overlay::{
    child_of, deleted, queued_entries, queued_lines, queued_version, whole_value, with_children,
    Fact, Snapshot,
};
use crate::overlay_laws::law_queued_version_is_the_latest;
use crate::path::JetStreamPath;
use crate::path_cache::{row_at, Row};
use crate::read_laws::{
    behind, lemma_stored_value, memory_entry, reading_stored, recall, remembered,
};
use crate::store::{entry_of, info_of, lemma_end, lemma_goes_on, lemma_turn, run, Store};
use crate::text::Text;
use crate::tree_laws::kind_at;
use crate::versions::{Time, VersionStamp};

verus! {

/// Whether every request is granted.
pub open spec fn willing(store: Store) -> bool {
    forall|request: Request| #[trigger] store.grants(request)
}

/// Asking the storage what a path is.
pub open spec fn telling_kind(parsed: JetStreamPath<Text>) -> spec_fn(Talk) -> Step<EntryKind> {
    |talk: Talk| stored_kind(talk, parsed)
}

/// What a path is by what the store has.
pub open spec fn kind_in(store: Store, parsed: JetStreamPath<Text>) -> Result<EntryKind, i32> {
    let directory_if = |there: bool|
        if there {
            Ok::<EntryKind, i32>(EntryKind::Directory)
        } else {
            Err(errno::ENOENT)
        };
    match parsed {
        JetStreamPath::Root
        | JetStreamPath::KvRoot
        | JetStreamPath::StreamsRoot
        | JetStreamPath::ObjectsRoot
        | JetStreamPath::EventsRoot
        | JetStreamPath::TasksRoot
        | JetStreamPath::AgentsRoot
        | JetStreamPath::SemanticRoot
        | JetStreamPath::MetadataRoot
        | JetStreamPath::TaskNamespace { .. }
        | JetStreamPath::AgentRoot { .. }
        | JetStreamPath::AgentDirectory { .. }
        | JetStreamPath::SemanticArea { .. } => Ok(EntryKind::Directory),
        JetStreamPath::KvBucket { bucket } | JetStreamPath::KvHistoryRoot { bucket } => directory_if(
            (store.named)(StorageRequest::ListKvBuckets).contains(bucket),
        ),
        JetStreamPath::ObjectBucket { bucket } => directory_if(
            (store.named)(StorageRequest::ListObjectBuckets).contains(bucket),
        ),
        JetStreamPath::StreamRoot { stream }
        | JetStreamPath::StreamMessages { stream }
        | JetStreamPath::StreamSubjects { stream } => directory_if(
            (store.named)(StorageRequest::ListStreams).contains(stream),
        ),
        JetStreamPath::KvHistoryKey { bucket, key } => directory_if(
            (store.histories)((bucket, key)).len() > 0 || (store.listed)(
                StorageRequest::ListKvHistoryPrefix { bucket, prefix: key },
            ).len() > 0,
        ),
        JetStreamPath::StreamSubject { stream, subject } => if (store.named)(
            StorageRequest::ListStreams,
        ).contains(stream) && lists_name(
            (store.listed)(StorageRequest::ListStreamSubjects { stream }),
            subject_file_name(subject.0),
        ) {
            Ok(EntryKind::File)
        } else {
            Err(errno::ENOENT)
        },
        JetStreamPath::KvKey { .. }
        | JetStreamPath::Object { .. }
        | JetStreamPath::AgentRecord { .. }
        | JetStreamPath::SemanticRecord { .. } => match StorageFact::of(parsed) {
            Some(fact) if kind_at(store, fact) == DynamicPathKind::Directory => Ok(
                EntryKind::Directory,
            ),
            _ => Ok(EntryKind::File),
        },
        _ => Ok(EntryKind::File),
    }
}

/// Asking for the kind of a path goes on with what the store has there.
pub proof fn lemma_kind<T>(
    operation: spec_fn(Talk) -> Step<T>,
    parsed: JetStreamPath<Text>,
    rest: spec_fn(Step<EntryKind>) -> Step<T>,
    next: spec_fn(Talk) -> Step<T>,
    store: Store,
    talk: Talk,
    turns: nat,
) -> (reached: (Talk, nat))
    requires
        turns >= 2,
        talk.listening(),
        willing(store),
        forall|t: Talk| #[trigger] operation(t) == rest(stored_kind(t, parsed)),
        forall|t: Talk, request: Request| #[trigger]
            rest((Err(Pause::Ask(request)), t)) == (Err::<T, Stop>(Pause::Ask(request)), t),
        forall|t: Talk| #[trigger]
            next(t) == rest(
                (
                    match kind_in(store, parsed) {
                        Ok(kind) => Ok(kind),
                        Err(number) => Err(Pause::Fail(number)),
                    },
                    t,
                ),
            ),
    ensures
        reached.0.listening(),
        turns - 2 <= reached.1 <= turns,
        run(operation, store, talk, turns) == run(next, store, reached.0, reached.1),
{
    let shown = |step: Step<DynamicPathKind>| rest(shown_as(step));
    match parsed {
        JetStreamPath::KvBucket { bucket } | JetStreamPath::KvHistoryRoot { bucket } => {
            let request = StorageRequest::ListKvBuckets;
            assert(store.grants(request));
            lemma_turn(operation, talk, request, next, store, turns);
            (talk.told(store.reply(request)).heard(), (turns - 1) as nat)
        },
        JetStreamPath::ObjectBucket { bucket } => {
            let request = StorageRequest::ListObjectBuckets;
            assert(store.grants(request));
            lemma_turn(operation, talk, request, next, store, turns);
            (talk.told(store.reply(request)).heard(), (turns - 1) as nat)
        },
        JetStreamPath::StreamRoot { stream }
        | JetStreamPath::StreamMessages { stream }
        | JetStreamPath::StreamSubjects { stream } => {
            let request = StorageRequest::ListStreams;
            assert(store.grants(request));
            lemma_turn(operation, talk, request, next, store, turns);
            (talk.told(store.reply(request)).heard(), (turns - 1) as nat)
        },
        JetStreamPath::KvHistoryKey { bucket, key } => {
            let first = StorageRequest::KvHistory { bucket, key };
            let second = StorageRequest::ListKvHistoryPrefix { bucket, prefix: key };
            assert(store.grants(first) && store.grants(second));
            let one = talk.told(store.reply(first)).heard();
            if (store.histories)((bucket, key)).len() > 0 {
                lemma_turn(operation, talk, first, next, store, turns);
                (one, (turns - 1) as nat)
            } else {
                let listing = |t: Talk|
                    {
                        let (below, t) = t.entries(second);
                        rest(
                            match below {
                                Err(stop) => (Err::<EntryKind, Stop>(stop), t),
                                Ok(below) => if below.len() == 0 {
                                    (Err(Pause::Fail(errno::ENOENT)), t)
                                } else {
                                    (Ok(EntryKind::Directory), t)
                                },
                            },
                        )
                    };
                lemma_turn(operation, talk, first, listing, store, turns);
                let left = (turns - 1) as nat;
                lemma_turn(listing, one, second, next, store, left);
                (one.told(store.reply(second)).heard(), (left - 1) as nat)
            }
        },
        JetStreamPath::StreamSubject { stream, subject } => {
            let first = StorageRequest::ListStreams;
            let second = StorageRequest::ListStreamSubjects { stream };
            assert(store.grants(first) && store.grants(second));
            let one = talk.told(store.reply(first)).heard();
            if !(store.named)(first).contains(stream) {
                lemma_turn(operation, talk, first, next, store, turns);
                (one, (turns - 1) as nat)
            } else {
                let knowing = |t: Talk|
                    {
                        let (known, t) = subject_known(t, stream, subject.0);
                        rest(
                            match known {
                                Err(stop) => (Err::<EntryKind, Stop>(stop), t),
                                Ok(true) => (Ok(EntryKind::File), t),
                                Ok(false) => (Err(Pause::Fail(errno::ENOENT)), t),
                            },
                        )
                    };
                lemma_turn(operation, talk, first, knowing, store, turns);
                let left = (turns - 1) as nat;
                lemma_turn(knowing, one, second, next, store, left);
                (one.told(store.reply(second)).heard(), (left - 1) as nat)
            }
        },
        JetStreamPath::KvKey { .. }
        | JetStreamPath::AgentRecord { .. }
        | JetStreamPath::SemanticRecord { .. } => match StorageFact::of(parsed) {
            Some(StorageFact::Kv { bucket, key }) => {
                assert(store.grants(StorageRequest::KvGet { bucket, key }));
                assert(store.grants(StorageRequest::ListKvPrefix { bucket, prefix: key }));
                lemma_key_kind(operation, bucket, key, shown, next, store, talk, turns)
            },
            _ => {
                lemma_goes_on(operation, talk, next, talk, store, turns);
                (talk, turns)
            },
        },
        JetStreamPath::Object { bucket, object } => {
            assert(store.grants(StorageRequest::ObjectMetadata { bucket, object }));
            assert(store.grants(StorageRequest::ListObjectPrefix { bucket, prefix: object }));
            lemma_object_kind(operation, bucket, object, shown, next, store, talk, turns)
        },
        _ => {
            lemma_goes_on(operation, talk, next, talk, store, turns);
            (talk, turns)
        },
    }
}

/// A path is what the storage has at its place: a directory of a bucket or of a stream is
/// there where the storage lists it, a key with history where it has revisions or keys
/// below it that have, a key, an object or a record is a file unless it has no value and
/// something lies below it. What is not there gives `ENOENT`. Nothing changes.
pub proof fn law_paths_are_what_is_stored_there(
    parsed: JetStreamPath<Text>,
    store: Store,
    talk: Talk,
    turns: nat,
)
    requires
        turns >= 2,
        talk.listening(),
        willing(store),
    ensures
        ({
            let (result, after, _) = run(telling_kind(parsed), store, talk, turns);
            &&& after == store
            &&& result == match kind_in(store, parsed) {
                Ok(kind) => Ok::<EntryKind, Stop>(kind),
                Err(number) => Err(Pause::Fail(number)),
            }
        }),
{
    let rest = |step: Step<EntryKind>| step;
    let next = |t: Talk|
        (
            match kind_in(store, parsed) {
                Ok(kind) => Ok::<EntryKind, Stop>(kind),
                Err(number) => Err(Pause::Fail(number)),
            },
            t,
        );
    let (one, left) = lemma_kind(
        telling_kind(parsed),
        parsed,
        rest,
        next,
        store,
        talk,
        turns,
    );
    lemma_end(next, store, one, left);
}

/// The first request by which the kind of a path is told, where one is needed.
pub open spec fn first_question(parsed: JetStreamPath<Text>) -> Option<Request> {
    match parsed {
        JetStreamPath::KvBucket { .. } | JetStreamPath::KvHistoryRoot { .. } => Some(
            StorageRequest::ListKvBuckets,
        ),
        JetStreamPath::ObjectBucket { .. } => Some(StorageRequest::ListObjectBuckets),
        JetStreamPath::StreamRoot { .. }
        | JetStreamPath::StreamMessages { .. }
        | JetStreamPath::StreamSubjects { .. }
        | JetStreamPath::StreamSubject { .. } => Some(StorageRequest::ListStreams),
        JetStreamPath::KvHistoryKey { bucket, key } => Some(
            StorageRequest::KvHistory { bucket, key },
        ),
        JetStreamPath::KvKey { bucket, key } => Some(StorageRequest::KvGet { bucket, key }),
        JetStreamPath::Object { bucket, object } => Some(
            StorageRequest::ObjectMetadata { bucket, object },
        ),
        _ => None,
    }
}

/// Where the storage fails, no kind is told: `ENOENT` comes back where it finds nothing,
/// and otherwise `EIO`. Nothing changes.
pub proof fn law_kinds_are_not_made_up(
    parsed: JetStreamPath<Text>,
    store: Store,
    talk: Talk,
    turns: nat,
)
    requires
        turns >= 1,
        talk.listening(),
        first_question(parsed) is Some,
        !store.grants(first_question(parsed).unwrap()),
    ensures
        ({
            let (result, after, _) = run(telling_kind(parsed), store, talk, turns);
            &&& after == store
            &&& result == match (store.fails)(first_question(parsed).unwrap()).unwrap() {
                StorageFailure::NotFound => Err::<EntryKind, Stop>(Pause::Fail(errno::ENOENT)),
                StorageFailure::Other(_) => Err(Pause::Fail(errno::EIO)),
            }
        }),
{
    let request = first_question(parsed).unwrap();
    let failed = |t: Talk| t.fail::<EntryKind>((store.fails)(request).unwrap());
    lemma_turn(telling_kind(parsed), talk, request, failed, store, turns);
    lemma_end(failed, store, talk.told(store.reply(request)).heard(), (turns - 1) as nat);
}

// ---------------------------------------------------------------------------
// Attributes
// ---------------------------------------------------------------------------

/// Asking for the attributes of a path while nothing is queued.
pub open spec fn telling_attributes(
    status: MountStatus,
    mounted_at: Time,
    stale: Set<Components>,
    rows: Seq<Row>,
    path: Components,
) -> spec_fn(Talk) -> Step<RuntimeAttr> {
    |talk: Talk| attr_of(talk, Seq::empty(), status, mounted_at, stale, rows, path).0
}

/// Asking for size and version of a file once it is known to be one.
spec fn measuring(
    status: MountStatus,
    mounted_at: Time,
    parsed: JetStreamPath<Text>,
    path: Components,
) -> spec_fn(Talk) -> Step<RuntimeAttr> {
    |talk: Talk| file_attr(file_metadata(talk, Seq::empty(), status, mounted_at, parsed, path))
}

/// The attributes of a file.
spec fn file_attr(step: Step<FileMetadata>) -> Step<RuntimeAttr> {
    match step.0 {
        Err(stop) => (Err(stop), step.1),
        Ok(file) => (
            Ok(RuntimeAttr { kind: EntryKind::File, size: file.size, version: file.version }),
            step.1,
        ),
    }
}

/// Where a path has no inode or is stale, and nothing is remembered of it, its attributes
/// go by what the storage says that it is.
proof fn lemma_attributes(
    status: MountStatus,
    mounted_at: Time,
    stale: Set<Components>,
    rows: Seq<Row>,
    parsed: JetStreamPath<Text>,
    path: Components,
    store: Store,
    talk: Talk,
    turns: nat,
) -> (reached: (Talk, nat))
    requires
        turns >= 4,
        talk.listening(),
        willing(store),
        JetStreamPath::parsed(mount_text(path)) == Ok::<JetStreamPath<Text>, EventFsError<Text>>(
            parsed,
        ),
        stale.contains(path) || row_at(rows, path) is None,
        remembered(store, path) is None,
    ensures
        reached.0.listening(),
        turns - 4 <= reached.1 <= turns,
        ({
            let attributes = run(
                telling_attributes(status, mounted_at, stale, rows, path),
                store,
                talk,
                turns,
            );
            match kind_in(store, parsed) {
                Err(number) => attributes.0 == Err::<RuntimeAttr, Stop>(Pause::Fail(number))
                    && attributes.1 == store,
                Ok(EntryKind::Directory) => attributes.0 == Ok::<RuntimeAttr, Stop>(
                    RuntimeAttr {
                        kind: EntryKind::Directory,
                        size: 0,
                        version: VersionStamp::of(mounted_at),
                    },
                ) && attributes.1 == store,
                Ok(EntryKind::File) => attributes == run(
                    measuring(status, mounted_at, parsed, path),
                    store,
                    reached.0,
                    reached.1,
                ),
            }
        }),
{
    let operation = telling_attributes(status, mounted_at, stale, rows, path);
    let drain = StorageRequest::DrainWatchEvents;
    let recall = recall(path);
    assert(store.grants(drain) && store.grants(recall));
    let measure = measuring(status, mounted_at, parsed, path);
    let directory = RuntimeAttr {
        kind: EntryKind::Directory,
        size: 0,
        version: VersionStamp::of(mounted_at),
    };
    let rest = |step: Step<EntryKind>|
        match step.0 {
            Err(stop) => (Err::<RuntimeAttr, Stop>(stop), step.1),
            Ok(EntryKind::Directory) => (Ok(directory), step.1),
            Ok(EntryKind::File) => measure(step.1),
        };
    let asking = |t: Talk| rest(stored_kind(t, parsed));
    let recalling = |t: Talk|
        {
            let (cached, t) = t.cached(recall);
            match cached {
                Err(stop) => (Err::<RuntimeAttr, Stop>(stop), t),
                Ok(Some(_)) => measure(t),
                Ok(None) => asking(t),
            }
        };
    assert(queued_entries(Seq::empty(), path) =~= Seq::empty());
    assert(queued_version(Seq::empty(), path) is None) by {
        law_queued_version_is_the_latest(Seq::empty(), path);
    }
    lemma_turn(operation, talk, drain, recalling, store, turns);
    let one = talk.told(store.reply(drain)).heard();
    let left = (turns - 1) as nat;
    lemma_turn(recalling, one, recall, asking, store, left);
    let two = one.told(store.reply(recall)).heard();
    let fewer = (left - 1) as nat;
    let next = |t: Talk|
        rest(
            (
                match kind_in(store, parsed) {
                    Ok(kind) => Ok(kind),
                    Err(number) => Err(Pause::Fail(number)),
                },
                t,
            ),
        );
    let (three, few) = lemma_kind(asking, parsed, rest, next, store, two, fewer);
    match kind_in(store, parsed) {
        Ok(EntryKind::File) => {
            lemma_goes_on(next, three, measure, three, store, few);
        },
        _ => {
            lemma_end(next, store, three, few);
        },
    }
    (three, few)
}

/// A directory has no size and dates from the mount. What is not there gives `ENOENT`.
/// Nothing changes.
pub proof fn law_directories_have_no_size(
    status: MountStatus,
    mounted_at: Time,
    stale: Set<Components>,
    rows: Seq<Row>,
    parsed: JetStreamPath<Text>,
    path: Components,
    store: Store,
    talk: Talk,
    turns: nat,
)
    requires
        turns >= 4,
        talk.listening(),
        willing(store),
        JetStreamPath::parsed(mount_text(path)) == Ok::<JetStreamPath<Text>, EventFsError<Text>>(
            parsed,
        ),
        stale.contains(path) || row_at(rows, path) is None,
        remembered(store, path) is None,
        kind_in(store, parsed) != Ok::<EntryKind, i32>(EntryKind::File),
    ensures
        ({
            let (result, after, _) = run(
                telling_attributes(status, mounted_at, stale, rows, path),
                store,
                talk,
                turns,
            );
            &&& after == store
            &&& result == match kind_in(store, parsed) {
                Ok(_) => Ok::<RuntimeAttr, Stop>(
                    RuntimeAttr {
                        kind: EntryKind::Directory,
                        size: 0,
                        version: VersionStamp::of(mounted_at),
                    },
                ),
                Err(number) => Err(Pause::Fail(number)),
            }
        }),
{
    let reached = lemma_attributes(
        status,
        mounted_at,
        stale,
        rows,
        parsed,
        path,
        store,
        talk,
        turns,
    );
}

/// The result of an operation with what it hands out put otherwise.
pub open spec fn mapped<T, U>(result: Result<T, Stop>, f: spec_fn(T) -> U) -> Result<U, Stop> {
    match result {
        Ok(value) => Ok(f(value)),
        Err(stop) => Err(stop),
    }
}

/// An operation that puts what another hands out otherwise comes to the same.
pub proof fn lemma_mapped<T, U>(
    operation: spec_fn(Talk) -> Step<U>,
    other: spec_fn(Talk) -> Step<T>,
    f: spec_fn(T) -> U,
    store: Store,
    talk: Talk,
    turns: nat,
)
    requires
        forall|t: Talk| #[trigger] operation(t) == (mapped(other(t).0, f), other(t).1),
    ensures
        ({
            let (result, after, later) = run(other, store, talk, turns);
            run(operation, store, talk, turns) == (mapped(result, f), after, later)
        }),
    decreases turns,
{
    assert(operation(talk) == (mapped(other(talk).0, f), other(talk).1));
    if turns > 0 {
        if let Err(Pause::Ask(request)) = other(talk).0 {
            lemma_mapped(
                operation,
                other,
                f,
                store.after(request),
                talk.told(store.reply(request)),
                (turns - 1) as nat,
            );
        }
    }
}

/// A file of a key, of a numbered revision, of an object or of a record is as long as what
/// the storage has there, and of its version; it is not there where the storage has
/// nothing.
pub proof fn law_files_are_as_long_as_what_is_stored(
    status: MountStatus,
    mounted_at: Time,
    stale: Set<Components>,
    rows: Seq<Row>,
    parsed: JetStreamPath<Text>,
    path: Components,
    store: Store,
    talk: Talk,
    turns: nat,
)
    requires
        turns >= 8,
        talk.listening(),
        willing(store),
        JetStreamPath::parsed(mount_text(path)) == Ok::<JetStreamPath<Text>, EventFsError<Text>>(
            parsed,
        ),
        stale.contains(path) || row_at(rows, path) is None,
        remembered(store, path) is None,
        behind(store, parsed, path) is Some,
        kind_in(store, parsed) == Ok::<EntryKind, i32>(EntryKind::File),
    ensures
        ({
            let (result, after, _) = run(
                telling_attributes(status, mounted_at, stale, rows, path),
                store,
                talk,
                turns,
            );
            &&& after == (Store { memory: after.memory, ..store })
            &&& result == match behind(store, parsed, path).unwrap().2 {
                Some(snapshot) => Ok::<RuntimeAttr, Stop>(
                    RuntimeAttr {
                        kind: EntryKind::File,
                        size: snapshot.bytes.len() as u64,
                        version: snapshot.version,
                    },
                ),
                None => Err(Pause::Fail(errno::ENOENT)),
            }
        }),
{
    let (one, left) = lemma_attributes(
        status,
        mounted_at,
        stale,
        rows,
        parsed,
        path,
        store,
        talk,
        turns,
    );
    lemma_measured(status, mounted_at, parsed, path, store, one, left);
}

/// A path that has an inode and is not stale goes by the kind of its inode: a file is as
/// long as what the storage has there, and of its version, and a directory has no size.
pub proof fn law_known_paths_have_the_attributes_of_their_kind(
    status: MountStatus,
    mounted_at: Time,
    stale: Set<Components>,
    rows: Seq<Row>,
    row: Row,
    parsed: JetStreamPath<Text>,
    path: Components,
    store: Store,
    talk: Talk,
    turns: nat,
)
    requires
        turns >= 5,
        talk.listening(),
        willing(store),
        JetStreamPath::parsed(mount_text(path)) == Ok::<JetStreamPath<Text>, EventFsError<Text>>(
            parsed,
        ),
        !stale.contains(path),
        row_at(rows, path) == Some(row),
        remembered(store, path) is None,
        row.kind == FileType::RegularFile ==> behind(store, parsed, path) is Some,
    ensures
        ({
            let (result, after, _) = run(
                telling_attributes(status, mounted_at, stale, rows, path),
                store,
                talk,
                turns,
            );
            &&& after == (Store { memory: after.memory, ..store })
            &&& result == if row.kind == FileType::Directory {
                Ok::<RuntimeAttr, Stop>(
                    RuntimeAttr {
                        kind: EntryKind::Directory,
                        size: 0,
                        version: VersionStamp::of(mounted_at),
                    },
                )
            } else {
                match behind(store, parsed, path).unwrap().2 {
                    Some(snapshot) => Ok(
                        RuntimeAttr {
                            kind: EntryKind::File,
                            size: snapshot.bytes.len() as u64,
                            version: snapshot.version,
                        },
                    ),
                    None => Err(Pause::Fail(errno::ENOENT)),
                }
            }
        }),
{
    let operation = telling_attributes(status, mounted_at, stale, rows, path);
    let drain = StorageRequest::DrainWatchEvents;
    assert(store.grants(drain));
    let measure = measuring(status, mounted_at, parsed, path);
    let one = talk.told(store.reply(drain)).heard();
    let left = (turns - 1) as nat;
    assert(queued_entries(Seq::empty(), path) =~= Seq::empty());
    assert(queued_version(Seq::empty(), path) is None) by {
        law_queued_version_is_the_latest(Seq::empty(), path);
    }
    if row.kind == FileType::Directory {
        let directory = RuntimeAttr {
            kind: EntryKind::Directory,
            size: 0,
            version: VersionStamp::of(mounted_at),
        };
        let finish = |t: Talk| (Ok::<RuntimeAttr, Stop>(directory), t);
        lemma_turn(operation, talk, drain, finish, store, turns);
        lemma_end(finish, store, one, left);
    } else {
        lemma_turn(operation, talk, drain, measure, store, turns);
        lemma_measured(status, mounted_at, parsed, path, store, one, left);
    }
}

/// Size and version of a file are those of what the storage has there.
proof fn lemma_measured(
    status: MountStatus,
    mounted_at: Time,
    parsed: JetStreamPath<Text>,
    path: Components,
    store: Store,
    one: Talk,
    left: nat,
)
    requires
        left >= 4,
        one.listening(),
        willing(store),
        JetStreamPath::parsed(mount_text(path)) == Ok::<JetStreamPath<Text>, EventFsError<Text>>(
            parsed,
        ),
        remembered(store, path) is None,
        behind(store, parsed, path) is Some,
    ensures
        ({
            let (result, after, _) = run(
                measuring(status, mounted_at, parsed, path),
                store,
                one,
                left,
            );
            &&& after == (Store { memory: after.memory, ..store })
            &&& result == match behind(store, parsed, path).unwrap().2 {
                Some(snapshot) => Ok::<RuntimeAttr, Stop>(
                    RuntimeAttr {
                        kind: EntryKind::File,
                        size: snapshot.bytes.len() as u64,
                        version: snapshot.version,
                    },
                ),
                None => Err(Pause::Fail(errno::ENOENT)),
            }
        }),
{
    let operation = measuring(status, mounted_at, parsed, path);
    let recall = recall(path);
    assert(store.grants(recall));
    let (request, origin, stored) = behind(store, parsed, path).unwrap();
    let two = one.told(store.reply(recall)).heard();
    let fewer = (left - 1) as nat;
    match parsed {
        JetStreamPath::Object { bucket, object } => {
            let metadata = StorageRequest::ObjectMetadata { bucket, object };
            assert(store.grants(metadata));
            let asking = |t: Talk|
                {
                    let (info, t) = t.object_info(metadata);
                    match info {
                        Err(stop) => (Err::<RuntimeAttr, Stop>(stop), t),
                        Ok(None) => (Err(Pause::Fail(errno::ENOENT)), t),
                        Ok(Some(info)) => (
                            Ok(
                                RuntimeAttr {
                                    kind: EntryKind::File,
                                    size: info.size,
                                    version: VersionStamp::of(info.modified),
                                },
                            ),
                            t,
                        ),
                    }
                };
            lemma_turn(operation, one, recall, asking, store, left);
            let finish = |t: Talk|
                match entry_of(store.objects, (bucket, object)) {
                    Some(object) => (
                        Ok::<RuntimeAttr, Stop>(
                            RuntimeAttr {
                                kind: EntryKind::File,
                                size: info_of(object).size,
                                version: VersionStamp::of(object.modified),
                            },
                        ),
                        t,
                    ),
                    None => (Err(Pause::Fail(errno::ENOENT)), t),
                };
            lemma_turn(asking, two, metadata, finish, store, fewer);
            lemma_end(
                finish,
                store,
                two.told(store.reply(metadata)).heard(),
                (fewer - 1) as nat,
            );
        },
        _ => {
            let f = |snapshot: Snapshot|
                RuntimeAttr {
                    kind: EntryKind::File,
                    size: snapshot.bytes.len() as u64,
                    version: snapshot.version,
                };
            let read = reading_stored(status, mounted_at, parsed, path);
            let plain = |t: Talk|
                {
                    let (cached, t) = t.cached(recall);
                    match cached {
                        Err(stop) => (Err::<Snapshot, Stop>(stop), t),
                        Ok(Some(snapshot)) => (Ok(snapshot), t),
                        Ok(None) => read(t),
                    }
                };
            let again = |t: Talk| (mapped(plain(t).0, f), plain(t).1);
            lemma_turn(operation, one, recall, again, store, left);
            lemma_mapped(again, plain, f, store, two, fewer);
            lemma_turn(plain, two, recall, read, store, fewer);
            let three = two.told(store.reply(recall)).heard();
            if let Some(snapshot) = stored {
                assert(store.grants(
                    StorageRequest::RememberFile { entry: memory_entry(path, origin, snapshot) },
                ));
            }
            lemma_stored_value(
                status,
                mounted_at,
                parsed,
                path,
                store,
                three,
                (fewer - 1) as nat,
            );
        },
    }
}

/// A file that is remembered is as long as what is remembered, and of its version. Nothing
/// changes.
pub proof fn law_remembered_files_are_as_long_as_what_is_remembered(
    status: MountStatus,
    mounted_at: Time,
    stale: Set<Components>,
    rows: Seq<Row>,
    parsed: JetStreamPath<Text>,
    path: Components,
    store: Store,
    talk: Talk,
    turns: nat,
)
    requires
        turns >= 3,
        talk.listening(),
        willing(store),
        JetStreamPath::parsed(mount_text(path)) == Ok::<JetStreamPath<Text>, EventFsError<Text>>(
            parsed,
        ),
        stale.contains(path) || row_at(rows, path) is None,
        remembered(store, path) is Some,
    ensures
        ({
            let (result, after, _) = run(
                telling_attributes(status, mounted_at, stale, rows, path),
                store,
                talk,
                turns,
            );
            let snapshot = remembered(store, path).unwrap();
            &&& after == store
            &&& result == Ok::<RuntimeAttr, Stop>(
                RuntimeAttr {
                    kind: EntryKind::File,
                    size: snapshot.bytes.len() as u64,
                    version: snapshot.version,
                },
            )
        }),
{
    let operation = telling_attributes(status, mounted_at, stale, rows, path);
    let drain = StorageRequest::DrainWatchEvents;
    let recall = recall(path);
    assert(store.grants(drain) && store.grants(recall));
    let measure = measuring(status, mounted_at, parsed, path);
    let directory = RuntimeAttr {
        kind: EntryKind::Directory,
        size: 0,
        version: VersionStamp::of(mounted_at),
    };
    let rest = |step: Step<EntryKind>|
        match step.0 {
            Err(stop) => (Err::<RuntimeAttr, Stop>(stop), step.1),
            Ok(EntryKind::Directory) => (Ok(directory), step.1),
            Ok(EntryKind::File) => measure(step.1),
        };
    let recalling = |t: Talk|
        {
            let (cached, t) = t.cached(recall);
            match cached {
                Err(stop) => (Err::<RuntimeAttr, Stop>(stop), t),
                Ok(Some(_)) => measure(t),
                Ok(None) => rest(stored_kind(t, parsed)),
            }
        };
    assert(queued_entries(Seq::empty(), path) =~= Seq::empty());
    assert(queued_version(Seq::empty(), path) is None) by {
        law_queued_version_is_the_latest(Seq::empty(), path);
    }
    lemma_turn(operation, talk, drain, recalling, store, turns);
    let one = talk.told(store.reply(drain)).heard();
    let left = (turns - 1) as nat;
    lemma_turn(recalling, one, recall, measure, store, left);
    let two = one.told(store.reply(recall)).heard();
    let fewer = (left - 1) as nat;
    let snapshot = remembered(store, path).unwrap();
    let attr = RuntimeAttr {
        kind: EntryKind::File,
        size: snapshot.bytes.len() as u64,
        version: snapshot.version,
    };
    let finish = |t: Talk| (Ok::<RuntimeAttr, Stop>(attr), t);
    lemma_turn(measure, two, recall, finish, store, fewer);
    lemma_end(finish, store, two.told(store.reply(recall)).heard(), (fewer - 1) as nat);
}

/// A path that has an inode and is not stale is of the kind of its inode, and no question
/// is asked. A path that is remembered is a file, and fresh again.
pub proof fn law_inodes_and_memory_tell_the_kind(
    talk: Talk,
    row: Row,
    snapshot: Snapshot,
    parsed: JetStreamPath<Text>,
    path: Components,
)
    ensures
        ({
            let ((kind, later), fresh) = kind_of(
                talk,
                Seq::empty(),
                false,
                Some(row),
                parsed,
                path,
            );
            &&& kind == Ok::<EntryKind, Stop>(EntryKind::Directory) <==> row.kind
                == FileType::Directory
            &&& kind == Ok::<EntryKind, Stop>(EntryKind::File) <==> row.kind
                == FileType::RegularFile
            &&& later == talk && !fresh
        }),
        talk.listening() ==> kind_of(
            talk.told(Reply::Cached(Some(snapshot))),
            Seq::empty(),
            true,
            Some(row),
            parsed,
            path,
        ) == (
            (
                Ok::<EntryKind, Stop>(EntryKind::File),
                talk.told(Reply::Cached(Some(snapshot))).heard(),
            ),
            true,
        ),
{
    assert(queued_entries(Seq::empty(), path) =~= Seq::empty());
}

/// What the queued writes put below a path makes it a directory, and no question is asked.
/// A path that they remove is not there, unless it can be a directory through what lies
/// below it.
pub proof fn law_queued_writes_tell_the_kind(
    talk: Talk,
    facts: Seq<Fact>,
    stale: bool,
    row: Option<Row>,
    parsed: JetStreamPath<Text>,
    path: Components,
)
    ensures
        ({
            let ((kind, later), fresh) = kind_of(talk, facts, stale, row, parsed, path);
            &&& !deleted(facts, path) && whole_value(facts, path) is None && queued_lines(
                facts,
                path,
            ).len() == 0 && queued_entries(facts, path).len() > 0 ==> kind == Ok::<EntryKind, Stop>(
                EntryKind::Directory,
            ) && later == talk && fresh
            &&& !deleted(facts, path) && queued_lines(facts, path).len() > 0 ==> kind == Ok::<
                EntryKind,
                Stop,
            >(EntryKind::File) && later == talk && fresh
            &&& deleted(facts, path) && !(parsed is KvKey || parsed is Object
                || parsed is TaskNamespace || parsed is AgentRecord || parsed is SemanticRecord)
                ==> kind is Err
        }),
{
}

/// Asking what a path is.
pub open spec fn telling_shown_kind(
    facts: Seq<Fact>,
    stale: bool,
    row: Option<Row>,
    parsed: JetStreamPath<Text>,
    path: Components,
) -> spec_fn(Talk) -> Step<EntryKind> {
    |talk: Talk| kind_of(talk, facts, stale, row, parsed, path).0
}

/// A queued write that removes a path alone leaves the entries below it as they are.
proof fn lemma_nothing_removed_below(
    talk: Talk,
    fact: Fact,
    path: Components,
    entries: Seq<Entry>,
)
    requires
        fact.deleted == seq![path],
        fact.visible.len() == 0,
    ensures
        overlaid_from(talk, seq![fact], 0, path, entries) == (Ok::<Seq<Entry>, Stop>(entries), talk),
{
    let facts = seq![fact];
    let kept = (Ok::<Seq<Entry>, Stop>(entries), talk);
    assert(facts[0] == fact && fact.deleted.len() == 1 && fact.deleted[0] == path);
    assert(child_of(path, path) is None);
    assert(deleted_from(talk, facts, 0, 1, path, entries) == kept);
    assert(deleted_from(talk, facts, 0, 0, path, entries) == kept);
    assert(with_children(entries, path, fact.visible) == entries);
    assert(overlaid_from(talk, facts, 1, path, entries) == kept);
}

/// A key or an object that a queued write removes is a directory where the storage lists
/// something below it, and otherwise not there, whatever else is known of it. Nothing
/// changes.
#[verifier::spinoff_prover]
#[verifier::rlimit(60)]
pub proof fn law_removed_values_leave_what_lies_below(
    fact: Fact,
    stale: bool,
    row: Option<Row>,
    parsed: JetStreamPath<Text>,
    path: Components,
    store: Store,
    talk: Talk,
    turns: nat,
)
    requires
        turns >= 1,
        talk.listening(),
        willing(store),
        JetStreamPath::parsed(mount_text(path)) == Ok::<JetStreamPath<Text>, EventFsError<Text>>(
            parsed,
        ),
        parsed is KvKey || parsed is Object,
        fact.deleted == seq![path],
        fact.visible.len() == 0,
    ensures
        ({
            let (result, after, _) = run(
                telling_shown_kind(seq![fact], stale, row, parsed, path),
                store,
                talk,
                turns,
            );
            let below = match parsed {
                JetStreamPath::KvKey { bucket, key } => (store.listed)(
                    StorageRequest::ListKvPrefix { bucket, prefix: key },
                ),
                JetStreamPath::Object { bucket, object } => (store.listed)(
                    StorageRequest::ListObjectPrefix { bucket, prefix: object },
                ),
                _ => Seq::empty(),
            };
            &&& after == store
            &&& result == if below.len() > 0 {
                Ok::<EntryKind, Stop>(EntryKind::Directory)
            } else {
                Err(Pause::Fail(errno::ENOENT))
            }
        }),
{
    let facts = seq![fact];
    let operation = telling_shown_kind(facts, stale, row, parsed, path);
    let request = match parsed {
        JetStreamPath::KvKey { bucket, key } => StorageRequest::ListKvPrefix { bucket, prefix: key },
        JetStreamPath::Object { bucket, object } => StorageRequest::ListObjectPrefix {
            bucket,
            prefix: object,
        },
        _ => StorageRequest::WriteGate,
    };
    assert(store.grants(request));
    let below = (store.listed)(request);
    assert(fact.deleted[0] == path);
    assert(fact.deleted.contains(path));
    assert(facts.last() == fact);
    assert(deleted(facts, path));
    let finish = |t: Talk|
        if below.len() > 0 {
            (Ok::<EntryKind, Stop>(EntryKind::Directory), t)
        } else {
            (Err::<EntryKind, Stop>(Pause::Fail(errno::ENOENT)), t)
        };
    let asking = |t: Talk|
        {
            let (entries, t) = t.entries(request);
            match entries {
                Err(Pause::Ask(request)) => (Err::<EntryKind, Stop>(Pause::Ask(request)), t),
                Ok(entries) if entries.len() > 0 => (Ok(EntryKind::Directory), t),
                _ => (Err(Pause::Fail(errno::ENOENT)), t),
            }
        };
    assert forall|t: Talk| #[trigger] operation(t) == asking(t) by {
        let (entries, later) = t.entries(request);
        assert(durable_entries(t, parsed) == (entries, later));
        let listed = match entries {
            Ok(entries) => entries,
            Err(_) => Seq::empty(),
        };
        lemma_nothing_removed_below(later, fact, path, listed);
        assert(known_visible(t, facts, path) == match entries {
            Err(Pause::Ask(request)) => (Err::<bool, Stop>(Pause::Ask(request)), later),
            _ => (Ok(listed.len() > 0), later),
        });
    }
    lemma_goes_on(operation, talk, asking, talk, store, turns);
    lemma_turn(asking, talk, request, finish, store, turns);
    lemma_end(finish, store, talk.told(store.reply(request)).heard(), (turns - 1) as nat);
}

/// Asking whether the storage has a value under exactly a path.
pub open spec fn telling_exactly(parsed: JetStreamPath<Text>) -> spec_fn(Talk) -> Step<bool> {
    |talk: Talk| exact_file(talk, parsed)
}

/// The storage has a value under exactly the path of a key, an object or a record where it
/// holds one there, whatever lies below. Nothing changes.
pub proof fn law_exact_files_are_held(
    parsed: JetStreamPath<Text>,
    fact: StorageFact<Text>,
    store: Store,
    talk: Talk,
    turns: nat,
)
    requires
        turns >= 1,
        talk.listening(),
        willing(store),
        parsed is KvKey || parsed is Object || parsed is AgentRecord || parsed is SemanticRecord,
        StorageFact::of(parsed) == Some(fact),
        !(fact is StreamSubject),
    ensures
        ({
            let (result, after, _) = run(telling_exactly(parsed), store, talk, turns);
            result == Ok::<bool, Stop>(held(store, fact) is Some) && after == store
        }),
{
    let request = match fact {
        StorageFact::Object { bucket, name } => StorageRequest::ObjectMetadata {
            bucket,
            object: name,
        },
        StorageFact::Kv { bucket, key } => StorageRequest::KvGet { bucket, key },
        _ => StorageRequest::WriteGate,
    };
    assert(store.grants(request));
    let finish = |t: Talk| (Ok::<bool, Stop>(held(store, fact) is Some), t);
    lemma_turn(telling_exactly(parsed), talk, request, finish, store, turns);
    lemma_end(finish, store, talk.told(store.reply(request)).heard(), (turns - 1) as nat);
}

} // verus!
