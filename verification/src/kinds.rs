//! What a path is as the mount shows it, its attributes, and what may be created
//! there.

use vstd::prelude::*;

use crate::attr::FileType;
use crate::directories::{
    emptied, queued_deleted_descendant_empties_synthetic_directory,
    queued_exact_delete_reveals_synthetic_directory, revealed,
};
use crate::durable::{
    classify_kv_dynamic_path, classify_object_dynamic_path, kv_kind, object_kind, object_metadata,
    require_kv_bucket, require_object_bucket, require_stream, required, stream_subject_exists,
    subject_known, DynamicPathKind,
};
use crate::entries::{listing, EntryKind};
use crate::errno;
use crate::files::{
    cached_snapshot, content, queued_jsonl_snapshot, queued_log, read_snapshot, MountView,
};
use crate::inquiry::{
    plain_outcome, revision_models, step_outcome, Inquiry, Pause, Step, Stop, StorageRequest, Talk,
};
use crate::jsonl::{action_publishes_jsonl, publishes};
use crate::mount_paths::{mount_text, Components, MountPath};
use crate::overlay::{
    deleted, queued_entries, queued_lines, queued_version, whole_value, Fact, FileSnapshot,
    QueuedOverlayProjection, Snapshot,
};
use crate::path::JetStreamPath;
use crate::path_cache::{row_at, PathCache, Row};
use crate::plan::{plan_operation, write_plan, Action, FileIntent, JetStreamAction};
use crate::stale::PathSet;
use crate::subjects::MaterializedTarget;
use crate::text::Text;
use crate::upkeep::{apply_pending_watch_events, drained};
use crate::documents::MountStatus;
use crate::versions::{Time, VersionStamp};

verus! {

/// What the attributes of a path are made of.
#[derive(Clone, Copy, Debug, PartialEq, Eq, Structural)]
pub struct RuntimeAttr {
    pub kind: EntryKind,
    pub size: u64,
    pub version: VersionStamp,
}

/// How large a file is, and of which version.
#[derive(Clone, Copy, Debug, PartialEq, Eq, Structural)]
pub struct FileMetadata {
    pub size: u64,
    pub version: VersionStamp,
}

/// How a file is written: as a whole, or by appending lines.
#[derive(Clone, Copy, Debug, PartialEq, Eq, Structural)]
pub enum HandleMode {
    WholeValue,
    JsonLines,
}

/// A change that the tree allows: a new file with what it holds at first.
#[derive(Clone, Debug, PartialEq, Eq)]
pub enum MountProjectionMutation {
    CreateFile { default_payload: Vec<u8> },
}

impl View for MountProjectionMutation {
    type V = Seq<u8>;

    open spec fn view(&self) -> Seq<u8> {
        match *self {
            MountProjectionMutation::CreateFile { default_payload } => default_payload@,
        }
    }
}

impl MountProjectionMutation {
    /// What the new file holds at first.
    pub fn into_default_payload(self) -> (payload: Vec<u8>)
        ensures
            payload@ == self@,
    {
        match self {
            MountProjectionMutation::CreateFile { default_payload } => default_payload,
        }
    }
}

// ---------------------------------------------------------------------------
// Kinds
// ---------------------------------------------------------------------------

/// A kind as it shows: what is not there would be a file.
pub open spec fn shown_as(step: Step<DynamicPathKind>) -> Step<EntryKind> {
    let (kind, talk) = step;
    match kind {
        Err(stop) => (Err(stop), talk),
        Ok(DynamicPathKind::Directory) => (Ok(EntryKind::Directory), talk),
        Ok(_) => (Ok(EntryKind::File), talk),
    }
}

/// A directory, once what it stands for is known to be there.
pub open spec fn directory_once(step: Step<()>) -> Step<EntryKind> {
    let (there, talk) = step;
    match there {
        Err(stop) => (Err(stop), talk),
        Ok(()) => (Ok(EntryKind::Directory), talk),
    }
}

/// A key with history shows as a directory: one that has revisions, or below which
/// there are keys that have.
pub open spec fn history_kind(talk: Talk, bucket: Text, key: Text) -> Step<EntryKind> {
    let (revisions, talk) = talk.revisions(StorageRequest::KvHistory { bucket, key });
    match revisions {
        Err(stop) => (Err(stop), talk),
        Ok(revisions) => if revisions.len() > 0 {
            (Ok(EntryKind::Directory), talk)
        } else {
            let (below, talk) = talk.entries(
                StorageRequest::ListKvHistoryPrefix { bucket, prefix: key },
            );
            match below {
                Err(stop) => (Err(stop), talk),
                Ok(below) => if below.len() == 0 {
                    (Err(Pause::Fail(errno::ENOENT)), talk)
                } else {
                    (Ok(EntryKind::Directory), talk)
                },
            }
        },
    }
}

/// The file of a subject is there once its stream has messages of it.
pub open spec fn subject_kind(talk: Talk, stream: Text, subject: Text) -> Step<EntryKind> {
    let (there, talk) = required(talk.names(StorageRequest::ListStreams), stream);
    match there {
        Err(stop) => (Err(stop), talk),
        Ok(()) => {
            let (known, talk) = subject_known(talk, stream, subject);
            match known {
                Err(stop) => (Err(stop), talk),
                Ok(true) => (Ok(EntryKind::File), talk),
                Ok(false) => (Err(Pause::Fail(errno::ENOENT)), talk),
            }
        },
    }
}

/// What the storage says that a path is.
pub open spec fn stored_kind(talk: Talk, parsed: JetStreamPath<Text>) -> Step<EntryKind> {
    match parsed {
        JetStreamPath::Root
        | JetStreamPath::KvRoot
        | JetStreamPath::StreamsRoot
        | JetStreamPath::ObjectsRoot
        | JetStreamPath::EventsRoot
        | JetStreamPath::TasksRoot
        | JetStreamPath::AgentsRoot
        | JetStreamPath::SemanticRoot
        | JetStreamPath::MetadataRoot
        | JetStreamPath::TaskNamespace { .. }
        | JetStreamPath::AgentRoot { .. }
        | JetStreamPath::AgentDirectory { .. }
        | JetStreamPath::SemanticArea { .. } => (Ok(EntryKind::Directory), talk),
        JetStreamPath::KvBucket { bucket } | JetStreamPath::KvHistoryRoot { bucket } => directory_once(
            required(talk.names(StorageRequest::ListKvBuckets), bucket),
        ),
        JetStreamPath::KvHistoryKey { bucket, key } => history_kind(talk, bucket, key),
        JetStreamPath::StreamRoot { stream }
        | JetStreamPath::StreamMessages { stream }
        | JetStreamPath::StreamSubjects { stream } => directory_once(
            required(talk.names(StorageRequest::ListStreams), stream),
        ),
        JetStreamPath::StreamSubject { stream, subject } => subject_kind(talk, stream, subject.0),
        JetStreamPath::ObjectBucket { bucket } => directory_once(
            required(talk.names(StorageRequest::ListObjectBuckets), bucket),
        ),
        JetStreamPath::KvKey { bucket, key } => shown_as(kv_kind(talk, bucket, key)),
        JetStreamPath::AgentRecord { .. } | JetStreamPath::SemanticRecord { .. } => match MaterializedTarget::of(
            parsed,
        ) {
            Some(MaterializedTarget::Kv { bucket, key }) => shown_as(kv_kind(talk, bucket, key)),
            _ => (Ok(EntryKind::File), talk),
        },
        JetStreamPath::Object { bucket, object } => shown_as(object_kind(talk, bucket, object)),
        _ => (Ok(EntryKind::File), talk),
    }
}

/// What the queued writes say that a path is, or that it is not there. They may say
/// nothing.
pub open spec fn queued_kind(
    talk: Talk,
    facts: Seq<Fact>,
    parsed: JetStreamPath<Text>,
    path: Components,
) -> Step<Option<DynamicPathKind>> {
    if deleted(facts, path) {
        let (directory, talk) = revealed(talk, facts, parsed, path);
        match directory {
            Err(stop) => (Err(stop), talk),
            Ok(true) => (Ok(Some(DynamicPathKind::Directory)), talk),
            Ok(false) => (Ok(Some(DynamicPathKind::Missing)), talk),
        }
    } else if whole_value(facts, path) is Some || queued_lines(facts, path).len() > 0 {
        (Ok(Some(DynamicPathKind::File)), talk)
    } else if queued_entries(facts, path).len() > 0 {
        (Ok(Some(DynamicPathKind::Directory)), talk)
    } else {
        let (gone, talk) = emptied(talk, facts, parsed, path);
        match gone {
            Err(stop) => (Err(stop), talk),
            Ok(true) => (Ok(Some(DynamicPathKind::Missing)), talk),
            Ok(false) => (Ok(None), talk),
        }
    }
}

/// The kind of an inode as the kind of an entry.
pub open spec fn entry_kind(kind: FileType) -> EntryKind {
    match kind {
        FileType::Directory => EntryKind::Directory,
        FileType::RegularFile => EntryKind::File,
    }
}

/// What a path is: the queued writes say so first, then its inode unless the path is
/// stale, then what is remembered, then the storage. With it comes whether the path is
/// fresh again.
pub open spec fn kind_of(
    talk: Talk,
    facts: Seq<Fact>,
    stale: bool,
    row: Option<Row>,
    parsed: JetStreamPath<Text>,
    path: Components,
) -> (Step<EntryKind>, bool) {
    let (queued, talk) = queued_kind(talk, facts, parsed, path);
    match queued {
        Err(stop) => ((Err(stop), talk), false),
        Ok(Some(DynamicPathKind::Directory)) => ((Ok(EntryKind::Directory), talk), true),
        Ok(Some(DynamicPathKind::File)) => ((Ok(EntryKind::File), talk), true),
        Ok(Some(DynamicPathKind::Missing)) => ((Err(Pause::Fail(errno::ENOENT)), talk), true),
        Ok(None) => if !stale && row is Some {
            ((Ok(entry_kind(row.unwrap().kind)), talk), false)
        } else {
            let (cached, talk) = talk.cached(StorageRequest::CachedFile { path: mount_text(path) });
            match cached {
                Err(stop) => ((Err(stop), talk), false),
                Ok(Some(_)) => ((Ok(EntryKind::File), talk), true),
                Ok(None) => (stored_kind(talk, parsed), false),
            }
        },
    }
}

/// A path that is fresh again is no longer stale.
pub open spec fn refreshed(stale: Set<Components>, path: Components, fresh: bool) -> Set<
    Components,
> {
    if fresh {
        stale.remove(path)
    } else {
        stale
    }
}

// ---------------------------------------------------------------------------
// Attributes
// ---------------------------------------------------------------------------

/// Size and version of a file's content.
pub open spec fn measured(snapshot: Snapshot) -> FileMetadata {
    FileMetadata { size: snapshot.bytes.len() as u64, version: snapshot.version }
}

/// Size and version of a file. Of an object they are known without its content.
pub open spec fn file_metadata(
    talk: Talk,
    facts: Seq<Fact>,
    status: MountStatus,
    mounted_at: Time,
    parsed: JetStreamPath<Text>,
    path: Components,
) -> Step<FileMetadata> {
    if deleted(facts, path) {
        (Err(Pause::Fail(errno::ENOENT)), talk)
    } else if whole_value(facts, path) is Some {
        (Ok(measured(whole_value(facts, path).unwrap())), talk)
    } else {
        let (queued, talk) = queued_log(talk, facts, parsed, path, mounted_at);
        match queued {
            Err(stop) => (Err(stop), talk),
            Ok(Some(snapshot)) => (Ok(measured(snapshot)), talk),
            Ok(None) => {
                let (cached, talk) = talk.cached(
                    StorageRequest::CachedFile { path: mount_text(path) },
                );
                match cached {
                    Err(stop) => (Err(stop), talk),
                    Ok(Some(snapshot)) => (Ok(measured(snapshot)), talk),
                    Ok(None) => match parsed {
                        JetStreamPath::Object { bucket, object } => {
                            let (info, talk) = talk.object_info(
                                StorageRequest::ObjectMetadata { bucket, object },
                            );
                            match info {
                                Err(stop) => (Err(stop), talk),
                                Ok(None) => (Err(Pause::Fail(errno::ENOENT)), talk),
                                Ok(Some(info)) => (
                                    Ok(
                                        FileMetadata {
                                            size: info.size,
                                            version: VersionStamp::of(info.modified),
                                        },
                                    ),
                                    talk,
                                ),
                            }
                        },
                        _ => {
                            let (snapshot, talk) = content(
                                talk,
                                facts,
                                status,
                                mounted_at,
                                parsed,
                                path,
                            );
                            match snapshot {
                                Err(stop) => (Err(stop), talk),
                                Ok(snapshot) => (Ok(measured(snapshot)), talk),
                            }
                        },
                    },
                }
            },
        }
    }
}

/// The attributes of a directory: it has no size, and the version of the queued write
/// that shows it, or of the mount.
pub open spec fn directory_attr(facts: Seq<Fact>, mounted_at: Time, path: Components) -> RuntimeAttr {
    RuntimeAttr {
        kind: EntryKind::Directory,
        size: 0,
        version: match queued_version(facts, path) {
            Some(version) => version,
            None => VersionStamp::of(mounted_at),
        },
    }
}

/// The attributes of a path, and whether it is fresh again.
pub open spec fn attr_of(
    talk: Talk,
    facts: Seq<Fact>,
    status: MountStatus,
    mounted_at: Time,
    stale: Set<Components>,
    rows: Seq<Row>,
    path: Components,
) -> (Step<RuntimeAttr>, bool) {
    let (done, talk) = drained(talk);
    match done {
        Err(stop) => ((Err(stop), talk), false),
        Ok(()) => match JetStreamPath::parsed(mount_text(path)) {
            Err(error) => ((Err(Pause::Fail(error.number().0)), talk), false),
            Ok(parsed) => {
                let ((kind, talk), fresh) = kind_of(
                    talk,
                    facts,
                    stale.contains(path),
                    row_at(rows, path),
                    parsed,
                    path,
                );
                match kind {
                    Err(stop) => ((Err(stop), talk), fresh),
                    Ok(EntryKind::Directory) => (
                        (Ok(directory_attr(facts, mounted_at, path)), talk),
                        fresh,
                    ),
                    Ok(EntryKind::File) => {
                        let (file, talk) = file_metadata(
                            talk,
                            facts,
                            status,
                            mounted_at,
                            parsed,
                            path,
                        );
                        match file {
                            Err(stop) => ((Err(stop), talk), fresh),
                            Ok(file) => (
                                (
                                    Ok(
                                        RuntimeAttr {
                                            kind: EntryKind::File,
                                            size: file.size,
                                            version: file.version,
                                        },
                                    ),
                                    talk,
                                ),
                                fresh,
                            ),
                        }
                    },
                }
            },
        },
    }
}

/// Whether an operation came to an end, so that no question is open.
pub open spec fn settled<T>(result: Result<T, Stop>) -> bool {
    !(result matches Err(Pause::Ask(_)))
}

// ---------------------------------------------------------------------------
// Writing and creating
// ---------------------------------------------------------------------------

/// How the file at a mount path is written.
pub open spec fn mode_of(path: Components) -> Result<HandleMode, i32> {
    match JetStreamPath::parsed(mount_text(path)) {
        Err(error) => Err(error.number().0),
        Ok(parsed) => match write_plan(parsed) {
            Err(error) => Err(error.number().0),
            Ok(action) => Ok(
                if publishes(action) {
                    HandleMode::JsonLines
                } else {
                    HandleMode::WholeValue
                },
            ),
        },
    }
}

/// What a new file holds before anything is written to it.
pub open spec fn default_payload(action: Action) -> Seq<u8> {
    match action {
        JetStreamAction::MaterializedPut { target: MaterializedTarget::Kv { .. } } => seq![
            110u8,
            117u8,
            108u8,
            108u8,
        ],
        _ => Seq::empty(),
    }
}

/// What is already at the place of a new file.
pub open spec fn creation_kind(
    talk: Talk,
    facts: Seq<Fact>,
    parsed: JetStreamPath<Text>,
    action: Action,
    path: Components,
) -> Step<DynamicPathKind> {
    let (queued, talk) = queued_kind(talk, facts, parsed, path);
    match queued {
        Err(stop) => (Err(stop), talk),
        Ok(Some(kind)) => (Ok(kind), talk),
        Ok(None) => match action {
            JetStreamAction::KvPut { bucket, key } => kv_kind(talk, bucket, key),
            JetStreamAction::ObjectPut { bucket, object } => object_kind(talk, bucket, object),
            JetStreamAction::MaterializedPut {
                target: MaterializedTarget::Kv { bucket, key },
            } => {
                let (kind, talk) = kv_kind(talk, bucket, key);
                match kind {
                    Err(Pause::Fail(number)) if number == errno::ENOENT => (
                        Ok(DynamicPathKind::Missing),
                        talk,
                    ),
                    _ => (kind, talk),
                }
            },
            _ => (Ok(DynamicPathKind::Missing), talk),
        },
    }
}

/// What a file that is to be created holds at first. There may be nothing at its place
/// yet, and no file can be created where lines are appended.
pub open spec fn creation(talk: Talk, facts: Seq<Fact>, path: Components) -> Step<Seq<u8>> {
    let (done, talk) = drained(talk);
    match done {
        Err(stop) => (Err(stop), talk),
        Ok(()) => match JetStreamPath::parsed(mount_text(path)) {
            Err(error) => (Err(Pause::Fail(error.number().0)), talk),
            Ok(parsed) => match write_plan(parsed) {
                Err(error) => (Err(Pause::Fail(error.number().0)), talk),
                Ok(action) => if publishes(action) {
                    (Err(Pause::Fail(errno::ENOTSUP)), talk)
                } else {
                    let (kind, talk) = creation_kind(talk, facts, parsed, action, path);
                    match kind {
                        Err(stop) => (Err(stop), talk),
                        Ok(DynamicPathKind::Missing) => (Ok(default_payload(action)), talk),
                        Ok(DynamicPathKind::File) => (Err(Pause::Fail(errno::EEXIST)), talk),
                        Ok(DynamicPathKind::Directory) => (Err(Pause::Fail(errno::EISDIR)), talk),
                    }
                },
            },
        },
    }
}

// ---------------------------------------------------------------------------
// Laws
// ---------------------------------------------------------------------------

/// A path that the queue removes is never a file, whatever the storage, the memory and
/// the inode say.
pub proof fn law_removed_paths_are_no_files(
    talk: Talk,
    facts: Seq<Fact>,
    stale: bool,
    row: Option<Row>,
    parsed: JetStreamPath<Text>,
    path: Components,
)
    requires
        deleted(facts, path),
    ensures
        kind_of(talk, facts, stale, row, parsed, path).0.0 != Ok::<EntryKind, Stop>(EntryKind::File),
{
}

/// A whole value that is queued makes its path a file, and no question is asked.
pub proof fn law_queued_values_are_files(
    talk: Talk,
    facts: Seq<Fact>,
    stale: bool,
    row: Option<Row>,
    parsed: JetStreamPath<Text>,
    path: Components,
)
    requires
        !deleted(facts, path),
        whole_value(facts, path) is Some,
    ensures
        kind_of(talk, facts, stale, row, parsed, path) == (
            (Ok::<EntryKind, Stop>(EntryKind::File), talk),
            true,
        ),
{
}

/// Whether the content of a file is at hand: queued as a whole, queued as lines, or
/// remembered.
pub open spec fn at_hand(
    talk: Talk,
    facts: Seq<Fact>,
    mounted_at: Time,
    parsed: JetStreamPath<Text>,
    path: Components,
) -> bool {
    let (queued, talk) = queued_log(talk, facts, parsed, path, mounted_at);
    let (cached, _) = talk.cached(StorageRequest::CachedFile { path: mount_text(path) });
    ||| whole_value(facts, path) is Some
    ||| (queued matches Ok(Some(_)))
    ||| ((queued matches Ok(None)) && (cached matches Ok(Some(_))))
}

/// The attributes of a file whose content is at hand give the length and the version of
/// what reading it gives, after the same questions. A file that the queue removes has
/// neither.
pub proof fn law_size_is_length_of_content(
    talk: Talk,
    facts: Seq<Fact>,
    status: MountStatus,
    mounted_at: Time,
    parsed: JetStreamPath<Text>,
    path: Components,
)
    requires
        deleted(facts, path) || at_hand(talk, facts, mounted_at, parsed, path),
    ensures
        ({
            let (file, after) = file_metadata(talk, facts, status, mounted_at, parsed, path);
            let (snapshot, end) = content(talk, facts, status, mounted_at, parsed, path);
            after == end && match snapshot {
                Ok(snapshot) => file == Ok::<FileMetadata, Stop>(measured(snapshot)),
                Err(stop) => file == Err::<FileMetadata, Stop>(stop),
            }
        }),
{
}

/// Nothing is created where something is: a file that is queued stands in the way.
pub proof fn law_queued_files_are_not_created_again(
    talk: Talk,
    facts: Seq<Fact>,
    parsed: JetStreamPath<Text>,
    action: Action,
    path: Components,
)
    requires
        !deleted(facts, path),
        whole_value(facts, path) is Some || queued_lines(facts, path).len() > 0,
    ensures
        creation_kind(talk, facts, parsed, action, path) == (
            Ok::<DynamicPathKind, Stop>(DynamicPathKind::File),
            talk,
        ),
{
}

// ---------------------------------------------------------------------------
// Kinds and attributes, executed
// ---------------------------------------------------------------------------

fn shown_kind(kind: DynamicPathKind) -> (shown: EntryKind)
    ensures
        forall|talk: Talk| #[trigger]
            shown_as((Ok::<DynamicPathKind, Stop>(kind), talk)) == (
                Ok::<EntryKind, Stop>(shown),
                talk,
            ),
{
    match kind {
        DynamicPathKind::Directory => EntryKind::Directory,
        DynamicPathKind::File | DynamicPathKind::Missing => EntryKind::File,
    }
}

fn kv_prefix_projection_kind(inquiry: &mut Inquiry, bucket: &str, key: &str) -> (result: Result<
    EntryKind,
    Pause,
>)
    ensures
        (plain_outcome(result), final(inquiry)@) == shown_as(
            kv_kind(old(inquiry)@, bucket@, key@),
        ),
{
    let kind = classify_kv_dynamic_path(inquiry, bucket, key)?;
    Ok(shown_kind(kind))
}

fn history_key_kind(inquiry: &mut Inquiry, bucket: &str, key: &str) -> (result: Result<
    EntryKind,
    Pause,
>)
    ensures
        (plain_outcome(result), final(inquiry)@) == history_kind(old(inquiry)@, bucket@, key@),
{
    let revisions = inquiry.revisions(
        StorageRequest::KvHistory { bucket: bucket.to_owned(), key: key.to_owned() },
    )?;
    assert(revision_models(revisions@).len() == revisions@.len());
    if revisions.len() > 0 {
        return Ok(EntryKind::Directory);
    }
    let below = inquiry.entries(
        StorageRequest::ListKvHistoryPrefix { bucket: bucket.to_owned(), prefix: key.to_owned() },
    )?;
    assert(listing(below@).len() == below@.len());
    if below.len() == 0 {
        Err(Pause::Fail(errno::enoent()))
    } else {
        Ok(EntryKind::Directory)
    }
}

fn stored_path_kind(inquiry: &mut Inquiry, parsed: &JetStreamPath) -> (result: Result<
    EntryKind,
    Pause,
>)
    ensures
        (plain_outcome(result), final(inquiry)@) == stored_kind(old(inquiry)@, parsed@),
{
    match parsed {
        JetStreamPath::Root
        | JetStreamPath::KvRoot
        | JetStreamPath::StreamsRoot
        | JetStreamPath::ObjectsRoot
        | JetStreamPath::EventsRoot
        | JetStreamPath::TasksRoot
        | JetStreamPath::AgentsRoot
        | JetStreamPath::SemanticRoot
        | JetStreamPath::MetadataRoot
        | JetStreamPath::TaskNamespace { .. }
        | JetStreamPath::AgentRoot { .. }
        | JetStreamPath::AgentDirectory { .. }
        | JetStreamPath::SemanticArea { .. } => Ok(EntryKind::Directory),
        JetStreamPath::KvBucket { bucket } | JetStreamPath::KvHistoryRoot { bucket } => {
            require_kv_bucket(inquiry, bucket.as_str())?;
            Ok(EntryKind::Directory)
        },
        JetStreamPath::KvHistoryKey { bucket, key } => history_key_kind(
            inquiry,
            bucket.as_str(),
            key.as_str(),
        ),
        JetStreamPath::StreamRoot { stream }
        | JetStreamPath::StreamMessages { stream }
        | JetStreamPath::StreamSubjects { stream } => {
            require_stream(inquiry, stream.as_str())?;
            Ok(EntryKind::Directory)
        },
        JetStreamPath::StreamSubject { stream, subject } => {
            require_stream(inquiry, stream.as_str())?;
            if stream_subject_exists(inquiry, stream.as_str(), subject.as_str())? {
                Ok(EntryKind::File)
            } else {
                Err(Pause::Fail(errno::enoent()))
            }
        },
        JetStreamPath::ObjectBucket { bucket } => {
            require_object_bucket(inquiry, bucket.as_str())?;
            Ok(EntryKind::Directory)
        },
        JetStreamPath::KvKey { bucket, key } => kv_prefix_projection_kind(
            inquiry,
            bucket.as_str(),
            key.as_str(),
        ),
        JetStreamPath::AgentRecord { .. } | JetStreamPath::SemanticRecord { .. } => {
            match MaterializedTarget::from_path(parsed) {
                Some(MaterializedTarget::Kv { bucket, key }) => kv_prefix_projection_kind(
                    inquiry,
                    bucket.as_str(),
                    key.as_str(),
                ),
                _ => Ok(EntryKind::File),
            }
        },
        JetStreamPath::Object { bucket, object } => {
            let kind = classify_object_dynamic_path(inquiry, bucket.as_str(), object.as_str())?;
            Ok(shown_kind(kind))
        },
        _ => Ok(EntryKind::File),
    }
}

/// What the queued writes say that a path is.
pub fn queued_path_kind(
    inquiry: &mut Inquiry,
    overlay: &QueuedOverlayProjection,
    path: &MountPath,
    parsed: &JetStreamPath,
) -> (result: Result<Option<DynamicPathKind>, Pause>)
    ensures
        (plain_outcome(result), final(inquiry)@) == queued_kind(
            old(inquiry)@,
            overlay@,
            parsed@,
            path@,
        ),
{
    if overlay.latest_delete_covers(path) {
        return Ok(
            Some(
                if queued_exact_delete_reveals_synthetic_directory(inquiry, overlay, path, parsed)? {
                    DynamicPathKind::Directory
                } else {
                    DynamicPathKind::Missing
                },
            ),
        );
    }
    if overlay.whole_value_snapshot(path).is_some() || overlay.has_jsonl_entry(path) {
        return Ok(Some(DynamicPathKind::File));
    }
    let queued = overlay.directory_entries(path);
    assert(listing(queued@).len() == queued@.len());
    if queued.len() > 0 {
        return Ok(Some(DynamicPathKind::Directory));
    }
    if queued_deleted_descendant_empties_synthetic_directory(inquiry, overlay, path, parsed)? {
        return Ok(Some(DynamicPathKind::Missing));
    }
    Ok(None)
}

/// The kind of an inode as the kind of an entry.
pub fn projection_kind_from_file_type(kind: FileType) -> (entry: EntryKind)
    ensures
        entry == entry_kind(kind),
{
    match kind {
        FileType::Directory => EntryKind::Directory,
        FileType::RegularFile => EntryKind::File,
    }
}

/// What a path is, and whether it is fresh again.
pub fn kind_for_parsed(
    inquiry: &mut Inquiry,
    overlay: &QueuedOverlayProjection,
    stale: &PathSet,
    paths: &PathCache,
    path: &MountPath,
    parsed: &JetStreamPath,
) -> (outcome: (Result<EntryKind, Pause>, bool))
    ensures
        ((plain_outcome(outcome.0), final(inquiry)@), outcome.1) == kind_of(
            old(inquiry)@,
            overlay@,
            stale@.contains(path@),
            row_at(paths@.rows, path@),
            parsed@,
            path@,
        ),
{
    match queued_path_kind(inquiry, overlay, path, parsed) {
        Err(pause) => {
            return (Err(pause), false);
        },
        Ok(Some(DynamicPathKind::Directory)) => {
            return (Ok(EntryKind::Directory), true);
        },
        Ok(Some(DynamicPathKind::File)) => {
            return (Ok(EntryKind::File), true);
        },
        Ok(Some(DynamicPathKind::Missing)) => {
            return (Err(Pause::Fail(errno::enoent())), true);
        },
        Ok(None) => {},
    }
    if !stale.contains(path) {
        if let Some((_, kind)) = paths.entry(path) {
            return (Ok(projection_kind_from_file_type(kind)), false);
        }
    }
    match cached_snapshot(inquiry, path) {
        Err(pause) => (Err(pause), false),
        Ok(Some(_)) => (Ok(EntryKind::File), true),
        Ok(None) => (stored_path_kind(inquiry, parsed), false),
    }
}

fn measure(snapshot: &FileSnapshot) -> (file: FileMetadata)
    ensures
        file == measured(snapshot@),
{
    FileMetadata { size: snapshot.bytes.len() as u64, version: snapshot.version }
}

/// Size and version of a file.
pub fn attr_metadata(
    inquiry: &mut Inquiry,
    view: &MountView,
    path: &MountPath,
    parsed: &JetStreamPath,
) -> (result: Result<FileMetadata, Pause>)
    ensures
        (plain_outcome(result), final(inquiry)@) == file_metadata(
            old(inquiry)@,
            view.overlay@,
            view.status,
            view.mounted_at,
            parsed@,
            path@,
        ),
{
    if view.overlay.latest_delete_covers(path) {
        return Err(Pause::Fail(errno::enoent()));
    }
    if let Some(snapshot) = view.overlay.whole_value_snapshot(path) {
        return Ok(measure(&snapshot));
    }
    if let Some(snapshot) = queued_jsonl_snapshot(
        inquiry,
        &view.overlay,
        path,
        parsed,
        view.mounted_at,
    )? {
        return Ok(measure(&snapshot));
    }
    if let Some(snapshot) = cached_snapshot(inquiry, path)? {
        return Ok(measure(&snapshot));
    }
    if let JetStreamPath::Object { bucket, object } = parsed {
        return match object_metadata(inquiry, bucket.as_str(), object.as_str())? {
            Some(info) => Ok(
                FileMetadata { size: info.size, version: VersionStamp::at(info.modified) },
            ),
            None => Err(Pause::Fail(errno::enoent())),
        };
    }
    let snapshot = read_snapshot(inquiry, view, path, parsed)?;
    Ok(measure(&snapshot))
}

/// The attributes of a path. A path whose kind was told anew is no longer stale; while
/// a question is open nothing changes.
pub fn attr(
    inquiry: &mut Inquiry,
    view: &MountView,
    stale: &mut PathSet,
    paths: &PathCache,
    path: &MountPath,
) -> (result: Result<RuntimeAttr, Pause>)
    ensures
        ({
            let (step, fresh) = attr_of(
                old(inquiry)@,
                view.overlay@,
                view.status,
                view.mounted_at,
                old(stale)@,
                paths@.rows,
                path@,
            );
            &&& (plain_outcome(result), final(inquiry)@) == step
            &&& final(stale)@ == refreshed(old(stale)@, path@, fresh && settled(step.0))
        }),
{
    apply_pending_watch_events(inquiry)?;
    let parsed = match JetStreamPath::parse(path.as_str()) {
        Ok(parsed) => parsed,
        Err(error) => {
            return Err(Pause::Fail(error.errno().get()));
        },
    };
    let (kind, fresh) = kind_for_parsed(inquiry, &view.overlay, stale, paths, path, &parsed);
    let result = match kind {
        Err(pause) => Err(pause),
        Ok(EntryKind::Directory) => Ok(
            RuntimeAttr {
                kind: EntryKind::Directory,
                size: 0,
                version: match view.overlay.overlay_version(path) {
                    Some(version) => version,
                    None => VersionStamp::at(view.mounted_at),
                },
            },
        ),
        Ok(EntryKind::File) => match attr_metadata(inquiry, view, path, &parsed) {
            Ok(file) => Ok(
                RuntimeAttr { kind: EntryKind::File, size: file.size, version: file.version },
            ),
            Err(pause) => Err(pause),
        },
    };
    let open = match &result {
        Err(Pause::Ask(_)) => true,
        _ => false,
    };
    if fresh && !open {
        stale.remove(path);
    }
    result
}

/// How the file at a mount path is written.
pub fn write_mode(path: &MountPath) -> (result: Result<HandleMode, i32>)
    ensures
        result == mode_of(path@),
{
    let parsed = match JetStreamPath::parse(path.as_str()) {
        Ok(parsed) => parsed,
        Err(error) => {
            return Err(error.errno().get());
        },
    };
    match plan_operation(FileIntent::Write, &parsed) {
        Ok(action) => Ok(
            if action_publishes_jsonl(&action) {
                HandleMode::JsonLines
            } else {
                HandleMode::WholeValue
            },
        ),
        Err(error) => Err(error.errno().get()),
    }
}

fn create_target_kind(
    inquiry: &mut Inquiry,
    overlay: &QueuedOverlayProjection,
    path: &MountPath,
    parsed: &JetStreamPath,
    action: &JetStreamAction,
) -> (result: Result<DynamicPathKind, Pause>)
    ensures
        (plain_outcome(result), final(inquiry)@) == creation_kind(
            old(inquiry)@,
            overlay@,
            parsed@,
            action@,
            path@,
        ),
{
    if let Some(kind) = queued_path_kind(inquiry, overlay, path, parsed)? {
        return Ok(kind);
    }
    match action {
        JetStreamAction::KvPut { bucket, key } => classify_kv_dynamic_path(
            inquiry,
            bucket.as_str(),
            key.as_str(),
        ),
        JetStreamAction::ObjectPut { bucket, object } => classify_object_dynamic_path(
            inquiry,
            bucket.as_str(),
            object.as_str(),
        ),
        JetStreamAction::MaterializedPut { target: MaterializedTarget::Kv { bucket, key } } => {
            match classify_kv_dynamic_path(inquiry, bucket.as_str(), key.as_str()) {
                Err(Pause::Fail(number)) => if number == errno::enoent() {
                    Ok(DynamicPathKind::Missing)
                } else {
                    Err(Pause::Fail(number))
                },
                other => other,
            }
        },
        _ => Ok(DynamicPathKind::Missing),
    }
}

fn create_default_payload(action: &JetStreamAction) -> (payload: Vec<u8>)
    ensures
        payload@ == default_payload(action@),
{
    match action {
        JetStreamAction::MaterializedPut { target: MaterializedTarget::Kv { .. } } => {
            let payload: Vec<u8> = vec![110u8, 117u8, 108u8, 108u8];
            assert(payload@ =~= seq![110u8, 117u8, 108u8, 108u8]);
            payload
        },
        _ => Vec::new(),
    }
}

/// What a file that is to be created holds at first.
pub fn create_target(
    inquiry: &mut Inquiry,
    overlay: &QueuedOverlayProjection,
    path: &MountPath,
) -> (result: Result<MountProjectionMutation, Pause>)
    ensures
        (step_outcome(result), final(inquiry)@) == creation(
            old(inquiry)@,
            overlay@,
            path@,
        ),
{
    apply_pending_watch_events(inquiry)?;
    let parsed = match JetStreamPath::parse(path.as_str()) {
        Ok(parsed) => parsed,
        Err(error) => {
            return Err(Pause::Fail(error.errno().get()));
        },
    };
    let action = match plan_operation(FileIntent::Create, &parsed) {
        Ok(action) => action,
        Err(error) => {
            return Err(Pause::Fail(error.errno().get()));
        },
    };
    if action_publishes_jsonl(&action) {
        return Err(Pause::Fail(errno::enotsup()));
    }
    match create_target_kind(inquiry, overlay, path, &parsed, &action)? {
        DynamicPathKind::Missing => Ok(
            MountProjectionMutation::CreateFile { default_payload: create_default_payload(&action) },
        ),
        DynamicPathKind::File => Err(Pause::Fail(errno::eexist())),
        DynamicPathKind::Directory => Err(Pause::Fail(errno::eisdir())),
    }
}

} // verus!
