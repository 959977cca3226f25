//! What an operation on a path asks of the storage.

use vstd::prelude::*;

use crate::errno;
use crate::errors::{outcome, Errno, EventFsError};
use crate::path::{
    AgentArea, JetStreamPath, MetadataFile, SemanticArea, StreamSubject, ROOT_DIRECTORIES,
};
use crate::subjects::{MaterializedTarget, AGENTS_BUCKET, SEMANTIC_BUCKET, TASKS_BUCKET};
use crate::text::{concat3, same_text, Text};

verus! {

/// What is to be done with a path.
#[derive(Clone, Debug, PartialEq, Eq)]
pub enum FileIntent<S = String> {
    GetAttr,
    ReadDir,
    Read,
    Write,
    Create,
    Mkdir,
    Unlink,
    Rename { to: JetStreamPath<S> },
}

impl View for FileIntent<String> {
    type V = FileIntent<Text>;

    open spec fn view(&self) -> FileIntent<Text> {
        match *self {
            FileIntent::GetAttr => FileIntent::GetAttr,
            FileIntent::ReadDir => FileIntent::ReadDir,
            FileIntent::Read => FileIntent::Read,
            FileIntent::Write => FileIntent::Write,
            FileIntent::Create => FileIntent::Create,
            FileIntent::Mkdir => FileIntent::Mkdir,
            FileIntent::Unlink => FileIntent::Unlink,
            FileIntent::Rename { to } => FileIntent::Rename { to: to@ },
        }
    }
}

/// What the storage is asked to do. `S` is `String` and `E` a vector of entries in
/// executable code; [`Action`] is the model.
#[derive(Clone, Debug, PartialEq, Eq)]
pub enum JetStreamAction<S = String, E = Vec<StaticDirectoryEntry<S>>> {
    StaticDirectory { entries: E },
    MetadataRead { file: MetadataFile },
    ListKvBuckets,
    EnsureKvBucket { bucket: S },
    EnsureKvDirectory { bucket: S, prefix: S },
    ListKvPrefix { bucket: S, prefix: S },
    KvGet { bucket: S, key: S },
    KvPut { bucket: S, key: S },
    KvDelete { bucket: S, key: S },
    KvHistory { bucket: S, key: S },
    ListKvHistoryPrefix { bucket: S, prefix: S },
    KvRevision { bucket: S, key: S, revision: u64 },
    ListStreams,
    ListEventLogs,
    ListAgents,
    EnsureStream { stream: S },
    ListStreamMessages { stream: S },
    ListStreamSubjects { stream: S },
    StreamMessage { stream: S, sequence: u64 },
    PublishJsonLines { stream: S, subject: S },
    ListObjectBuckets,
    EnsureObjectBucket { bucket: S },
    EnsureObjectDirectory { bucket: S, prefix: S },
    ListObjectPrefix { bucket: S, prefix: S },
    ObjectGet { bucket: S, object: S },
    ObjectPut { bucket: S, object: S },
    ObjectDelete { bucket: S, object: S },
    MaterializedGet { target: MaterializedTarget<S> },
    MaterializedPut { target: MaterializedTarget<S> },
    MaterializedDelete { target: MaterializedTarget<S> },
    Rename { plan: RenamePlan<S> },
    NoopDirectory,
}

impl View for JetStreamAction<String> {
    type V = Action;

    open spec fn view(&self) -> Action {
        match *self {
            JetStreamAction::StaticDirectory { entries } => JetStreamAction::StaticDirectory {
                entries: entry_models(entries@),
            },
            JetStreamAction::MetadataRead { file } => JetStreamAction::MetadataRead { file },
            JetStreamAction::ListKvBuckets => JetStreamAction::ListKvBuckets,
            JetStreamAction::EnsureKvBucket { bucket } => JetStreamAction::EnsureKvBucket {
                bucket: bucket@,
            },
            JetStreamAction::EnsureKvDirectory {
                bucket,
                prefix,
            } => JetStreamAction::EnsureKvDirectory {
                bucket: bucket@,
                prefix: prefix@,
            },
            JetStreamAction::ListKvPrefix { bucket, prefix } => JetStreamAction::ListKvPrefix {
                bucket: bucket@,
                prefix: prefix@,
            },
            JetStreamAction::KvGet { bucket, key } => JetStreamAction::KvGet {
                bucket: bucket@,
                key: key@,
            },
            JetStreamAction::KvPut { bucket, key } => JetStreamAction::KvPut {
                bucket: bucket@,
                key: key@,
            },
            JetStreamAction::KvDelete { bucket, key } => JetStreamAction::KvDelete {
                bucket: bucket@,
                key: key@,
            },
            JetStreamAction::KvHistory { bucket, key } => JetStreamAction::KvHistory {
                bucket: bucket@,
                key: key@,
            },
            JetStreamAction::ListKvHistoryPrefix {
                bucket,
                prefix,
            } => JetStreamAction::ListKvHistoryPrefix {
                bucket: bucket@,
                prefix: prefix@,
            },
            JetStreamAction::KvRevision { bucket, key, revision } => JetStreamAction::KvRevision {
                bucket: bucket@,
                key: key@,
                revision,
            },
            JetStreamAction::ListStreams => JetStreamAction::ListStreams,
            JetStreamAction::ListEventLogs => JetStreamAction::ListEventLogs,
            JetStreamAction::ListAgents => JetStreamAction::ListAgents,
            JetStreamAction::EnsureStream { stream } => JetStreamAction::EnsureStream {
                stream: stream@,
            },
            JetStreamAction::ListStreamMessages { stream } => JetStreamAction::ListStreamMessages {
                stream: stream@,
            },
            JetStreamAction::ListStreamSubjects { stream } => JetStreamAction::ListStreamSubjects {
                stream: stream@,
            },
            JetStreamAction::StreamMessage { stream, sequence } => JetStreamAction::StreamMessage {
                stream: stream@,
                sequence,
            },
            JetStreamAction::PublishJsonLines {
                stream,
                subject,
            } => JetStreamAction::PublishJsonLines {
                stream: stream@,
                subject: subject@,
            },
            JetStreamAction::ListObjectBuckets => JetStreamAction::ListObjectBuckets,
            JetStreamAction::EnsureObjectBucket { bucket } => JetStreamAction::EnsureObjectBucket {
                bucket: bucket@,
            },
            JetStreamAction::EnsureObjectDirectory {
                bucket,
                prefix,
            } => JetStreamAction::EnsureObjectDirectory {
                bucket: bucket@,
                prefix: prefix@,
            },
            JetStreamAction::ListObjectPrefix {
                bucket,
                prefix,
            } => JetStreamAction::ListObjectPrefix {
                bucket: bucket@,
                prefix: prefix@,
            },
            JetStreamAction::ObjectGet { bucket, object } => JetStreamAction::ObjectGet {
                bucket: bucket@,
                object: object@,
            },
            JetStreamAction::ObjectPut { bucket, object } => JetStreamAction::ObjectPut {
                bucket: bucket@,
                object: object@,
            },
            JetStreamAction::ObjectDelete { bucket, object } => JetStreamAction::ObjectDelete {
                bucket: bucket@,
                object: object@,
            },
            JetStreamAction::MaterializedGet { target } => JetStreamAction::MaterializedGet {
                target: target@,
            },
            JetStreamAction::MaterializedPut { target } => JetStreamAction::MaterializedPut {
                target: target@,
            },
            JetStreamAction::MaterializedDelete { target } => JetStreamAction::MaterializedDelete {
                target: target@,
            },
            JetStreamAction::Rename { plan } => JetStreamAction::Rename { plan: plan@ },
            JetStreamAction::NoopDirectory => JetStreamAction::NoopDirectory,
        }
    }
}

/// A move within one bucket.
#[derive(Clone, Debug, PartialEq, Eq)]
pub enum RenamePlan<S = String> {
    Kv { from_bucket: S, from_key: S, to_bucket: S, to_key: S },
    Object { from_bucket: S, from_object: S, to_bucket: S, to_object: S },
}

impl View for RenamePlan<String> {
    type V = RenamePlan<Text>;

    open spec fn view(&self) -> RenamePlan<Text> {
        match *self {
            RenamePlan::Kv { from_bucket, from_key, to_bucket, to_key } => RenamePlan::Kv {
                from_bucket: from_bucket@,
                from_key: from_key@,
                to_bucket: to_bucket@,
                to_key: to_key@,
            },
            RenamePlan::Object {
                from_bucket,
                from_object,
                to_bucket,
                to_object,
            } => RenamePlan::Object {
                from_bucket: from_bucket@,
                from_object: from_object@,
                to_bucket: to_bucket@,
                to_object: to_object@,
            },
        }
    }
}

/// The model of an action.
pub type Action = JetStreamAction<Text, Seq<StaticDirectoryEntry<Text>>>;

/// What a plan comes to: the action, or the refusal.
pub type Planned = Result<Action, EventFsError<Text>>;

/// The places between which files can be moved.
#[derive(Clone, Copy, Debug, PartialEq, Eq, Structural)]
pub enum RenameSurface {
    Kv,
    Object,
    Tasks,
    Agent { area: AgentArea },
    Semantic { area: SemanticArea },
}

/// Whether an entry of a directory is itself a directory.
#[derive(Clone, Copy, Debug, PartialEq, Eq, Structural)]
pub enum StaticEntryKind {
    Directory,
    File,
}

/// An entry of a directory that is the same in every mount.
#[derive(Clone, Debug, PartialEq, Eq)]
pub struct StaticDirectoryEntry<S = String> {
    pub name: S,
    pub kind: StaticEntryKind,
}

impl View for StaticDirectoryEntry<String> {
    type V = StaticDirectoryEntry<Text>;

    open spec fn view(&self) -> StaticDirectoryEntry<Text> {
        StaticDirectoryEntry { name: self.name@, kind: self.kind }
    }
}

/// The models of the entries of a directory.
pub open spec fn entry_models(entries: Seq<StaticDirectoryEntry>) -> Seq<
    StaticDirectoryEntry<Text>,
> {
    entries.map_values(|entry: StaticDirectoryEntry| entry@)
}

impl StaticDirectoryEntry {
    /// An entry that is a directory.
    pub fn directory(name: &str) -> (entry: Self)
        ensures
            entry@ == (StaticDirectoryEntry { name: name@, kind: StaticEntryKind::Directory }),
    {
        StaticDirectoryEntry { name: name.to_owned(), kind: StaticEntryKind::Directory }
    }

    /// An entry that is a file.
    pub fn file(name: &str) -> (entry: Self)
        ensures
            entry@ == (StaticDirectoryEntry { name: name@, kind: StaticEntryKind::File }),
    {
        StaticDirectoryEntry { name: name.to_owned(), kind: StaticEntryKind::File }
    }
}

// ---------------------------------------------------------------------------
// What each operation asks for
// ---------------------------------------------------------------------------

/// The directories of the given names.
pub open spec fn directories(names: Seq<Text>) -> Seq<StaticDirectoryEntry<Text>> {
    names.map_values(
        |name: Text| StaticDirectoryEntry { name, kind: StaticEntryKind::Directory },
    )
}

/// The files of the given names.
pub open spec fn files(names: Seq<Text>) -> Seq<StaticDirectoryEntry<Text>> {
    names.map_values(|name: Text| StaticDirectoryEntry { name, kind: StaticEntryKind::File })
}

/// What `getattr` asks for.
pub open spec fn getattr_plan(path: JetStreamPath<Text>) -> Planned {
    if path.directory() {
        Ok(JetStreamAction::NoopDirectory)
    } else {
        read_plan(path)
    }
}

/// What `readdir` asks for.
pub open spec fn readdir_plan(path: JetStreamPath<Text>) -> Planned {
    match path {
        JetStreamPath::Root => Ok(
            JetStreamAction::StaticDirectory {
                entries: directories(
                    ROOT_DIRECTORIES@.map_values(|name: &'static str| name@),
                ),
            },
        ),
        JetStreamPath::KvRoot => Ok(JetStreamAction::ListKvBuckets),
        JetStreamPath::KvBucket { bucket } => Ok(
            JetStreamAction::ListKvPrefix { bucket, prefix: Seq::empty() },
        ),
        JetStreamPath::KvKey { bucket, key } => Ok(
            JetStreamAction::ListKvPrefix { bucket, prefix: key },
        ),
        JetStreamPath::KvHistoryRoot { bucket } => Ok(
            JetStreamAction::ListKvHistoryPrefix { bucket, prefix: Seq::empty() },
        ),
        JetStreamPath::KvHistoryKey { bucket, key } => Ok(JetStreamAction::KvHistory { bucket, key }),
        JetStreamPath::StreamsRoot => Ok(JetStreamAction::ListStreams),
        JetStreamPath::StreamRoot { .. } => Ok(
            JetStreamAction::StaticDirectory {
                entries: directories(seq!["messages"@, "subjects"@]),
            },
        ),
        JetStreamPath::StreamMessages { stream } => Ok(
            JetStreamAction::ListStreamMessages { stream },
        ),
        JetStreamPath::StreamSubjects { stream } => Ok(
            JetStreamAction::ListStreamSubjects { stream },
        ),
        JetStreamPath::ObjectsRoot => Ok(JetStreamAction::ListObjectBuckets),
        JetStreamPath::ObjectBucket { bucket } => Ok(
            JetStreamAction::ListObjectPrefix { bucket, prefix: Seq::empty() },
        ),
        JetStreamPath::Object { bucket, object } => Ok(
            JetStreamAction::ListObjectPrefix { bucket, prefix: object },
        ),
        JetStreamPath::EventsRoot => Ok(JetStreamAction::ListEventLogs),
        JetStreamPath::TasksRoot => Ok(
            JetStreamAction::ListKvPrefix { bucket: TASKS_BUCKET@, prefix: Seq::empty() },
        ),
        JetStreamPath::TaskNamespace { namespace } => Ok(
            JetStreamAction::ListKvPrefix { bucket: TASKS_BUCKET@, prefix: namespace },
        ),
        JetStreamPath::AgentsRoot => Ok(JetStreamAction::ListAgents),
        JetStreamPath::AgentRoot { .. } => Ok(
            JetStreamAction::StaticDirectory {
                entries: files(seq!["inbox"@, "outbox"@]) + directories(seq!["tasks"@, "memory"@]),
            },
        ),
        JetStreamPath::AgentDirectory { agent, area } => Ok(
            JetStreamAction::ListKvPrefix {
                bucket: AGENTS_BUCKET@,
                prefix: agent + "/"@ + area.name(),
            },
        ),
        JetStreamPath::SemanticRoot => Ok(
            JetStreamAction::StaticDirectory {
                entries: directories(
                    seq![
                        "summaries"@,
                        "tags"@,
                        "relations"@,
                        "timelines"@,
                        "embeddings"@,
                    ],
                ),
            },
        ),
        JetStreamPath::SemanticArea { area } => Ok(
            JetStreamAction::ListKvPrefix { bucket: SEMANTIC_BUCKET@, prefix: area.name() },
        ),
        JetStreamPath::AgentRecord { agent, area, path } => Ok(
            JetStreamAction::ListKvPrefix {
                bucket: AGENTS_BUCKET@,
                prefix: agent + "/"@ + area.name() + "/"@ + path,
            },
        ),
        JetStreamPath::SemanticRecord { area, path } => Ok(
            JetStreamAction::ListKvPrefix {
                bucket: SEMANTIC_BUCKET@,
                prefix: area.name() + "/"@ + path,
            },
        ),
        JetStreamPath::MetadataRoot => Ok(
            JetStreamAction::StaticDirectory {
                entries: files(
                    seq![
                        MetadataFile::Status.name(),
                        MetadataFile::Cache.name(),
                        MetadataFile::Queue.name(),
                        MetadataFile::Capabilities.name(),
                        MetadataFile::Errors.name(),
                    ],
                ),
            },
        ),
        _ => Err(EventFsError::no_support("readdir", path.description())),
    }
}

/// What `read` asks for.
pub open spec fn read_plan(path: JetStreamPath<Text>) -> Planned {
    match path {
        JetStreamPath::KvKey { bucket, key } => Ok(JetStreamAction::KvGet { bucket, key }),
        JetStreamPath::KvRevision { bucket, key, revision } => Ok(
            JetStreamAction::KvRevision { bucket, key, revision },
        ),
        JetStreamPath::StreamMessage { stream, sequence } => Ok(
            JetStreamAction::StreamMessage { stream, sequence },
        ),
        JetStreamPath::StreamSubject { stream, subject } => Ok(
            JetStreamAction::PublishJsonLines { stream, subject: subject.0 },
        ),
        JetStreamPath::Object { bucket, object } => Ok(JetStreamAction::ObjectGet { bucket, object }),
        JetStreamPath::MetadataFile(file) => Ok(JetStreamAction::MetadataRead { file }),
        _ => match MaterializedTarget::of(path) {
            Some(target) => Ok(JetStreamAction::MaterializedGet { target }),
            None => Err(EventFsError::no_support("read", path.description())),
        },
    }
}

/// What `write` and `create` ask for.
pub open spec fn write_plan(path: JetStreamPath<Text>) -> Planned {
    match path {
        JetStreamPath::KvKey { bucket, key } => Ok(JetStreamAction::KvPut { bucket, key }),
        JetStreamPath::StreamSubject { stream, subject } => Ok(
            JetStreamAction::PublishJsonLines { stream, subject: subject.0 },
        ),
        JetStreamPath::EventLog { .. } | JetStreamPath::AgentMailbox {
            ..
        } => match MaterializedTarget::of(path) {
            Some(MaterializedTarget::Stream { stream, subject }) => Ok(
                JetStreamAction::PublishJsonLines { stream, subject },
            ),
            _ => Err(EventFsError::no_support("write", path.description())),
        },
        JetStreamPath::Object { bucket, object } => Ok(JetStreamAction::ObjectPut { bucket, object }),
        JetStreamPath::Task { .. } | JetStreamPath::AgentRecord {
            area: AgentArea::Tasks | AgentArea::Memory,
            ..
        } | JetStreamPath::SemanticRecord { .. } => match MaterializedTarget::of(path) {
            Some(target) => Ok(JetStreamAction::MaterializedPut { target }),
            None => Err(EventFsError::no_support("write", path.description())),
        },
        JetStreamPath::KvRevision { .. } | JetStreamPath::StreamMessage { .. } => Err(
            EventFsError::immutable(path.description()),
        ),
        _ => if path.directory() {
            Err(
                EventFsError::Unsupported {
                    operation: "write",
                    path: path.description(),
                    errno: Errno(errno::EISDIR),
                },
            )
        } else {
            Err(EventFsError::no_support("write", path.description()))
        },
    }
}

/// What `mkdir` asks for.
pub open spec fn mkdir_plan(path: JetStreamPath<Text>) -> Planned {
    match path {
        JetStreamPath::KvBucket { bucket } => Ok(JetStreamAction::EnsureKvBucket { bucket }),
        JetStreamPath::StreamRoot { stream } => Ok(JetStreamAction::EnsureStream { stream }),
        JetStreamPath::StreamMessages { .. } | JetStreamPath::StreamSubjects { .. } => Ok(
            JetStreamAction::NoopDirectory,
        ),
        JetStreamPath::ObjectBucket { bucket } => Ok(JetStreamAction::EnsureObjectBucket { bucket }),
        JetStreamPath::TaskNamespace { .. } | JetStreamPath::AgentRoot {
            ..
        } | JetStreamPath::AgentDirectory { .. } | JetStreamPath::SemanticArea { .. } => Ok(
            JetStreamAction::NoopDirectory,
        ),
        JetStreamPath::KvKey { bucket, key } => Ok(
            JetStreamAction::EnsureKvDirectory { bucket, prefix: key },
        ),
        JetStreamPath::Object { bucket, object } => Ok(
            JetStreamAction::EnsureObjectDirectory { bucket, prefix: object },
        ),
        _ => Err(EventFsError::no_support("mkdir", path.description())),
    }
}

/// What `unlink` asks for.
pub open spec fn unlink_plan(path: JetStreamPath<Text>) -> Planned {
    match path {
        JetStreamPath::KvKey { bucket, key } => Ok(JetStreamAction::KvDelete { bucket, key }),
        JetStreamPath::Object { bucket, object } => Ok(
            JetStreamAction::ObjectDelete { bucket, object },
        ),
        JetStreamPath::Task { .. } | JetStreamPath::AgentRecord {
            ..
        } | JetStreamPath::SemanticRecord { .. } => match MaterializedTarget::of(path) {
            Some(target) => Ok(JetStreamAction::MaterializedDelete { target }),
            None => Err(EventFsError::no_support("unlink", path.description())),
        },
        JetStreamPath::KvRevision { .. } | JetStreamPath::StreamMessage { .. } => Err(
            EventFsError::immutable(path.description()),
        ),
        _ => Err(EventFsError::no_support("unlink", path.description())),
    }
}

/// Where a path can be moved from and to.
pub open spec fn surface_of(path: JetStreamPath<Text>) -> Option<RenameSurface> {
    match path {
        JetStreamPath::KvKey { .. } => Some(RenameSurface::Kv),
        JetStreamPath::Object { .. } => Some(RenameSurface::Object),
        JetStreamPath::Task { .. } => Some(RenameSurface::Tasks),
        JetStreamPath::AgentRecord { area, .. } => Some(RenameSurface::Agent { area }),
        JetStreamPath::SemanticRecord { area, .. } => Some(RenameSurface::Semantic { area }),
        _ => None,
    }
}

/// The refusal of a move between places.
pub open spec fn crossing(path: JetStreamPath<Text>) -> EventFsError<Text> {
    EventFsError::Unsupported {
        operation: "rename",
        path: path.description(),
        errno: Errno(errno::EXDEV),
    }
}

/// The move between two paths that stand for keys or objects of one bucket.
pub open spec fn move_of(from: JetStreamPath<Text>, to: JetStreamPath<Text>) -> Option<
    RenamePlan<Text>,
> {
    match (from, to) {
        (
            JetStreamPath::KvKey { bucket: from_bucket, key: from_key },
            JetStreamPath::KvKey { bucket: to_bucket, key: to_key },
        ) => if from_bucket == to_bucket {
            Some(RenamePlan::Kv { from_bucket, from_key, to_bucket, to_key })
        } else {
            None
        },
        (
            JetStreamPath::Object { bucket: from_bucket, object: from_object },
            JetStreamPath::Object { bucket: to_bucket, object: to_object },
        ) => if from_bucket == to_bucket {
            Some(RenamePlan::Object { from_bucket, from_object, to_bucket, to_object })
        } else {
            None
        },
        _ => match (MaterializedTarget::of(from), MaterializedTarget::of(to)) {
            (
                Some(MaterializedTarget::Kv { bucket: from_bucket, key: from_key }),
                Some(MaterializedTarget::Kv { bucket: to_bucket, key: to_key }),
            ) => if from_bucket == to_bucket {
                Some(RenamePlan::Kv { from_bucket, from_key, to_bucket, to_key })
            } else {
                None
            },
            _ => None,
        },
    }
}

/// What `rename` asks for: a move within one place and one bucket.
pub open spec fn rename_plan(from: JetStreamPath<Text>, to: JetStreamPath<Text>) -> Planned {
    if surface_of(from) is Some && surface_of(from) == surface_of(to) && move_of(from, to) is Some {
        Ok(JetStreamAction::Rename { plan: move_of(from, to).unwrap() })
    } else {
        Err(crossing(from))
    }
}

/// What an operation on a path asks of the storage, or why it is refused.
pub open spec fn planned(intent: FileIntent<Text>, path: JetStreamPath<Text>) -> Planned {
    match intent {
        FileIntent::GetAttr => getattr_plan(path),
        FileIntent::ReadDir => readdir_plan(path),
        FileIntent::Read => read_plan(path),
        FileIntent::Write | FileIntent::Create => write_plan(path),
        FileIntent::Mkdir => mkdir_plan(path),
        FileIntent::Unlink => unlink_plan(path),
        FileIntent::Rename { to } => rename_plan(path, to),
    }
}

// ---------------------------------------------------------------------------
// Laws
// ---------------------------------------------------------------------------

/// A revision of a key and a message of a stream never change: writing, creating and
/// removing them is refused as a change of a read-only file.
pub proof fn law_immutable_projections_are_read_only(path: JetStreamPath<Text>)
    requires
        path is KvRevision || path is StreamMessage,
    ensures
        planned(FileIntent::Write, path) matches Err(error) && error.number() == Errno(errno::EROFS),
        planned(FileIntent::Create, path) matches Err(error) && error.number() == Errno(
            errno::EROFS,
        ),
        planned(FileIntent::Unlink, path) matches Err(error) && error.number() == Errno(
            errno::EROFS,
        ),
        planned(FileIntent::Read, path) is Ok,
{
}

/// Every directory of the mount can be listed, has the attributes of a directory, and
/// refuses to be written to because it is a directory.
pub proof fn law_directories_are_listed_not_written(path: JetStreamPath<Text>)
    requires
        path.directory(),
    ensures
        planned(FileIntent::ReadDir, path) is Ok,
        planned(FileIntent::GetAttr, path) == Ok::<Action, EventFsError<Text>>(
            JetStreamAction::NoopDirectory,
        ),
        planned(FileIntent::Write, path) matches Err(error) && error.number() == Errno(
            errno::EISDIR,
        ),
        planned(FileIntent::Read, path) is Err,
        planned(FileIntent::Unlink, path) is Err,
{
}

/// What can be written can be read, and never is a directory.
pub proof fn law_writable_is_readable(path: JetStreamPath<Text>)
    requires
        planned(FileIntent::Write, path) is Ok,
    ensures
        planned(FileIntent::Read, path) is Ok,
        planned(FileIntent::GetAttr, path) == planned(FileIntent::Read, path),
        !path.directory(),
{
}

/// Every path is a directory or can be read, and never both. All have attributes, and a
/// directory that can be made can be listed.
pub proof fn law_paths_are_directories_or_readable(path: JetStreamPath<Text>)
    requires
        path.valid(),
    ensures
        planned(FileIntent::Read, path) is Ok <==> !path.directory(),
        planned(FileIntent::GetAttr, path) is Ok,
        planned(FileIntent::Mkdir, path) is Ok ==> planned(FileIntent::ReadDir, path) is Ok,
{
}

/// What removes the whole of what an action writes: nothing where it adds lines to a
/// log, or writes nothing.
pub open spec fn removal_of(action: Action) -> Option<Action> {
    match action {
        JetStreamAction::KvPut { bucket, key } => Some(JetStreamAction::KvDelete { bucket, key }),
        JetStreamAction::ObjectPut { bucket, object } => Some(
            JetStreamAction::ObjectDelete { bucket, object },
        ),
        JetStreamAction::MaterializedPut { target } => Some(
            JetStreamAction::MaterializedDelete { target },
        ),
        _ => None,
    }
}

/// What can be written as a whole can be removed, and nothing else can: a log takes
/// lines but is never removed. The removal names the very bucket and key, object or
/// target that the write names.
pub proof fn law_whole_files_are_removed_logs_are_not(path: JetStreamPath<Text>)
    requires
        path.valid(),
    ensures
        planned(FileIntent::Unlink, path) is Ok <==> (planned(FileIntent::Write, path) matches Ok(
            writing,
        ) && !(writing is PublishJsonLines)),
        planned(FileIntent::Unlink, path) matches Ok(removing) ==> (planned(
            FileIntent::Write,
            path,
        ) matches Ok(writing) && removal_of(writing) == Some(removing)),
{
}

/// The bucket and the name in it of what a path that can be moved stands for.
pub open spec fn bucket_and_name(path: JetStreamPath<Text>) -> Option<(Text, Text)> {
    match path {
        JetStreamPath::KvKey { bucket, key } => Some((bucket, key)),
        JetStreamPath::Object { bucket, object } => Some((bucket, object)),
        _ => match MaterializedTarget::of(path) {
            Some(MaterializedTarget::Kv { bucket, key }) => Some((bucket, key)),
            _ => None,
        },
    }
}

/// A rename is planned exactly where both paths lie in one place and one bucket, and
/// the plan then moves what the first path stands for to what the second stands for.
/// Every other rename is refused as one across devices. The files of one materialized
/// place all lie in one bucket.
pub proof fn law_rename_stays_within_bucket_and_surface(
    from: JetStreamPath<Text>,
    to: JetStreamPath<Text>,
)
    ensures
        ({
            let plan = planned(FileIntent::Rename { to }, from);
            match (bucket_and_name(from), bucket_and_name(to)) {
                (Some((from_bucket, from_name)), Some((to_bucket, to_name))) => {
                    if surface_of(from) is Some && surface_of(from) == surface_of(to) && from_bucket
                        == to_bucket {
                        let moving = if from is Object {
                            RenamePlan::Object {
                                from_bucket,
                                from_object: from_name,
                                to_bucket,
                                to_object: to_name,
                            }
                        } else {
                            RenamePlan::Kv {
                                from_bucket,
                                from_key: from_name,
                                to_bucket,
                                to_key: to_name,
                            }
                        };
                        plan == Ok::<Action, EventFsError<Text>>(
                            JetStreamAction::Rename { plan: moving },
                        )
                    } else {
                        plan == Err::<Action, EventFsError<Text>>(crossing(from))
                    }
                },
                _ => plan == Err::<Action, EventFsError<Text>>(crossing(from)),
            }
        }),
        crossing(from).number() == Errno(errno::EXDEV),
        surface_of(from) is Some ==> bucket_and_name(from) is Some,
        surface_of(from) is Some && surface_of(from) == surface_of(to) && !(from is KvKey)
            && !(from is Object) ==> bucket_and_name(from).unwrap().0 == bucket_and_name(
            to,
        ).unwrap().0,
{
}

/// The move back.
pub open spec fn move_back(plan: RenamePlan<Text>) -> RenamePlan<Text> {
    match plan {
        RenamePlan::Kv { from_bucket, from_key, to_bucket, to_key } => RenamePlan::Kv {
            from_bucket: to_bucket,
            from_key: to_key,
            to_bucket: from_bucket,
            to_key: from_key,
        },
        RenamePlan::Object { from_bucket, from_object, to_bucket, to_object } => RenamePlan::Object {
            from_bucket: to_bucket,
            from_object: to_object,
            to_bucket: from_bucket,
            to_object: from_object,
        },
    }
}

/// What can be moved can be moved back.
pub proof fn law_renames_can_be_undone(from: JetStreamPath<Text>, to: JetStreamPath<Text>)
    ensures
        planned(FileIntent::Rename { to }, from) matches Ok(JetStreamAction::Rename { plan })
            ==> planned(FileIntent::Rename { to: from }, to) == Ok::<Action, EventFsError<Text>>(
            JetStreamAction::Rename { plan: move_back(plan) },
        ),
{
}

// ---------------------------------------------------------------------------
// Planning
// ---------------------------------------------------------------------------

/// What an operation on a path asks of the storage, or why it is refused.
pub fn plan_operation(intent: FileIntent, path: &JetStreamPath) -> (plan: Result<
    JetStreamAction,
    EventFsError,
>)
    ensures
        outcome(plan) == planned(intent@, path@),
{
    match intent {
        FileIntent::GetAttr => plan_getattr(path),
        FileIntent::ReadDir => plan_readdir(path),
        FileIntent::Read => plan_read(path),
        FileIntent::Write | FileIntent::Create => plan_write(path),
        FileIntent::Mkdir => plan_mkdir(path),
        FileIntent::Unlink => plan_unlink(path),
        FileIntent::Rename { to } => plan_rename(path, &to),
    }
}

/// What `getattr` asks for.
pub fn plan_getattr(path: &JetStreamPath) -> (plan: Result<JetStreamAction, EventFsError>)
    ensures
        outcome(plan) == getattr_plan(path@),
{
    if path.is_directory() {
        Ok(JetStreamAction::NoopDirectory)
    } else {
        plan_read(path)
    }
}

fn root_entries() -> (entries: Vec<StaticDirectoryEntry>)
    ensures
        entry_models(entries@) == directories(
            ROOT_DIRECTORIES@.map_values(|name: &'static str| name@),
        ),
{
    let names = ROOT_DIRECTORIES;
    let mut entries: Vec<StaticDirectoryEntry> = Vec::new();
    let mut i: usize = 0;
    while i < names.len()
        invariant
            i <= names.len(),
            names == ROOT_DIRECTORIES,
            entries.len() == i,
            forall|k: int|
                0 <= k < i ==> #[trigger] entries[k]@ == (StaticDirectoryEntry {
                    name: names@[k]@,
                    kind: StaticEntryKind::Directory,
                }),
        decreases names.len() - i,
    {
        entries.push(StaticDirectoryEntry::directory(names[i]));
        i += 1;
    }
    assert(entry_models(entries@) =~= directories(
        ROOT_DIRECTORIES@.map_values(|name: &'static str| name@),
    ));
    entries
}

fn stream_entries() -> (entries: Vec<StaticDirectoryEntry>)
    ensures
        entry_models(entries@) == directories(seq!["messages"@, "subjects"@]),
{
    let mut entries: Vec<StaticDirectoryEntry> = Vec::new();
    entries.push(StaticDirectoryEntry::directory("messages"));
    entries.push(StaticDirectoryEntry::directory("subjects"));
    assert(entry_models(entries@) =~= directories(seq!["messages"@, "subjects"@]));
    entries
}

fn agent_entries() -> (entries: Vec<StaticDirectoryEntry>)
    ensures
        entry_models(entries@) == files(seq!["inbox"@, "outbox"@]) + directories(
            seq!["tasks"@, "memory"@],
        ),
{
    let mut entries: Vec<StaticDirectoryEntry> = Vec::new();
    entries.push(StaticDirectoryEntry::file("inbox"));
    entries.push(StaticDirectoryEntry::file("outbox"));
    entries.push(StaticDirectoryEntry::directory("tasks"));
    entries.push(StaticDirectoryEntry::directory("memory"));
    assert(entry_models(entries@) =~= files(seq!["inbox"@, "outbox"@]) + directories(
        seq!["tasks"@, "memory"@],
    ));
    entries
}

fn semantic_entries() -> (entries: Vec<StaticDirectoryEntry>)
    ensures
        entry_models(entries@) == directories(
            seq!["summaries"@, "tags"@, "relations"@, "timelines"@, "embeddings"@],
        ),
{
    let mut entries: Vec<StaticDirectoryEntry> = Vec::new();
    entries.push(StaticDirectoryEntry::directory("summaries"));
    entries.push(StaticDirectoryEntry::directory("tags"));
    entries.push(StaticDirectoryEntry::directory("relations"));
    entries.push(StaticDirectoryEntry::directory("timelines"));
    entries.push(StaticDirectoryEntry::directory("embeddings"));
    assert(entry_models(entries@) =~= directories(
        seq!["summaries"@, "tags"@, "relations"@, "timelines"@, "embeddings"@],
    ));
    entries
}

fn metadata_entries() -> (entries: Vec<StaticDirectoryEntry>)
    ensures
        entry_models(entries@) == files(
            seq![
                MetadataFile::Status.name(),
                MetadataFile::Cache.name(),
                MetadataFile::Queue.name(),
                MetadataFile::Capabilities.name(),
                MetadataFile::Errors.name(),
            ],
        ),
{
    let mut entries: Vec<StaticDirectoryEntry> = Vec::new();
    entries.push(StaticDirectoryEntry::file(MetadataFile::Status.file_name()));
    entries.push(StaticDirectoryEntry::file(MetadataFile::Cache.file_name()));
    entries.push(StaticDirectoryEntry::file(MetadataFile::Queue.file_name()));
    entries.push(StaticDirectoryEntry::file(MetadataFile::Capabilities.file_name()));
    entries.push(StaticDirectoryEntry::file(MetadataFile::Errors.file_name()));
    assert(entry_models(entries@) =~= files(
        seq![
            MetadataFile::Status.name(),
            MetadataFile::Cache.name(),
            MetadataFile::Queue.name(),
            MetadataFile::Capabilities.name(),
            MetadataFile::Errors.name(),
        ],
    ));
    entries
}

fn empty_text() -> (text: String)
    ensures
        text@ == Seq::<char>::empty(),
{
    String::new()
}

fn list_kv(bucket: &str, prefix: String) -> (plan: Result<JetStreamAction, EventFsError>)
    ensures
        outcome(plan) == Ok::<Action, EventFsError<Text>>(
            JetStreamAction::ListKvPrefix { bucket: bucket@, prefix: prefix@ },
        ),
{
    Ok(JetStreamAction::ListKvPrefix { bucket: bucket.to_owned(), prefix })
}

/// What `readdir` asks for.
pub fn plan_readdir(path: &JetStreamPath) -> (plan: Result<JetStreamAction, EventFsError>)
    ensures
        outcome(plan) == readdir_plan(path@),
{
    match path {
        JetStreamPath::Root => Ok(JetStreamAction::StaticDirectory { entries: root_entries() }),
        JetStreamPath::KvRoot => Ok(JetStreamAction::ListKvBuckets),
        JetStreamPath::KvBucket { bucket } => list_kv(bucket.as_str(), empty_text()),
        JetStreamPath::KvKey { bucket, key } => list_kv(bucket.as_str(), key.clone()),
        JetStreamPath::KvHistoryRoot { bucket } => Ok(
            JetStreamAction::ListKvHistoryPrefix { bucket: bucket.clone(), prefix: empty_text() },
        ),
        JetStreamPath::KvHistoryKey { bucket, key } => Ok(
            JetStreamAction::KvHistory { bucket: bucket.clone(), key: key.clone() },
        ),
        JetStreamPath::StreamsRoot => Ok(JetStreamAction::ListStreams),
        JetStreamPath::StreamRoot { .. } => Ok(
            JetStreamAction::StaticDirectory { entries: stream_entries() },
        ),
        JetStreamPath::StreamMessages { stream } => Ok(
            JetStreamAction::ListStreamMessages { stream: stream.clone() },
        ),
        JetStreamPath::StreamSubjects { stream } => Ok(
            JetStreamAction::ListStreamSubjects { stream: stream.clone() },
        ),
        JetStreamPath::ObjectsRoot => Ok(JetStreamAction::ListObjectBuckets),
        JetStreamPath::ObjectBucket { bucket } => Ok(
            JetStreamAction::ListObjectPrefix { bucket: bucket.clone(), prefix: empty_text() },
        ),
        JetStreamPath::Object { bucket, object } => Ok(
            JetStreamAction::ListObjectPrefix { bucket: bucket.clone(), prefix: object.clone() },
        ),
        JetStreamPath::EventsRoot => Ok(JetStreamAction::ListEventLogs),
        JetStreamPath::TasksRoot => list_kv(TASKS_BUCKET, empty_text()),
        JetStreamPath::TaskNamespace { namespace } => list_kv(TASKS_BUCKET, namespace.clone()),
        JetStreamPath::AgentsRoot => Ok(JetStreamAction::ListAgents),
        JetStreamPath::AgentRoot { .. } => Ok(
            JetStreamAction::StaticDirectory { entries: agent_entries() },
        ),
        JetStreamPath::AgentDirectory { agent, area } => list_kv(
            AGENTS_BUCKET,
            concat3(agent.as_str(), "/", area.as_str()),
        ),
        JetStreamPath::SemanticRoot => Ok(
            JetStreamAction::StaticDirectory { entries: semantic_entries() },
        ),
        JetStreamPath::SemanticArea { area } => list_kv(SEMANTIC_BUCKET, area.as_str().to_owned()),
        JetStreamPath::AgentRecord { agent, area, path } => {
            let directory = concat3(agent.as_str(), "/", area.as_str());
            list_kv(AGENTS_BUCKET, concat3(directory.as_str(), "/", path.as_str()))
        },
        JetStreamPath::SemanticRecord { area, path } => list_kv(
            SEMANTIC_BUCKET,
            concat3(area.as_str(), "/", path.as_str()),
        ),
        JetStreamPath::MetadataRoot => Ok(
            JetStreamAction::StaticDirectory { entries: metadata_entries() },
        ),
        _ => Err(EventFsError::unsupported("readdir", path.to_string().as_str())),
    }
}

/// What `read` asks for.
pub fn plan_read(path: &JetStreamPath) -> (plan: Result<JetStreamAction, EventFsError>)
    ensures
        outcome(plan) == read_plan(path@),
{
    match path {
        JetStreamPath::KvKey { bucket, key } => Ok(
            JetStreamAction::KvGet { bucket: bucket.clone(), key: key.clone() },
        ),
        JetStreamPath::KvRevision { bucket, key, revision } => Ok(
            JetStreamAction::KvRevision {
                bucket: bucket.clone(),
                key: key.clone(),
                revision: *revision,
            },
        ),
        JetStreamPath::StreamMessage { stream, sequence } => Ok(
            JetStreamAction::StreamMessage { stream: stream.clone(), sequence: *sequence },
        ),
        JetStreamPath::StreamSubject { stream, subject } => publish_action(
            stream.as_str(),
            subject,
        ),
        JetStreamPath::Object { bucket, object } => Ok(
            JetStreamAction::ObjectGet { bucket: bucket.clone(), object: object.clone() },
        ),
        JetStreamPath::MetadataFile(file) => Ok(JetStreamAction::MetadataRead { file: *file }),
        _ => match MaterializedTarget::from_path(path) {
            Some(target) => Ok(JetStreamAction::MaterializedGet { target }),
            None => Err(EventFsError::unsupported("read", path.to_string().as_str())),
        },
    }
}

/// What `write` and `create` ask for.
pub fn plan_write(path: &JetStreamPath) -> (plan: Result<JetStreamAction, EventFsError>)
    ensures
        outcome(plan) == write_plan(path@),
{
    match path {
        JetStreamPath::KvKey { bucket, key } => Ok(
            JetStreamAction::KvPut { bucket: bucket.clone(), key: key.clone() },
        ),
        JetStreamPath::StreamSubject { stream, subject } => publish_action(
            stream.as_str(),
            subject,
        ),
        JetStreamPath::EventLog { .. } | JetStreamPath::AgentMailbox { .. } => {
            match MaterializedTarget::from_path(path) {
                Some(MaterializedTarget::Stream { stream, subject }) => Ok(
                    JetStreamAction::PublishJsonLines { stream, subject },
                ),
                _ => Err(EventFsError::unsupported("write", path.to_string().as_str())),
            }
        },
        JetStreamPath::Object { bucket, object } => Ok(
            JetStreamAction::ObjectPut { bucket: bucket.clone(), object: object.clone() },
        ),
        JetStreamPath::Task { .. } | JetStreamPath::AgentRecord {
            area: AgentArea::Tasks | AgentArea::Memory,
            ..
        } | JetStreamPath::SemanticRecord { .. } => match MaterializedTarget::from_path(path) {
            Some(target) => Ok(JetStreamAction::MaterializedPut { target }),
            None => Err(EventFsError::unsupported("write", path.to_string().as_str())),
        },
        JetStreamPath::KvRevision { .. } | JetStreamPath::StreamMessage { .. } => {
            Err(EventFsError::read_only(path.to_string().as_str()))
        },
        _ => if path.is_directory() {
            Err(
                EventFsError::Unsupported {
                    operation: "write",
                    path: path.to_string(),
                    errno: Errno::is_directory(),
                },
            )
        } else {
            Err(EventFsError::unsupported("write", path.to_string().as_str()))
        },
    }
}

/// What `mkdir` asks for.
pub fn plan_mkdir(path: &JetStreamPath) -> (plan: Result<JetStreamAction, EventFsError>)
    ensures
        outcome(plan) == mkdir_plan(path@),
{
    match path {
        JetStreamPath::KvBucket { bucket } => Ok(
            JetStreamAction::EnsureKvBucket { bucket: bucket.clone() },
        ),
        JetStreamPath::StreamRoot { stream } => Ok(
            JetStreamAction::EnsureStream { stream: stream.clone() },
        ),
        JetStreamPath::StreamMessages { .. } | JetStreamPath::StreamSubjects { .. } => Ok(
            JetStreamAction::NoopDirectory,
        ),
        JetStreamPath::ObjectBucket { bucket } => Ok(
            JetStreamAction::EnsureObjectBucket { bucket: bucket.clone() },
        ),
        JetStreamPath::TaskNamespace { .. } | JetStreamPath::AgentRoot {
            ..
        } | JetStreamPath::AgentDirectory { .. } | JetStreamPath::SemanticArea { .. } => Ok(
            JetStreamAction::NoopDirectory,
        ),
        JetStreamPath::KvKey { bucket, key } => Ok(
            JetStreamAction::EnsureKvDirectory { bucket: bucket.clone(), prefix: key.clone() },
        ),
        JetStreamPath::Object { bucket, object } => Ok(
            JetStreamAction::EnsureObjectDirectory {
                bucket: bucket.clone(),
                prefix: object.clone(),
            },
        ),
        _ => Err(EventFsError::unsupported("mkdir", path.to_string().as_str())),
    }
}

/// What `unlink` asks for.
pub fn plan_unlink(path: &JetStreamPath) -> (plan: Result<JetStreamAction, EventFsError>)
    ensures
        outcome(plan) == unlink_plan(path@),
{
    match path {
        JetStreamPath::KvKey { bucket, key } => Ok(
            JetStreamAction::KvDelete { bucket: bucket.clone(), key: key.clone() },
        ),
        JetStreamPath::Object { bucket, object } => Ok(
            JetStreamAction::ObjectDelete { bucket: bucket.clone(), object: object.clone() },
        ),
        JetStreamPath::Task { .. } | JetStreamPath::AgentRecord {
            ..
        } | JetStreamPath::SemanticRecord { .. } => match MaterializedTarget::from_path(path) {
            Some(target) => Ok(JetStreamAction::MaterializedDelete { target }),
            None => Err(EventFsError::unsupported("unlink", path.to_string().as_str())),
        },
        JetStreamPath::KvRevision { .. } | JetStreamPath::StreamMessage { .. } => {
            Err(EventFsError::read_only(path.to_string().as_str()))
        },
        _ => Err(EventFsError::unsupported("unlink", path.to_string().as_str())),
    }
}

/// What `rename` asks for.
pub fn plan_rename(from: &JetStreamPath, to: &JetStreamPath) -> (plan: Result<
    JetStreamAction,
    EventFsError,
>)
    ensures
        outcome(plan) == rename_plan(from@, to@),
{
    let from_surface = match rename_surface(from) {
        Some(surface) => surface,
        None => {
            return Err(cross_device_rename(from));
        },
    };
    let to_surface = match rename_surface(to) {
        Some(surface) => surface,
        None => {
            return Err(cross_device_rename(from));
        },
    };
    if from_surface != to_surface {
        return Err(cross_device_rename(from));
    }
    match (from, to) {
        (
            JetStreamPath::KvKey { bucket: from_bucket, key: from_key },
            JetStreamPath::KvKey { bucket: to_bucket, key: to_key },
        ) => {
            if !same_text(from_bucket.as_str(), to_bucket.as_str()) {
                return Err(cross_device_rename(from));
            }
            Ok(
                JetStreamAction::Rename {
                    plan: RenamePlan::Kv {
                        from_bucket: from_bucket.clone(),
                        from_key: from_key.clone(),
                        to_bucket: to_bucket.clone(),
                        to_key: to_key.clone(),
                    },
                },
            )
        },
        (
            JetStreamPath::Object { bucket: from_bucket, object: from_object },
            JetStreamPath::Object { bucket: to_bucket, object: to_object },
        ) => {
            if !same_text(from_bucket.as_str(), to_bucket.as_str()) {
                return Err(cross_device_rename(from));
            }
            Ok(
                JetStreamAction::Rename {
                    plan: RenamePlan::Object {
                        from_bucket: from_bucket.clone(),
                        from_object: from_object.clone(),
                        to_bucket: to_bucket.clone(),
                        to_object: to_object.clone(),
                    },
                },
            )
        },
        _ => match (MaterializedTarget::from_path(from), MaterializedTarget::from_path(to)) {
            (
                Some(MaterializedTarget::Kv { bucket: from_bucket, key: from_key }),
                Some(MaterializedTarget::Kv { bucket: to_bucket, key: to_key }),
            ) => {
                if !same_text(from_bucket.as_str(), to_bucket.as_str()) {
                    return Err(cross_device_rename(from));
                }
                Ok(
                    JetStreamAction::Rename {
                        plan: RenamePlan::Kv { from_bucket, from_key, to_bucket, to_key },
                    },
                )
            },
            _ => Err(cross_device_rename(from)),
        },
    }
}

fn rename_surface(path: &JetStreamPath) -> (surface: Option<RenameSurface>)
    ensures
        surface == surface_of(path@),
{
    match path {
        JetStreamPath::KvKey { .. } => Some(RenameSurface::Kv),
        JetStreamPath::Object { .. } => Some(RenameSurface::Object),
        JetStreamPath::Task { .. } => Some(RenameSurface::Tasks),
        JetStreamPath::AgentRecord { area, .. } => Some(RenameSurface::Agent { area: *area }),
        JetStreamPath::SemanticRecord { area, .. } => Some(RenameSurface::Semantic { area: *area }),
        _ => None,
    }
}

fn cross_device_rename(path: &JetStreamPath) -> (error: EventFsError)
    ensures
        error@ == crossing(path@),
{
    EventFsError::Unsupported {
        operation: "rename",
        path: path.to_string(),
        errno: Errno::cross_device(),
    }
}

fn publish_action(stream: &str, subject: &StreamSubject) -> (plan: Result<
    JetStreamAction,
    EventFsError,
>)
    ensures
        outcome(plan) == Ok::<Action, EventFsError<Text>>(
            JetStreamAction::PublishJsonLines { stream: stream@, subject: subject@.0 },
        ),
{
    Ok(
        JetStreamAction::PublishJsonLines {
            stream: stream.to_owned(),
            subject: subject.as_str().to_owned(),
        },
    )
}

} // verus!
