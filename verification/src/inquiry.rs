//! Conversations with the storage. An operation asks for what it needs one request at
//! a time; it is run again with each reply until nothing is missing, and then says
//! what comes of it.

use vstd::prelude::*;

use crate::entries::{listing, DirectoryEntry, Entry};
use crate::errno;
use crate::mount_paths::{Components, MountPath};
use crate::overlay::{FileSnapshot, Snapshot};
use crate::text::{option_view, string_texts, Text};
use crate::versions::{Time, VersionStamp};

verus! {

/// One revision of a key.
#[derive(Clone, Debug, PartialEq, Eq)]
pub struct KeyRevision<B = Vec<u8>> {
    pub revision: u64,
    pub created: Time,
    pub bytes: B,
}

/// The model of a revision.
pub type Revision = KeyRevision<Seq<u8>>;

impl View for KeyRevision<Vec<u8>> {
    type V = Revision;

    open spec fn view(&self) -> Revision {
        KeyRevision {
            revision: self.revision,
            created: self.created,
            bytes: self.bytes@,
        }
    }
}

/// The content of an object, and which of its versions it is.
#[derive(Clone, Debug, PartialEq, Eq)]
pub struct ObjectVersion<S = String, B = Vec<u8>> {
    pub sequence: u64,
    pub nuid: S,
    pub modified: Time,
    pub bytes: B,
}

/// The model of an object's content.
pub type ObjectContent = ObjectVersion<Text, Seq<u8>>;

impl View for ObjectVersion<String, Vec<u8>> {
    type V = ObjectContent;

    open spec fn view(&self) -> ObjectContent {
        ObjectVersion {
            sequence: self.sequence,
            nuid: self.nuid@,
            modified: self.modified,
            bytes: self.bytes@,
        }
    }
}

/// What is known of an object without its content.
#[derive(Clone, Copy, Debug, PartialEq, Eq, Structural)]
pub struct ObjectMetadata {
    pub size: u64,
    pub modified: Time,
}

/// A message of a stream.
#[derive(Clone, Debug, PartialEq, Eq)]
pub struct StreamMessageView<S = String, B = Vec<u8>> {
    pub stream: S,
    pub sequence: u64,
    pub subject: S,
    pub payload: B,
    pub published: Time,
}

/// The model of a message.
pub type Message = StreamMessageView<Text, Seq<u8>>;

impl View for StreamMessageView<String, Vec<u8>> {
    type V = Message;

    open spec fn view(&self) -> Message {
        StreamMessageView {
            stream: self.stream@,
            sequence: self.sequence,
            subject: self.subject@,
            payload: self.payload@,
            published: self.published,
        }
    }
}

/// What a remembered file was read from.
#[derive(Clone, Debug, PartialEq, Eq)]
pub enum CacheOrigin<S = String> {
    KvRevision { bucket: S, key: S, revision: u64 },
    StreamSequence { stream: S, sequence: u64 },
    ObjectVersion { bucket: S, object: S },
    MaterializedView { path: S },
}

impl View for CacheOrigin<String> {
    type V = CacheOrigin<Text>;

    open spec fn view(&self) -> CacheOrigin<Text> {
        match *self {
            CacheOrigin::KvRevision { bucket, key, revision } => CacheOrigin::KvRevision {
                bucket: bucket@,
                key: key@,
                revision,
            },
            CacheOrigin::StreamSequence { stream, sequence } => CacheOrigin::StreamSequence {
                stream: stream@,
                sequence,
            },
            CacheOrigin::ObjectVersion { bucket, object } => CacheOrigin::ObjectVersion {
                bucket: bucket@,
                object: object@,
            },
            CacheOrigin::MaterializedView { path } => CacheOrigin::MaterializedView {
                path: path@,
            },
        }
    }
}

/// A file to be remembered.
#[derive(Clone, Debug, PartialEq, Eq)]
pub struct CacheEntry<S = String, B = Vec<u8>> {
    pub path: S,
    pub origin: CacheOrigin<S>,
    pub version: VersionStamp,
    pub bytes: B,
    pub valid: bool,
}

/// The model of a file to be remembered.
pub type Remembered = CacheEntry<Text, Seq<u8>>;

impl View for CacheEntry<String, Vec<u8>> {
    type V = Remembered;

    open spec fn view(&self) -> Remembered {
        CacheEntry {
            path: self.path@,
            origin: self.origin@,
            version: self.version,
            bytes: self.bytes@,
            valid: self.valid,
        }
    }
}

/// A write to be made good later.
#[derive(Clone, Debug, PartialEq, Eq)]
pub enum FailedWriteOperation<S = String, B = Vec<u8>> {
    KvPut { bucket: S, key: S, bytes: B },
    ObjectPut { bucket: S, object: S, bytes: B },
    PublishJsonLines { stream: S, subject: S, bytes: B, applied_lines: usize },
    MaterializedPut { bucket: S, key: S, bytes: B },
    KvRenameComplete {
        from_bucket: S,
        from_key: S,
        source_revision: u64,
        to_bucket: S,
        to_key: S,
        bytes: B,
    },
    ObjectRenameComplete {
        from_bucket: S,
        from_object: S,
        source_sequence: u64,
        source_nuid: S,
        to_bucket: S,
        to_object: S,
        bytes: B,
    },
}

impl View for FailedWriteOperation<String, Vec<u8>> {
    type V = QueuedOperation;

    open spec fn view(&self) -> QueuedOperation {
        match *self {
            FailedWriteOperation::KvPut { bucket, key, bytes } => FailedWriteOperation::KvPut {
                bucket: bucket@,
                key: key@,
                bytes: bytes@,
            },
            FailedWriteOperation::ObjectPut {
                bucket,
                object,
                bytes,
            } => FailedWriteOperation::ObjectPut {
                bucket: bucket@,
                object: object@,
                bytes: bytes@,
            },
            FailedWriteOperation::PublishJsonLines {
                stream,
                subject,
                bytes,
                applied_lines,
            } => FailedWriteOperation::PublishJsonLines {
                stream: stream@,
                subject: subject@,
                bytes: bytes@,
                applied_lines,
            },
            FailedWriteOperation::MaterializedPut {
                bucket,
                key,
                bytes,
            } => FailedWriteOperation::MaterializedPut {
                bucket: bucket@,
                key: key@,
                bytes: bytes@,
            },
            FailedWriteOperation::KvRenameComplete {
                from_bucket,
                from_key,
                source_revision,
                to_bucket,
                to_key,
                bytes,
            } => FailedWriteOperation::KvRenameComplete {
                from_bucket: from_bucket@,
                from_key: from_key@,
                source_revision,
                to_bucket: to_bucket@,
                to_key: to_key@,
                bytes: bytes@,
            },
            FailedWriteOperation::ObjectRenameComplete {
                from_bucket,
                from_object,
                source_sequence,
                source_nuid,
                to_bucket,
                to_object,
                bytes,
            } => FailedWriteOperation::ObjectRenameComplete {
                from_bucket: from_bucket@,
                from_object: from_object@,
                source_sequence,
                source_nuid: source_nuid@,
                to_bucket: to_bucket@,
                to_object: to_object@,
                bytes: bytes@,
            },
        }
    }
}

/// The model of a write to be made good later.
pub type QueuedOperation = FailedWriteOperation<Text, Seq<u8>>;

/// A write for the queue.
#[derive(Clone, Debug, PartialEq, Eq)]
pub struct FailedWrite<S = String, B = Vec<u8>, P = MountPath> {
    pub idempotency_key: S,
    pub version: VersionStamp,
    pub path: P,
    pub operation: FailedWriteOperation<S, B>,
}

/// The model of a write for the queue.
pub type QueuedWrite = FailedWrite<Text, Seq<u8>, Components>;

impl View for FailedWrite<String, Vec<u8>, MountPath> {
    type V = QueuedWrite;

    open spec fn view(&self) -> QueuedWrite {
        FailedWrite {
            idempotency_key: self.idempotency_key@,
            version: self.version,
            path: self.path@,
            operation: self.operation@,
        }
    }
}

/// What is asked of the storage, of the remembered files and of the queue.
#[derive(Clone, Debug, PartialEq, Eq)]
pub enum StorageRequest<S = String, B = Vec<u8>, P = MountPath> {
    KvGet { bucket: S, key: S },
    KvRevision { bucket: S, key: S, revision: u64 },
    KvHistory { bucket: S, key: S },
    ListKvBuckets,
    ListKvPrefix { bucket: S, prefix: S },
    ListKvHistoryPrefix { bucket: S, prefix: S },
    ListStreams,
    ListStreamMessages { stream: S },
    ListStreamSubjects { stream: S },
    StreamMessage { stream: S, sequence: u64 },
    ListAgentNames,
    ListObjectBuckets,
    ListObjectPrefix { bucket: S, prefix: S },
    ObjectGet { bucket: S, object: S },
    ObjectMetadata { bucket: S, object: S },
    /// How many of the lines a log has already taken.
    AppliedJsonLines { stream: S, subject: S, bytes: B, idempotency_key: S },
    /// The remembered file of a path.
    CachedFile { path: S },
    RememberFile { entry: CacheEntry<S, B> },
    KvPut { bucket: S, key: S, bytes: B, idempotency_key: S },
    ObjectPut { bucket: S, object: S, bytes: B, idempotency_key: S },
    PublishJsonLines { stream: S, subject: S, bytes: B, idempotency_key: S },
    KvDelete { bucket: S, key: S },
    ObjectDelete { bucket: S, object: S },
    EnsureKvBucket { bucket: S },
    EnsureStream { stream: S },
    EnsureObjectBucket { bucket: S },
    /// Puts a write into the queue.
    Enqueue { write: FailedWrite<S, B, P> },
    /// Makes the queued writes good.
    ReplayQueue,
    /// Whether writes are accepted.
    WriteGate,
    /// Brings the write gate up to date: whether it has just closed.
    SyncWriteGate,
    /// Takes in what has been seen to change in the storage.
    DrainWatchEvents,
    /// Takes it that anything may have changed in the storage.
    WatchGap,
    /// Makes stale what a change of a path touches.
    InvalidateLocal { path: P },
    /// Makes a path stale and all below it.
    InvalidateSubtree { path: P },
    /// Makes everything stale.
    InvalidateAll,
    /// Takes the inode of a path away.
    ForgetPath { path: P },
    CurrentTime,
}

impl View for StorageRequest<String, Vec<u8>, MountPath> {
    type V = Request;

    open spec fn view(&self) -> Request {
        match *self {
            StorageRequest::KvGet { bucket, key } => StorageRequest::KvGet {
                bucket: bucket@,
                key: key@,
            },
            StorageRequest::KvRevision { bucket, key, revision } => StorageRequest::KvRevision {
                bucket: bucket@,
                key: key@,
                revision,
            },
            StorageRequest::KvHistory { bucket, key } => StorageRequest::KvHistory {
                bucket: bucket@,
                key: key@,
            },
            StorageRequest::ListKvBuckets => StorageRequest::ListKvBuckets,
            StorageRequest::ListKvPrefix { bucket, prefix } => StorageRequest::ListKvPrefix {
                bucket: bucket@,
                prefix: prefix@,
            },
            StorageRequest::ListKvHistoryPrefix {
                bucket,
                prefix,
            } => StorageRequest::ListKvHistoryPrefix {
                bucket: bucket@,
                prefix: prefix@,
            },
            StorageRequest::ListStreams => StorageRequest::ListStreams,
            StorageRequest::ListStreamMessages { stream } => StorageRequest::ListStreamMessages {
                stream: stream@,
            },
            StorageRequest::ListStreamSubjects { stream } => StorageRequest::ListStreamSubjects {
                stream: stream@,
            },
            StorageRequest::StreamMessage { stream, sequence } => StorageRequest::StreamMessage {
                stream: stream@,
                sequence,
            },
            StorageRequest::ListAgentNames => StorageRequest::ListAgentNames,
            StorageRequest::ListObjectBuckets => StorageRequest::ListObjectBuckets,
            StorageRequest::ListObjectPrefix {
                bucket,
                prefix,
            } => StorageRequest::ListObjectPrefix {
                bucket: bucket@,
                prefix: prefix@,
            },
            StorageRequest::ObjectGet { bucket, object } => StorageRequest::ObjectGet {
                bucket: bucket@,
                object: object@,
            },
            StorageRequest::ObjectMetadata { bucket, object } => StorageRequest::ObjectMetadata {
                bucket: bucket@,
                object: object@,
            },
            StorageRequest::AppliedJsonLines {
                stream,
                subject,
                bytes,
                idempotency_key,
            } => StorageRequest::AppliedJsonLines {
                stream: stream@,
                subject: subject@,
                bytes: bytes@,
                idempotency_key: idempotency_key@,
            },
            StorageRequest::CachedFile { path } => StorageRequest::CachedFile { path: path@ },
            StorageRequest::RememberFile { entry } => StorageRequest::RememberFile {
                entry: entry@,
            },
            StorageRequest::KvPut { bucket, key, bytes, idempotency_key } => StorageRequest::KvPut {
                bucket: bucket@,
                key: key@,
                bytes: bytes@,
                idempotency_key: idempotency_key@,
            },
            StorageRequest::ObjectPut {
                bucket,
                object,
                bytes,
                idempotency_key,
            } => StorageRequest::ObjectPut {
                bucket: bucket@,
                object: object@,
                bytes: bytes@,
                idempotency_key: idempotency_key@,
            },
            StorageRequest::PublishJsonLines {
                stream,
                subject,
                bytes,
                idempotency_key,
            } => StorageRequest::PublishJsonLines {
                stream: stream@,
                subject: subject@,
                bytes: bytes@,
                idempotency_key: idempotency_key@,
            },
            StorageRequest::KvDelete { bucket, key } => StorageRequest::KvDelete {
                bucket: bucket@,
                key: key@,
            },
            StorageRequest::ObjectDelete { bucket, object } => StorageRequest::ObjectDelete {
                bucket: bucket@,
                object: object@,
            },
            StorageRequest::EnsureKvBucket { bucket } => StorageRequest::EnsureKvBucket {
                bucket: bucket@,
            },
            StorageRequest::EnsureStream { stream } => StorageRequest::EnsureStream {
                stream: stream@,
            },
            StorageRequest::EnsureObjectBucket { bucket } => StorageRequest::EnsureObjectBucket {
                bucket: bucket@,
            },
            StorageRequest::Enqueue { write } => StorageRequest::Enqueue { write: write@ },
            StorageRequest::ReplayQueue => StorageRequest::ReplayQueue,
            StorageRequest::WriteGate => StorageRequest::WriteGate,
            StorageRequest::SyncWriteGate => StorageRequest::SyncWriteGate,
            StorageRequest::DrainWatchEvents => StorageRequest::DrainWatchEvents,
            StorageRequest::WatchGap => StorageRequest::WatchGap,
            StorageRequest::InvalidateLocal { path } => StorageRequest::InvalidateLocal {
                path: path@,
            },
            StorageRequest::InvalidateSubtree { path } => StorageRequest::InvalidateSubtree {
                path: path@,
            },
            StorageRequest::InvalidateAll => StorageRequest::InvalidateAll,
            StorageRequest::ForgetPath { path } => StorageRequest::ForgetPath { path: path@ },
            StorageRequest::CurrentTime => StorageRequest::CurrentTime,
        }
    }
}

/// The model of a request.
pub type Request = StorageRequest<Text, Seq<u8>, Components>;

/// Why the storage could not do what it was asked.
#[derive(Clone, Debug, PartialEq, Eq)]
pub enum StorageFailure<S = String> {
    /// There is nothing under that name.
    NotFound,
    /// Anything else, with the message that is kept of it.
    Other(S),
}

impl View for StorageFailure<String> {
    type V = StorageFailure<Text>;

    open spec fn view(&self) -> StorageFailure<Text> {
        match *self {
            StorageFailure::NotFound => StorageFailure::NotFound,
            StorageFailure::Other(message) => StorageFailure::Other(message@),
        }
    }
}

/// What the storage replied.
#[derive(Debug, PartialEq, Eq)]
pub enum StorageReply {
    Failed(StorageFailure),
    Value(Option<KeyRevision>),
    Revisions(Vec<KeyRevision>),
    Names(Vec<String>),
    Entries(Vec<DirectoryEntry>),
    Message(StreamMessageView),
    Object(Option<ObjectVersion>),
    ObjectInfo(Option<ObjectMetadata>),
    Count(usize),
    Cached(Option<FileSnapshot>),
    Flag(bool),
    Time(Time),
    Done,
}

/// The model of a reply.
pub enum Reply {
    Failed(StorageFailure<Text>),
    Value(Option<Revision>),
    Revisions(Seq<Revision>),
    Names(Seq<Text>),
    Entries(Seq<Entry>),
    Message(Message),
    Object(Option<ObjectContent>),
    ObjectInfo(Option<ObjectMetadata>),
    Count(usize),
    Cached(Option<Snapshot>),
    Flag(bool),
    Time(Time),
    Done,
}

/// The models of revisions.
pub open spec fn revision_models(revisions: Seq<KeyRevision>) -> Seq<Revision> {
    revisions.map_values(|revision: KeyRevision| revision@)
}

impl View for StorageReply {
    type V = Reply;

    open spec fn view(&self) -> Reply {
        match *self {
            StorageReply::Failed(failure) => Reply::Failed(failure@),
            StorageReply::Value(value) => Reply::Value(option_view(value)),
            StorageReply::Revisions(revisions) => Reply::Revisions(revision_models(revisions@)),
            StorageReply::Names(names) => Reply::Names(string_texts(names@)),
            StorageReply::Entries(entries) => Reply::Entries(listing(entries@)),
            StorageReply::Message(message) => Reply::Message(message@),
            StorageReply::Object(object) => Reply::Object(option_view(object)),
            StorageReply::ObjectInfo(info) => Reply::ObjectInfo(info),
            StorageReply::Count(count) => Reply::Count(count),
            StorageReply::Cached(cached) => Reply::Cached(option_view(cached)),
            StorageReply::Flag(flag) => Reply::Flag(flag),
            StorageReply::Time(time) => Reply::Time(time),
            StorageReply::Done => Reply::Done,
        }
    }
}

/// Why an operation stopped: it needs a reply, or it failed with an error number.
#[derive(Debug)]
pub enum Pause<R = StorageRequest> {
    Ask(R),
    Fail(i32),
}

/// The model of a stop.
pub type Stop = Pause<Request>;

impl View for Pause<StorageRequest> {
    type V = Stop;

    open spec fn view(&self) -> Stop {
        match *self {
            Pause::Ask(request) => Pause::Ask(request@),
            Pause::Fail(number) => Pause::Fail(number),
        }
    }
}

/// The replies that an operation has, how many of them it has used, and what it has
/// to complain about.
pub struct Inquiry<'a> {
    pub replies: &'a [StorageReply],
    pub used: usize,
    pub complaints: Vec<String>,
}

/// The model of a conversation.
pub struct Talk {
    pub replies: Seq<Reply>,
    pub used: nat,
    pub complaints: Seq<Text>,
}

impl<'a> View for Inquiry<'a> {
    type V = Talk;

    open spec fn view(&self) -> Talk {
        Talk {
            replies: self.replies@.map_values(|reply: StorageReply| reply@),
            used: self.used as nat,
            complaints: string_texts(self.complaints@),
        }
    }
}

/// A step of a conversation: what came of it, and how the conversation stands.
pub type Step<T> = (Result<T, Stop>, Talk);

/// What a step of a conversation returned.
pub open spec fn step_outcome<T: View>(result: Result<T, Pause>) -> Result<T::V, Stop> {
    match result {
        Ok(value) => Ok(value@),
        Err(pause) => Err(pause@),
    }
}

/// What a step of a conversation returned, of a type that is its own model.
pub open spec fn plain_outcome<T>(result: Result<T, Pause>) -> Result<T, Stop> {
    match result {
        Ok(value) => Ok(value),
        Err(pause) => Err(pause@),
    }
}

/// The message about a reply that does not fit the request.
pub const UNEXPECTED_REPLY: &'static str = "unexpected storage reply";

impl Talk {
    /// The conversation after one more reply was used.
    pub open spec fn heard(self) -> Talk {
        Talk { used: self.used + 1, ..self }
    }

    /// The conversation after one more complaint.
    pub open spec fn complaining(self, message: Text) -> Talk {
        Talk { complaints: self.complaints.push(message), ..self }
    }

    /// The next reply: where there is none, the operation stops with the request.
    pub open spec fn ask(self, request: Request) -> Step<Reply> {
        if self.used < self.replies.len() {
            (Ok(self.replies[self.used as int]), self.heard())
        } else {
            (Err(Pause::Ask(request)), self)
        }
    }

    /// A failure as an error number: `ENOENT` where nothing was found, and otherwise
    /// `EIO` with a complaint.
    pub open spec fn fail<T>(self, failure: StorageFailure<Text>) -> Step<T> {
        match failure {
            StorageFailure::NotFound => (Err(Pause::Fail(errno::ENOENT)), self),
            StorageFailure::Other(message) => (
                Err(Pause::Fail(errno::EIO)),
                self.complaining(message),
            ),
        }
    }

    /// An answer, or its failure as an error number.
    pub open spec fn settle<T>(self, answer: Result<T, StorageFailure<Text>>) -> Step<T> {
        match answer {
            Ok(value) => (Ok(value), self),
            Err(failure) => self.fail(failure),
        }
    }
}

/// The failure that a reply reports: the reply itself, or that it does not fit.
pub open spec fn failure_in(reply: Reply) -> StorageFailure<Text> {
    match reply {
        Reply::Failed(failure) => failure,
        _ => StorageFailure::Other(UNEXPECTED_REPLY@),
    }
}

/// The reply as a key's value.
pub open spec fn value_in(reply: Reply) -> Result<Option<Revision>, StorageFailure<Text>> {
    match reply {
        Reply::Value(value) => Ok(value),
        _ => Err(failure_in(reply)),
    }
}

/// The reply as the revisions of a key.
pub open spec fn revisions_in(reply: Reply) -> Result<Seq<Revision>, StorageFailure<Text>> {
    match reply {
        Reply::Revisions(revisions) => Ok(revisions),
        _ => Err(failure_in(reply)),
    }
}

/// The reply as names.
pub open spec fn names_in(reply: Reply) -> Result<Seq<Text>, StorageFailure<Text>> {
    match reply {
        Reply::Names(names) => Ok(names),
        _ => Err(failure_in(reply)),
    }
}

/// The reply as the entries of a directory.
pub open spec fn entries_in(reply: Reply) -> Result<Seq<Entry>, StorageFailure<Text>> {
    match reply {
        Reply::Entries(entries) => Ok(entries),
        _ => Err(failure_in(reply)),
    }
}

/// The reply as a message.
pub open spec fn message_in(reply: Reply) -> Result<Message, StorageFailure<Text>> {
    match reply {
        Reply::Message(message) => Ok(message),
        _ => Err(failure_in(reply)),
    }
}

/// The reply as an object.
pub open spec fn object_in(reply: Reply) -> Result<Option<ObjectContent>, StorageFailure<Text>> {
    match reply {
        Reply::Object(object) => Ok(object),
        _ => Err(failure_in(reply)),
    }
}

/// The reply as what is known of an object.
pub open spec fn object_info_in(reply: Reply) -> Result<
    Option<ObjectMetadata>, StorageFailure<Text>,
> {
    match reply {
        Reply::ObjectInfo(object_info) => Ok(object_info),
        _ => Err(failure_in(reply)),
    }
}

/// The reply as a count.
pub open spec fn count_in(reply: Reply) -> Result<usize, StorageFailure<Text>> {
    match reply {
        Reply::Count(count) => Ok(count),
        _ => Err(failure_in(reply)),
    }
}

/// The reply as a remembered file.
pub open spec fn cached_in(reply: Reply) -> Result<Option<Snapshot>, StorageFailure<Text>> {
    match reply {
        Reply::Cached(cached) => Ok(cached),
        _ => Err(failure_in(reply)),
    }
}

/// The reply as a yes or no.
pub open spec fn flag_in(reply: Reply) -> Result<bool, StorageFailure<Text>> {
    match reply {
        Reply::Flag(flag) => Ok(flag),
        _ => Err(failure_in(reply)),
    }
}

/// The reply as a time.
pub open spec fn time_in(reply: Reply) -> Result<Time, StorageFailure<Text>> {
    match reply {
        Reply::Time(time) => Ok(time),
        _ => Err(failure_in(reply)),
    }
}

/// Whether a reply says that it was done.
pub open spec fn done_in(reply: Reply) -> Result<(), StorageFailure<Text>> {
    match reply {
        Reply::Done => Ok(()),
        _ => Err(failure_in(reply)),
    }
}

/// The model of an optional reference.
pub open spec fn option_ref_view<T: View>(value: Option<&T>) -> Option<T::V> {
    match value {
        Some(value) => Some((*value)@),
        None => None,
    }
}

impl Talk {
    /// Asks for a key's value; a failure comes back as it is.
    pub open spec fn try_value(self, request: Request) -> Step<
        Result<Option<Revision>, StorageFailure<Text>>,
    > {
        let (reply, talk) = self.ask(request);
        match reply {
            Ok(reply) => (Ok(value_in(reply)), talk),
            Err(stop) => (Err(stop), talk),
        }
    }

    /// Asks for a key's value; a failure comes back as an error number.
    pub open spec fn value(self, request: Request) -> Step<Option<Revision>> {
        let (answer, talk) = self.try_value(request);
        match answer {
            Ok(answer) => talk.settle(answer),
            Err(stop) => (Err(stop), talk),
        }
    }

    /// Asks for the revisions of a key; a failure comes back as it is.
    pub open spec fn try_revisions(self, request: Request) -> Step<
        Result<Seq<Revision>, StorageFailure<Text>>,
    > {
        let (reply, talk) = self.ask(request);
        match reply {
            Ok(reply) => (Ok(revisions_in(reply)), talk),
            Err(stop) => (Err(stop), talk),
        }
    }

    /// Asks for the revisions of a key; a failure comes back as an error number.
    pub open spec fn revisions(self, request: Request) -> Step<Seq<Revision>> {
        let (answer, talk) = self.try_revisions(request);
        match answer {
            Ok(answer) => talk.settle(answer),
            Err(stop) => (Err(stop), talk),
        }
    }

    /// Asks for names; a failure comes back as it is.
    pub open spec fn try_names(self, request: Request) -> Step<
        Result<Seq<Text>, StorageFailure<Text>>,
    > {
        let (reply, talk) = self.ask(request);
        match reply {
            Ok(reply) => (Ok(names_in(reply)), talk),
            Err(stop) => (Err(stop), talk),
        }
    }

    /// Asks for names; a failure comes back as an error number.
    pub open spec fn names(self, request: Request) -> Step<Seq<Text>> {
        let (answer, talk) = self.try_names(request);
        match answer {
            Ok(answer) => talk.settle(answer),
            Err(stop) => (Err(stop), talk),
        }
    }

    /// Asks for the entries of a directory; a failure comes back as it is.
    pub open spec fn try_entries(self, request: Request) -> Step<
        Result<Seq<Entry>, StorageFailure<Text>>,
    > {
        let (reply, talk) = self.ask(request);
        match reply {
            Ok(reply) => (Ok(entries_in(reply)), talk),
            Err(stop) => (Err(stop), talk),
        }
    }

    /// Asks for the entries of a directory; a failure comes back as an error number.
    pub open spec fn entries(self, request: Request) -> Step<Seq<Entry>> {
        let (answer, talk) = self.try_entries(request);
        match answer {
            Ok(answer) => talk.settle(answer),
            Err(stop) => (Err(stop), talk),
        }
    }

    /// Asks for a message; a failure comes back as it is.
    pub open spec fn try_message(self, request: Request) -> Step<
        Result<Message, StorageFailure<Text>>,
    > {
        let (reply, talk) = self.ask(request);
        match reply {
            Ok(reply) => (Ok(message_in(reply)), talk),
            Err(stop) => (Err(stop), talk),
        }
    }

    /// Asks for a message; a failure comes back as an error number.
    pub open spec fn message(self, request: Request) -> Step<Message> {
        let (answer, talk) = self.try_message(request);
        match answer {
            Ok(answer) => talk.settle(answer),
            Err(stop) => (Err(stop), talk),
        }
    }

    /// Asks for an object; a failure comes back as it is.
    pub open spec fn try_object(self, request: Request) -> Step<
        Result<Option<ObjectContent>, StorageFailure<Text>>,
    > {
        let (reply, talk) = self.ask(request);
        match reply {
            Ok(reply) => (Ok(object_in(reply)), talk),
            Err(stop) => (Err(stop), talk),
        }
    }

    /// Asks for an object; a failure comes back as an error number.
    pub open spec fn object(self, request: Request) -> Step<Option<ObjectContent>> {
        let (answer, talk) = self.try_object(request);
        match answer {
            Ok(answer) => talk.settle(answer),
            Err(stop) => (Err(stop), talk),
        }
    }

    /// Asks for what is known of an object; a failure comes back as it is.
    pub open spec fn try_object_info(self, request: Request) -> Step<
        Result<Option<ObjectMetadata>, StorageFailure<Text>>,
    > {
        let (reply, talk) = self.ask(request);
        match reply {
            Ok(reply) => (Ok(object_info_in(reply)), talk),
            Err(stop) => (Err(stop), talk),
        }
    }

    /// Asks for what is known of an object; a failure comes back as an error number.
    pub open spec fn object_info(self, request: Request) -> Step<Option<ObjectMetadata>> {
        let (answer, talk) = self.try_object_info(request);
        match answer {
            Ok(answer) => talk.settle(answer),
            Err(stop) => (Err(stop), talk),
        }
    }

    /// Asks for a count; a failure comes back as it is.
    pub open spec fn try_count(self, request: Request) -> Step<
        Result<usize, StorageFailure<Text>>,
    > {
        let (reply, talk) = self.ask(request);
        match reply {
            Ok(reply) => (Ok(count_in(reply)), talk),
            Err(stop) => (Err(stop), talk),
        }
    }

    /// Asks for a remembered file; a failure comes back as it is.
    pub open spec fn try_cached(self, request: Request) -> Step<
        Result<Option<Snapshot>, StorageFailure<Text>>,
    > {
        let (reply, talk) = self.ask(request);
        match reply {
            Ok(reply) => (Ok(cached_in(reply)), talk),
            Err(stop) => (Err(stop), talk),
        }
    }

    /// Asks for a remembered file; a failure comes back as an error number.
    pub open spec fn cached(self, request: Request) -> Step<Option<Snapshot>> {
        let (answer, talk) = self.try_cached(request);
        match answer {
            Ok(answer) => talk.settle(answer),
            Err(stop) => (Err(stop), talk),
        }
    }

    /// Asks for a yes or no; a failure comes back as it is.
    pub open spec fn try_flag(self, request: Request) -> Step<Result<bool, StorageFailure<Text>>> {
        let (reply, talk) = self.ask(request);
        match reply {
            Ok(reply) => (Ok(flag_in(reply)), talk),
            Err(stop) => (Err(stop), talk),
        }
    }

    /// Asks for a yes or no; a failure comes back as an error number.
    pub open spec fn flag(self, request: Request) -> Step<bool> {
        let (answer, talk) = self.try_flag(request);
        match answer {
            Ok(answer) => talk.settle(answer),
            Err(stop) => (Err(stop), talk),
        }
    }

    /// Asks for a time; a failure comes back as it is.
    pub open spec fn try_time(self, request: Request) -> Step<Result<Time, StorageFailure<Text>>> {
        let (reply, talk) = self.ask(request);
        match reply {
            Ok(reply) => (Ok(time_in(reply)), talk),
            Err(stop) => (Err(stop), talk),
        }
    }

    /// Asks for a time; a failure comes back as an error number.
    pub open spec fn time(self, request: Request) -> Step<Time> {
        let (answer, talk) = self.try_time(request);
        match answer {
            Ok(answer) => talk.settle(answer),
            Err(stop) => (Err(stop), talk),
        }
    }

    /// Asks for something to be done; a failure comes back as it is.
    pub open spec fn try_done(self, request: Request) -> Step<Result<(), StorageFailure<Text>>> {
        let (reply, talk) = self.ask(request);
        match reply {
            Ok(reply) => (Ok(done_in(reply)), talk),
            Err(stop) => (Err(stop), talk),
        }
    }

    /// Asks for something to be done; a failure comes back as an error number.
    pub open spec fn done(self, request: Request) -> Step<()> {
        let (answer, talk) = self.try_done(request);
        match answer {
            Ok(answer) => talk.settle(answer),
            Err(stop) => (Err(stop), talk),
        }
    }
}

impl<'a> Inquiry<'a> {
    /// A conversation that starts over with the given replies.
    pub fn new(replies: &'a [StorageReply]) -> (inquiry: Self)
        ensures
            inquiry@ == (Talk {
                replies: replies@.map_values(|reply: StorageReply| reply@),
                used: 0,
                complaints: Seq::empty(),
            }),
    {
        let inquiry = Inquiry { replies, used: 0, complaints: Vec::new() };
        assert(string_texts(inquiry.complaints@) =~= Seq::empty());
        inquiry
    }

    /// Adds a complaint.
    pub fn complain(&mut self, message: String)
        ensures
            final(self)@ == old(self)@.complaining(message@),
    {
        let ghost before = self.complaints@;
        self.complaints.push(message);
        assert(string_texts(self.complaints@) =~= string_texts(before).push(message@));
    }

    /// The next reply: where there is none, the operation stops with the request.
    pub fn ask(&mut self, request: StorageRequest) -> (result: Result<&'a StorageReply, Pause>)
        ensures
            match result {
                Ok(reply) => old(self)@.ask(request@) == (Ok::<Reply, Stop>(reply@), final(self)@),
                Err(pause) => old(self)@.ask(request@) == (
                    Err::<Reply, Stop>(pause@),
                    final(self)@,
                ),
            },
    {
        if self.used < self.replies.len() {
            let reply = &self.replies[self.used];
            self.used = self.used + 1;
            Ok(reply)
        } else {
            Err(Pause::Ask(request))
        }
    }

    /// A failure as an error number.
    pub fn fail(&mut self, failure: StorageFailure) -> (pause: Pause)
        ensures
            old(self)@.fail::<()>(failure@) == (Err::<(), Stop>(pause@), final(self)@),
            pause is Fail,
    {
        match failure {
            StorageFailure::NotFound => Pause::Fail(errno::enoent()),
            StorageFailure::Other(message) => {
                self.complain(message);
                Pause::Fail(errno::eio())
            },
        }
    }

    /// Asks for a key's value; a failure comes back as it is.
    pub fn try_value(&mut self, request: StorageRequest) -> (result: Result<
        Result<Option<&'a KeyRevision>, StorageFailure>,
        Pause,
    >)
        ensures
            match result {
                Ok(Ok(value)) => old(self)@.try_value(request@) == (
                    Ok::<Result<Option<Revision>, StorageFailure<Text>>, Stop>(Ok(option_ref_view(value))),
                    final(self)@,
                ),
                Ok(Err(failure)) => old(self)@.try_value(request@) == (
                    Ok::<Result<Option<Revision>, StorageFailure<Text>>, Stop>(Err(failure@)),
                    final(self)@,
                ),
                Err(pause) => old(self)@.try_value(request@) == (
                    Err::<Result<Option<Revision>, StorageFailure<Text>>, Stop>(pause@),
                    final(self)@,
                ),
            },
            result matches Err(pause) ==> pause is Ask,
    {
        let reply = self.ask(request)?;
        Ok(match reply {
            StorageReply::Value(Some(value)) => Ok(Some(value)),
            StorageReply::Value(None) => Ok(None),
            other => Err(reply_failure(other)),
        })
    }

    /// Asks for a key's value; a failure comes back as an error number.
    pub fn value(&mut self, request: StorageRequest) -> (result: Result<Option<&'a KeyRevision>, Pause>)
        ensures
            match result {
                Ok(value) => old(self)@.value(request@) == (
                    Ok::<Option<Revision>, Stop>(option_ref_view(value)),
                    final(self)@,
                ),
                Err(pause) => old(self)@.value(request@) == (
                    Err::<Option<Revision>, Stop>(pause@),
                    final(self)@,
                ),
            },
    {
        match self.try_value(request)? {
            Ok(value) => Ok(value),
            Err(failure) => Err(self.fail(failure)),
        }
    }

    /// Asks for the revisions of a key; a failure comes back as it is.
    pub fn try_revisions(&mut self, request: StorageRequest) -> (result: Result<
        Result<&'a Vec<KeyRevision>, StorageFailure>,
        Pause,
    >)
        ensures
            match result {
                Ok(Ok(value)) => old(self)@.try_revisions(request@) == (
                    Ok::<Result<Seq<Revision>, StorageFailure<Text>>, Stop>(Ok(revision_models(value@))),
                    final(self)@,
                ),
                Ok(Err(failure)) => old(self)@.try_revisions(request@) == (
                    Ok::<Result<Seq<Revision>, StorageFailure<Text>>, Stop>(Err(failure@)),
                    final(self)@,
                ),
                Err(pause) => old(self)@.try_revisions(request@) == (
                    Err::<Result<Seq<Revision>, StorageFailure<Text>>, Stop>(pause@),
                    final(self)@,
                ),
            },
            result matches Err(pause) ==> pause is Ask,
    {
        let reply = self.ask(request)?;
        Ok(match reply {
            StorageReply::Revisions(value) => Ok(value),
            other => Err(reply_failure(other)),
        })
    }

    /// Asks for the revisions of a key; a failure comes back as an error number.
    pub fn revisions(&mut self, request: StorageRequest) -> (result: Result<&'a Vec<KeyRevision>, Pause>)
        ensures
            match result {
                Ok(value) => old(self)@.revisions(request@) == (
                    Ok::<Seq<Revision>, Stop>(revision_models(value@)),
                    final(self)@,
                ),
                Err(pause) => old(self)@.revisions(request@) == (
                    Err::<Seq<Revision>, Stop>(pause@),
                    final(self)@,
                ),
            },
    {
        match self.try_revisions(request)? {
            Ok(value) => Ok(value),
            Err(failure) => Err(self.fail(failure)),
        }
    }

    /// Asks for names; a failure comes back as it is.
    pub fn try_names(&mut self, request: StorageRequest) -> (result: Result<
        Result<&'a Vec<String>, StorageFailure>,
        Pause,
    >)
        ensures
            match result {
                Ok(Ok(value)) => old(self)@.try_names(request@) == (
                    Ok::<Result<Seq<Text>, StorageFailure<Text>>, Stop>(Ok(string_texts(value@))),
                    final(self)@,
                ),
                Ok(Err(failure)) => old(self)@.try_names(request@) == (
                    Ok::<Result<Seq<Text>, StorageFailure<Text>>, Stop>(Err(failure@)),
                    final(self)@,
                ),
                Err(pause) => old(self)@.try_names(request@) == (
                    Err::<Result<Seq<Text>, StorageFailure<Text>>, Stop>(pause@),
                    final(self)@,
                ),
            },
            result matches Err(pause) ==> pause is Ask,
    {
        let reply = self.ask(request)?;
        Ok(match reply {
            StorageReply::Names(value) => Ok(value),
            other => Err(reply_failure(other)),
        })
    }

    /// Asks for names; a failure comes back as an error number.
    pub fn names(&mut self, request: StorageRequest) -> (result: Result<&'a Vec<String>, Pause>)
        ensures
            match result {
                Ok(value) => old(self)@.names(request@) == (
                    Ok::<Seq<Text>, Stop>(string_texts(value@)),
                    final(self)@,
                ),
                Err(pause) => old(self)@.names(request@) == (
                    Err::<Seq<Text>, Stop>(pause@),
                    final(self)@,
                ),
            },
    {
        match self.try_names(request)? {
            Ok(value) => Ok(value),
            Err(failure) => Err(self.fail(failure)),
        }
    }

    /// Asks for the entries of a directory; a failure comes back as it is.
    pub fn try_entries(&mut self, request: StorageRequest) -> (result: Result<
        Result<&'a Vec<DirectoryEntry>, StorageFailure>,
        Pause,
    >)
        ensures
            match result {
                Ok(Ok(value)) => old(self)@.try_entries(request@) == (
                    Ok::<Result<Seq<Entry>, StorageFailure<Text>>, Stop>(Ok(listing(value@))),
                    final(self)@,
                ),
                Ok(Err(failure)) => old(self)@.try_entries(request@) == (
                    Ok::<Result<Seq<Entry>, StorageFailure<Text>>, Stop>(Err(failure@)),
                    final(self)@,
                ),
                Err(pause) => old(self)@.try_entries(request@) == (
                    Err::<Result<Seq<Entry>, StorageFailure<Text>>, Stop>(pause@),
                    final(self)@,
                ),
            },
            result matches Err(pause) ==> pause is Ask,
    {
        let reply = self.ask(request)?;
        Ok(match reply {
            StorageReply::Entries(value) => Ok(value),
            other => Err(reply_failure(other)),
        })
    }

    /// Asks for the entries of a directory; a failure comes back as an error number.
    pub fn entries(&mut self, request: StorageRequest) -> (result: Result<&'a Vec<DirectoryEntry>, Pause>)
        ensures
            match result {
                Ok(value) => old(self)@.entries(request@) == (
                    Ok::<Seq<Entry>, Stop>(listing(value@)),
                    final(self)@,
                ),
                Err(pause) => old(self)@.entries(request@) == (
                    Err::<Seq<Entry>, Stop>(pause@),
                    final(self)@,
                ),
            },
    {
        match self.try_entries(request)? {
            Ok(value) => Ok(value),
            Err(failure) => Err(self.fail(failure)),
        }
    }

    /// Asks for a message; a failure comes back as it is.
    pub fn try_message(&mut self, request: StorageRequest) -> (result: Result<
        Result<&'a StreamMessageView, StorageFailure>,
        Pause,
    >)
        ensures
            match result {
                Ok(Ok(value)) => old(self)@.try_message(request@) == (
                    Ok::<Result<Message, StorageFailure<Text>>, Stop>(Ok(value@)),
                    final(self)@,
                ),
                Ok(Err(failure)) => old(self)@.try_message(request@) == (
                    Ok::<Result<Message, StorageFailure<Text>>, Stop>(Err(failure@)),
                    final(self)@,
                ),
                Err(pause) => old(self)@.try_message(request@) == (
                    Err::<Result<Message, StorageFailure<Text>>, Stop>(pause@),
                    final(self)@,
                ),
            },
            result matches Err(pause) ==> pause is Ask,
    {
        let reply = self.ask(request)?;
        Ok(match reply {
            StorageReply::Message(value) => Ok(value),
            other => Err(reply_failure(other)),
        })
    }

    /// Asks for a message; a failure comes back as an error number.
    pub fn message(&mut self, request: StorageRequest) -> (result: Result<&'a StreamMessageView, Pause>)
        ensures
            match result {
                Ok(value) => old(self)@.message(request@) == (
                    Ok::<Message, Stop>(value@),
                    final(self)@,
                ),
                Err(pause) => old(self)@.message(request@) == (
                    Err::<Message, Stop>(pause@),
                    final(self)@,
                ),
            },
    {
        match self.try_message(request)? {
            Ok(value) => Ok(value),
            Err(failure) => Err(self.fail(failure)),
        }
    }

    /// Asks for an object; a failure comes back as it is.
    pub fn try_object(&mut self, request: StorageRequest) -> (result: Result<
        Result<Option<&'a ObjectVersion>, StorageFailure>,
        Pause,
    >)
        ensures
            match result {
                Ok(Ok(value)) => old(self)@.try_object(request@) == (
                    Ok::<Result<Option<ObjectContent>, StorageFailure<Text>>, Stop>(Ok(option_ref_view(value))),
                    final(self)@,
                ),
                Ok(Err(failure)) => old(self)@.try_object(request@) == (
                    Ok::<Result<Option<ObjectContent>, StorageFailure<Text>>, Stop>(Err(failure@)),
                    final(self)@,
                ),
                Err(pause) => old(self)@.try_object(request@) == (
                    Err::<Result<Option<ObjectContent>, StorageFailure<Text>>, Stop>(pause@),
                    final(self)@,
                ),
            },
            result matches Err(pause) ==> pause is Ask,
    {
        let reply = self.ask(request)?;
        Ok(match reply {
            StorageReply::Object(Some(value)) => Ok(Some(value)),
            StorageReply::Object(None) => Ok(None),
            other => Err(reply_failure(other)),
        })
    }

    /// Asks for an object; a failure comes back as an error number.
    pub fn object(&mut self, request: StorageRequest) -> (result: Result<Option<&'a ObjectVersion>, Pause>)
        ensures
            match result {
                Ok(value) => old(self)@.object(request@) == (
                    Ok::<Option<ObjectContent>, Stop>(option_ref_view(value)),
                    final(self)@,
                ),
                Err(pause) => old(self)@.object(request@) == (
                    Err::<Option<ObjectContent>, Stop>(pause@),
                    final(self)@,
                ),
            },
    {
        match self.try_object(request)? {
            Ok(value) => Ok(value),
            Err(failure) => Err(self.fail(failure)),
        }
    }

    /// Asks for what is known of an object; a failure comes back as it is.
    pub fn try_object_info(&mut self, request: StorageRequest) -> (result: Result<
        Result<Option<ObjectMetadata>, StorageFailure>,
        Pause,
    >)
        ensures
            match result {
                Ok(Ok(value)) => old(self)@.try_object_info(request@) == (
                    Ok::<Result<Option<ObjectMetadata>, StorageFailure<Text>>, Stop>(Ok(value)),
                    final(self)@,
                ),
                Ok(Err(failure)) => old(self)@.try_object_info(request@) == (
                    Ok::<Result<Option<ObjectMetadata>, StorageFailure<Text>>, Stop>(Err(failure@)),
                    final(self)@,
                ),
                Err(pause) => old(self)@.try_object_info(request@) == (
                    Err::<Result<Option<ObjectMetadata>, StorageFailure<Text>>, Stop>(pause@),
                    final(self)@,
                ),
            },
            result matches Err(pause) ==> pause is Ask,
    {
        let reply = self.ask(request)?;
        Ok(match reply {
            StorageReply::ObjectInfo(value) => Ok(*value),
            other => Err(reply_failure(other)),
        })
    }

    /// Asks for what is known of an object; a failure comes back as an error number.
    pub fn object_info(&mut self, request: StorageRequest) -> (result: Result<Option<ObjectMetadata>, Pause>)
        ensures
            match result {
                Ok(value) => old(self)@.object_info(request@) == (
                    Ok::<Option<ObjectMetadata>, Stop>(value),
                    final(self)@,
                ),
                Err(pause) => old(self)@.object_info(request@) == (
                    Err::<Option<ObjectMetadata>, Stop>(pause@),
                    final(self)@,
                ),
            },
    {
        match self.try_object_info(request)? {
            Ok(value) => Ok(value),
            Err(failure) => Err(self.fail(failure)),
        }
    }

    /// Asks for a count; a failure comes back as it is.
    pub fn try_count(&mut self, request: StorageRequest) -> (result: Result<
        Result<usize, StorageFailure>,
        Pause,
    >)
        ensures
            match result {
                Ok(Ok(value)) => old(self)@.try_count(request@) == (
                    Ok::<Result<usize, StorageFailure<Text>>, Stop>(Ok(value)),
                    final(self)@,
                ),
                Ok(Err(failure)) => old(self)@.try_count(request@) == (
                    Ok::<Result<usize, StorageFailure<Text>>, Stop>(Err(failure@)),
                    final(self)@,
                ),
                Err(pause) => old(self)@.try_count(request@) == (
                    Err::<Result<usize, StorageFailure<Text>>, Stop>(pause@),
                    final(self)@,
                ),
            },
            result matches Err(pause) ==> pause is Ask,
    {
        let reply = self.ask(request)?;
        Ok(match reply {
            StorageReply::Count(value) => Ok(*value),
            other => Err(reply_failure(other)),
        })
    }

    /// Asks for a remembered file; a failure comes back as it is.
    pub fn try_cached(&mut self, request: StorageRequest) -> (result: Result<
        Result<Option<&'a FileSnapshot>, StorageFailure>,
        Pause,
    >)
        ensures
            match result {
                Ok(Ok(value)) => old(self)@.try_cached(request@) == (
                    Ok::<Result<Option<Snapshot>, StorageFailure<Text>>, Stop>(Ok(option_ref_view(value))),
                    final(self)@,
                ),
                Ok(Err(failure)) => old(self)@.try_cached(request@) == (
                    Ok::<Result<Option<Snapshot>, StorageFailure<Text>>, Stop>(Err(failure@)),
                    final(self)@,
                ),
                Err(pause) => old(self)@.try_cached(request@) == (
                    Err::<Result<Option<Snapshot>, StorageFailure<Text>>, Stop>(pause@),
                    final(self)@,
                ),
            },
            result matches Err(pause) ==> pause is Ask,
    {
        let reply = self.ask(request)?;
        Ok(match reply {
            StorageReply::Cached(Some(value)) => Ok(Some(value)),
            StorageReply::Cached(None) => Ok(None),
            other => Err(reply_failure(other)),
        })
    }

    /// Asks for a remembered file; a failure comes back as an error number.
    pub fn cached(&mut self, request: StorageRequest) -> (result: Result<Option<&'a FileSnapshot>, Pause>)
        ensures
            match result {
                Ok(value) => old(self)@.cached(request@) == (
                    Ok::<Option<Snapshot>, Stop>(option_ref_view(value)),
                    final(self)@,
                ),
                Err(pause) => old(self)@.cached(request@) == (
                    Err::<Option<Snapshot>, Stop>(pause@),
                    final(self)@,
                ),
            },
    {
        match self.try_cached(request)? {
            Ok(value) => Ok(value),
            Err(failure) => Err(self.fail(failure)),
        }
    }

    /// Asks for a yes or no; a failure comes back as it is.
    pub fn try_flag(&mut self, request: StorageRequest) -> (result: Result<
        Result<bool, StorageFailure>,
        Pause,
    >)
        ensures
            match result {
                Ok(Ok(value)) => old(self)@.try_flag(request@) == (
                    Ok::<Result<bool, StorageFailure<Text>>, Stop>(Ok(value)),
                    final(self)@,
                ),
                Ok(Err(failure)) => old(self)@.try_flag(request@) == (
                    Ok::<Result<bool, StorageFailure<Text>>, Stop>(Err(failure@)),
                    final(self)@,
                ),
                Err(pause) => old(self)@.try_flag(request@) == (
                    Err::<Result<bool, StorageFailure<Text>>, Stop>(pause@),
                    final(self)@,
                ),
            },
            result matches Err(pause) ==> pause is Ask,
    {
        let reply = self.ask(request)?;
        Ok(match reply {
            StorageReply::Flag(value) => Ok(*value),
            other => Err(reply_failure(other)),
        })
    }

    /// Asks for a yes or no; a failure comes back as an error number.
    pub fn flag(&mut self, request: StorageRequest) -> (result: Result<bool, Pause>)
        ensures
            match result {
                Ok(value) => old(self)@.flag(request@) == (
                    Ok::<bool, Stop>(value),
                    final(self)@,
                ),
                Err(pause) => old(self)@.flag(request@) == (
                    Err::<bool, Stop>(pause@),
                    final(self)@,
                ),
            },
    {
        match self.try_flag(request)? {
            Ok(value) => Ok(value),
            Err(failure) => Err(self.fail(failure)),
        }
    }

    /// Asks for a time; a failure comes back as it is.
    pub fn try_time(&mut self, request: StorageRequest) -> (result: Result<
        Result<Time, StorageFailure>,
        Pause,
    >)
        ensures
            match result {
                Ok(Ok(value)) => old(self)@.try_time(request@) == (
                    Ok::<Result<Time, StorageFailure<Text>>, Stop>(Ok(value)),
                    final(self)@,
                ),
                Ok(Err(failure)) => old(self)@.try_time(request@) == (
                    Ok::<Result<Time, StorageFailure<Text>>, Stop>(Err(failure@)),
                    final(self)@,
                ),
                Err(pause) => old(self)@.try_time(request@) == (
                    Err::<Result<Time, StorageFailure<Text>>, Stop>(pause@),
                    final(self)@,
                ),
            },
            result matches Err(pause) ==> pause is Ask,
    {
        let reply = self.ask(request)?;
        Ok(match reply {
            StorageReply::Time(value) => Ok(*value),
            other => Err(reply_failure(other)),
        })
    }

    /// Asks for a time; a failure comes back as an error number.
    pub fn time(&mut self, request: StorageRequest) -> (result: Result<Time, Pause>)
        ensures
            match result {
                Ok(value) => old(self)@.time(request@) == (
                    Ok::<Time, Stop>(value),
                    final(self)@,
                ),
                Err(pause) => old(self)@.time(request@) == (
                    Err::<Time, Stop>(pause@),
                    final(self)@,
                ),
            },
    {
        match self.try_time(request)? {
            Ok(value) => Ok(value),
            Err(failure) => Err(self.fail(failure)),
        }
    }

    /// Asks for something to be done; a failure comes back as it is.
    pub fn try_done(&mut self, request: StorageRequest) -> (result: Result<
        Result<(), StorageFailure>,
        Pause,
    >)
        ensures
            match result {
                Ok(Ok(value)) => old(self)@.try_done(request@) == (
                    Ok::<Result<(), StorageFailure<Text>>, Stop>(Ok(())),
                    final(self)@,
                ),
                Ok(Err(failure)) => old(self)@.try_done(request@) == (
                    Ok::<Result<(), StorageFailure<Text>>, Stop>(Err(failure@)),
                    final(self)@,
                ),
                Err(pause) => old(self)@.try_done(request@) == (
                    Err::<Result<(), StorageFailure<Text>>, Stop>(pause@),
                    final(self)@,
                ),
            },
            result matches Err(pause) ==> pause is Ask,
    {
        let reply = self.ask(request)?;
        Ok(match reply {
            StorageReply::Done => Ok(()),
            other => Err(reply_failure(other)),
        })
    }

    /// Asks for something to be done; a failure comes back as an error number.
    pub fn done(&mut self, request: StorageRequest) -> (result: Result<(), Pause>)
        ensures
            match result {
                Ok(value) => old(self)@.done(request@) == (
                    Ok::<(), Stop>(()),
                    final(self)@,
                ),
                Err(pause) => old(self)@.done(request@) == (Err::<(), Stop>(pause@), final(self)@),
            },
    {
        match self.try_done(request)? {
            Ok(value) => Ok(value),
            Err(failure) => Err(self.fail(failure)),
        }
    }
}

/// The failure that a reply reports.
pub fn reply_failure(reply: &StorageReply) -> (failure: StorageFailure)
    ensures
        failure@ == failure_in(reply@),
{
    match reply {
        StorageReply::Failed(StorageFailure::NotFound) => StorageFailure::NotFound,
        StorageReply::Failed(StorageFailure::Other(message)) => StorageFailure::Other(
            message.clone(),
        ),
        _ => StorageFailure::Other(UNEXPECTED_REPLY.to_owned()),
    }
}

} // verus!
