//! A storage that does what it is asked: a model by which it can be said what the
//! operations of the mount come to.
//!
//! A conversation with a [`Store`] goes on as a mount has it: as long as an operation
//! stops with a request, the store answers it, the reply is added, and the operation is
//! run again. Which requests fail, and with what, is the store's own affair: laws hold
//! whatever fails.

use vstd::prelude::*;

use crate::entries::Entry;
use crate::inquiry::{
    FailedWriteOperation, KeyRevision, Message, ObjectContent, ObjectMetadata, ObjectVersion,
    Pause, QueuedOperation, QueuedWrite, Remembered, Reply, Request, Revision, Step, Stop,
    StorageFailure, StorageRequest, Talk,
};
use crate::mount_paths::mount_text;
use crate::overlay::FileSnapshot;
use crate::text::Text;
use crate::versions::Time;

verus! {

/// Lines that were appended to a log: those of the bytes behind the ones that the log
/// had taken before.
pub struct Appended {
    pub stream: Text,
    pub subject: Text,
    pub bytes: Seq<u8>,
    pub skipped: usize,
}

/// A storage with its queue and what is remembered of files.
pub struct Store {
    /// Whether writes are accepted.
    pub gate: bool,
    /// Whether writes have just stopped being accepted when that is looked up again.
    pub closing: bool,
    pub now: Time,
    /// The number of the next revision or object.
    pub next: u64,
    pub nuid: Text,
    pub values: Map<(Text, Text), Revision>,
    pub revisions: Map<(Text, Text, u64), Revision>,
    pub histories: spec_fn((Text, Text)) -> Seq<Revision>,
    pub objects: Map<(Text, Text), ObjectContent>,
    pub messages: Map<(Text, u64), Message>,
    pub appended: Seq<Appended>,
    pub queue: Seq<QueuedWrite>,
    pub memory: Map<Text, Remembered>,
    /// What was made sure of: buckets and streams.
    pub ensured: Set<Request>,
    /// Which paths were made stale, lost their inode, or might have changed, in order.
    pub marks: Seq<Request>,
    /// What a directory of the storage lists.
    pub listed: spec_fn(Request) -> Seq<Entry>,
    pub named: spec_fn(Request) -> Seq<Text>,
    pub applied: spec_fn(Request) -> usize,
    /// Which requests fail.
    pub fails: spec_fn(Request) -> Option<StorageFailure<Text>>,
}

/// The entry under a key, if there is one.
pub open spec fn entry_of<K, V>(map: Map<K, V>, key: K) -> Option<V> {
    if map.dom().contains(key) {
        Some(map[key])
    } else {
        None
    }
}

/// What is known of an object without its content.
pub open spec fn info_of(object: ObjectContent) -> ObjectMetadata {
    ObjectMetadata { size: object.bytes.len() as u64, modified: object.modified }
}

impl Store {
    /// Whether a request is carried out.
    pub open spec fn grants(self, request: Request) -> bool {
        (self.fails)(request) is None
    }

    /// The revision that a value gets now.
    pub open spec fn revision(self, bytes: Seq<u8>) -> Revision {
        KeyRevision { revision: self.next, created: self.now, bytes }
    }

    /// The version that an object gets now.
    pub open spec fn version(self, bytes: Seq<u8>) -> ObjectContent {
        ObjectVersion { sequence: self.next, nuid: self.nuid, modified: self.now, bytes }
    }

    /// With a value under a key.
    pub open spec fn with_value(self, bucket: Text, key: Text, bytes: Seq<u8>) -> Store {
        Store {
            next: (self.next + 1) as u64,
            values: self.values.insert((bucket, key), self.revision(bytes)),
            revisions: self.revisions.insert((bucket, key, self.next), self.revision(bytes)),
            ..self
        }
    }

    /// With an object.
    pub open spec fn with_object(self, bucket: Text, object: Text, bytes: Seq<u8>) -> Store {
        Store {
            next: (self.next + 1) as u64,
            objects: self.objects.insert((bucket, object), self.version(bytes)),
            ..self
        }
    }

    /// With lines at the end of a log.
    pub open spec fn with_lines(self, lines: Appended) -> Store {
        Store { appended: self.appended.push(lines), ..self }
    }

    /// Without the value of a key.
    pub open spec fn without_value(self, bucket: Text, key: Text) -> Store {
        Store { values: self.values.remove((bucket, key)), ..self }
    }

    /// Without an object.
    pub open spec fn without_object(self, bucket: Text, object: Text) -> Store {
        Store { objects: self.objects.remove((bucket, object)), ..self }
    }

    /// After something was marked.
    pub open spec fn marked(self, mark: Request) -> Store {
        Store { marks: self.marks.push(mark), ..self }
    }

    /// After a queued operation was made good.
    pub open spec fn made_good(self, operation: QueuedOperation) -> Store {
        match operation {
            FailedWriteOperation::KvPut { bucket, key, bytes } => self.with_value(
                bucket,
                key,
                bytes,
            ),
            FailedWriteOperation::MaterializedPut { bucket, key, bytes } => self.with_value(
                bucket,
                key,
                bytes,
            ),
            FailedWriteOperation::ObjectPut { bucket, object, bytes } => self.with_object(
                bucket,
                object,
                bytes,
            ),
            FailedWriteOperation::PublishJsonLines { stream, subject, bytes, applied_lines } => {
                self.with_lines(Appended { stream, subject, bytes, skipped: applied_lines })
            },
            FailedWriteOperation::KvRenameComplete {
                from_bucket,
                from_key,
                source_revision: _,
                to_bucket,
                to_key,
                bytes,
            } => self.without_value(from_bucket, from_key).with_value(to_bucket, to_key, bytes),
            FailedWriteOperation::ObjectRenameComplete {
                from_bucket,
                from_object,
                source_sequence: _,
                source_nuid: _,
                to_bucket,
                to_object,
                bytes,
            } => self.without_object(from_bucket, from_object).with_object(
                to_bucket,
                to_object,
                bytes,
            ),
        }
    }

    /// After queued writes were made good, one after another.
    pub open spec fn worked_off(self, writes: Seq<QueuedWrite>) -> Store
        decreases writes.len(),
    {
        if writes.len() == 0 {
            Store { queue: Seq::empty(), ..self }
        } else {
            self.worked_off(writes.drop_last()).made_good(writes.last().operation)
        }
    }

    /// The reply to a request.
    pub open spec fn reply(self, request: Request) -> Reply {
        match (self.fails)(request) {
            Some(failure) => Reply::Failed(failure),
            None => match request {
                StorageRequest::KvGet { bucket, key } => Reply::Value(
                    entry_of(self.values, (bucket, key)),
                ),
                StorageRequest::KvRevision { bucket, key, revision } => Reply::Value(
                    entry_of(self.revisions, (bucket, key, revision)),
                ),
                StorageRequest::KvHistory { bucket, key } => Reply::Revisions(
                    (self.histories)((bucket, key)),
                ),
                StorageRequest::ListKvBuckets
                | StorageRequest::ListStreams
                | StorageRequest::ListObjectBuckets
                | StorageRequest::ListAgentNames => Reply::Names((self.named)(request)),
                StorageRequest::ListKvPrefix { .. }
                | StorageRequest::ListKvHistoryPrefix { .. }
                | StorageRequest::ListStreamMessages { .. }
                | StorageRequest::ListStreamSubjects { .. }
                | StorageRequest::ListObjectPrefix { .. } => Reply::Entries(
                    (self.listed)(request),
                ),
                StorageRequest::StreamMessage { stream, sequence } => match entry_of(
                    self.messages,
                    (stream, sequence),
                ) {
                    Some(message) => Reply::Message(message),
                    None => Reply::Failed(StorageFailure::NotFound),
                },
                StorageRequest::ObjectGet { bucket, object } => Reply::Object(
                    entry_of(self.objects, (bucket, object)),
                ),
                StorageRequest::ObjectMetadata { bucket, object } => Reply::ObjectInfo(
                    match entry_of(self.objects, (bucket, object)) {
                        Some(object) => Some(info_of(object)),
                        None => None,
                    },
                ),
                StorageRequest::AppliedJsonLines { .. } => Reply::Count((self.applied)(request)),
                StorageRequest::CachedFile { path } => Reply::Cached(
                    match entry_of(self.memory, path) {
                        Some(entry) => Some(
                            FileSnapshot { bytes: entry.bytes, version: entry.version },
                        ),
                        None => None,
                    },
                ),
                StorageRequest::WriteGate => Reply::Flag(self.gate),
                StorageRequest::SyncWriteGate => Reply::Flag(self.closing),
                StorageRequest::CurrentTime => Reply::Time(self.now),
                _ => Reply::Done,
            },
        }
    }

    /// The store after a request. One that fails changes nothing.
    pub open spec fn after(self, request: Request) -> Store {
        if !self.grants(request) {
            self
        } else {
            match request {
                StorageRequest::KvPut { bucket, key, bytes, .. } => self.with_value(
                    bucket,
                    key,
                    bytes,
                ),
                StorageRequest::ObjectPut { bucket, object, bytes, .. } => self.with_object(
                    bucket,
                    object,
                    bytes,
                ),
                StorageRequest::PublishJsonLines { stream, subject, bytes, .. } => self.with_lines(
                    Appended { stream, subject, bytes, skipped: 0 },
                ),
                StorageRequest::KvDelete { bucket, key } => self.without_value(bucket, key),
                StorageRequest::ObjectDelete { bucket, object } => self.without_object(
                    bucket,
                    object,
                ),
                StorageRequest::EnsureKvBucket { .. }
                | StorageRequest::EnsureStream { .. }
                | StorageRequest::EnsureObjectBucket { .. } => Store {
                    ensured: self.ensured.insert(request),
                    ..self
                },
                StorageRequest::Enqueue { write } => Store { queue: self.queue.push(write), ..self },
                StorageRequest::ReplayQueue => self.worked_off(self.queue),
                StorageRequest::RememberFile { entry } => Store {
                    memory: self.memory.insert(entry.path, entry),
                    ..self
                },
                StorageRequest::InvalidateLocal { path } => Store {
                    memory: self.memory.remove(mount_text(path)),
                    ..self.marked(request)
                },
                StorageRequest::InvalidateSubtree { .. }
                | StorageRequest::InvalidateAll
                | StorageRequest::WatchGap => Store { memory: Map::empty(), ..self.marked(request) },
                StorageRequest::ForgetPath { .. } => self.marked(request),
                _ => self,
            }
        }
    }
}

impl Talk {
    /// The conversation with one more reply in it.
    pub open spec fn told(self, reply: Reply) -> Talk {
        Talk { replies: self.replies.push(reply), ..self }
    }

    /// The conversation with more replies in it.
    pub open spec fn extended(self, more: Seq<Reply>) -> Talk {
        Talk { replies: self.replies + more, ..self }
    }

    /// Whether every reply was used.
    pub open spec fn listening(self) -> bool {
        self.used == self.replies.len()
    }
}

/// What an operation comes to in a conversation with a store of so many turns at most:
/// its result, the store and the conversation after it.
pub open spec fn run<T>(
    operation: spec_fn(Talk) -> Step<T>,
    store: Store,
    talk: Talk,
    turns: nat,
) -> (Result<T, Stop>, Store, Talk)
    decreases turns,
{
    match operation(talk).0 {
        Err(Pause::Ask(request)) if turns > 0 => run(
            operation,
            store.after(request),
            talk.told(store.reply(request)),
            (turns - 1) as nat,
        ),
        result => (result, store, operation(talk).1),
    }
}

/// Whether an operation goes on from one state of a conversation as another operation
/// goes on from another state, whatever is replied.
pub open spec fn goes_on_as<T>(
    operation: spec_fn(Talk) -> Step<T>,
    talk: Talk,
    other: spec_fn(Talk) -> Step<T>,
    later: Talk,
) -> bool {
    forall|more: Seq<Reply>| #[trigger]
        operation(talk.extended(more)) == other(later.extended(more))
}

/// Operations that go on alike come to the same.
pub proof fn lemma_goes_on<T>(
    operation: spec_fn(Talk) -> Step<T>,
    talk: Talk,
    other: spec_fn(Talk) -> Step<T>,
    later: Talk,
    store: Store,
    turns: nat,
)
    requires
        goes_on_as(operation, talk, other, later),
    ensures
        run(operation, store, talk, turns) == run(other, store, later, turns),
    decreases turns,
{
    let none = Seq::<Reply>::empty();
    assert(talk.replies + none =~= talk.replies);
    assert(later.replies + none =~= later.replies);
    assert(operation(talk.extended(none)) == other(later.extended(none)));
    if let Err(Pause::Ask(request)) = operation(talk).0 {
        if turns > 0 {
            let reply = store.reply(request);
            assert forall|more: Seq<Reply>| #[trigger]
                operation(talk.told(reply).extended(more)) == other(
                    later.told(reply).extended(more),
                ) by {
                let all = seq![reply] + more;
                assert(talk.replies.push(reply) + more =~= talk.replies + all);
                assert(later.replies.push(reply) + more =~= later.replies + all);
                assert(operation(talk.extended(all)) == other(later.extended(all)));
            }
            lemma_goes_on(
                operation,
                talk.told(reply),
                other,
                later.told(reply),
                store.after(request),
                (turns - 1) as nat,
            );
        }
    }
}

/// One turn of a conversation: a request is answered, and the operation goes on as
/// another one.
pub proof fn lemma_turn<T>(
    operation: spec_fn(Talk) -> Step<T>,
    talk: Talk,
    request: Request,
    other: spec_fn(Talk) -> Step<T>,
    store: Store,
    turns: nat,
)
    requires
        turns > 0,
        talk.listening(),
        operation(talk).0 == Err::<T, Stop>(Pause::Ask(request)),
        goes_on_as(
            operation,
            talk.told(store.reply(request)),
            other,
            talk.told(store.reply(request)).heard(),
        ),
    ensures
        run(operation, store, talk, turns) == run(
            other,
            store.after(request),
            talk.told(store.reply(request)).heard(),
            (turns - 1) as nat,
        ),
        talk.told(store.reply(request)).heard().listening(),
{
    let next = talk.told(store.reply(request));
    lemma_goes_on(
        operation,
        next,
        other,
        next.heard(),
        store.after(request),
        (turns - 1) as nat,
    );
}

/// The end of a conversation.
pub proof fn lemma_end<T>(operation: spec_fn(Talk) -> Step<T>, store: Store, talk: Talk, turns: nat)
    requires
        !(operation(talk).0 matches Err(Pause::Ask(_))),
    ensures
        run(operation, store, talk, turns) == (operation(talk).0, store, operation(talk).1),
{
}

} // verus!
