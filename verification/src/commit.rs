//! Committing what was written: checking it, storing it, and queueing it where the
//! storage fails.

use vstd::prelude::*;

use crate::directories::{directory_listing_unavailable, unavailable};
use crate::durable::{jsonl_target_for_path, log_target, read_stream_subject, subject_log};
use crate::encoding::utf8_text;
use crate::errno;
use crate::errors::EventFsError;
use crate::files::memory_of;
use crate::inquiry::{
    plain_outcome, CacheEntry, CacheOrigin, FailedWrite, FailedWriteOperation, Inquiry, Pause,
    QueuedOperation, Remembered, Step, Stop, StorageFailure, StorageRequest, Talk,
};
use crate::json::{document_complaint, lines_complaint, validate_json_document, validate_json_lines};
use crate::jsonl::{
    action_publishes_jsonl, applied_prefix, canonical_lines, copy_bytes, jsonl_applied_prefix_count,
    law_applied_lines_are_in_the_log, publishes,
};
use crate::keys::{idempotency_key, write_key};
use crate::mount_paths::{mount_text, Components, MountPath};
use crate::numbers::{signed_decimal, signed_text};
use crate::overlay::FileSnapshot;
use crate::path::JetStreamPath;
use crate::plan::{plan_operation, write_plan, Action, FileIntent, JetStreamAction};
use crate::subjects::MaterializedTarget;
use crate::text::{concat2, concat3, option_view, Text};
use crate::upkeep::{
    describe_failure, ensure_writes_allowed, failure_text, gate_passed, gate_synced, invalidated,
    invalidate_after_local_mutation, sync_writeback_gate,
};
use crate::versions::{Time, VersionStamp};

verus! {

// ---------------------------------------------------------------------------
// What may be written
// ---------------------------------------------------------------------------

/// Whether bytes may be written: lines have to be JSON, and so do records.
pub open spec fn acceptable(action: Action, bytes: Seq<u8>) -> bool {
    if publishes(action) {
        lines_complaint(bytes) is None
    } else if action is MaterializedPut {
        document_complaint(bytes) is None
    } else {
        true
    }
}

// ---------------------------------------------------------------------------
// Storing
// ---------------------------------------------------------------------------

/// Asks the storage for a write. A record that is not JSON is refused before that.
pub open spec fn stored(talk: Talk, action: Action, bytes: Seq<u8>, key: Text) -> Step<
    Result<(), StorageFailure<Text>>,
> {
    match action {
        JetStreamAction::KvPut { bucket, key: name } => talk.try_done(
            StorageRequest::KvPut { bucket, key: name, bytes, idempotency_key: key },
        ),
        JetStreamAction::ObjectPut { bucket, object } => talk.try_done(
            StorageRequest::ObjectPut { bucket, object, bytes, idempotency_key: key },
        ),
        JetStreamAction::PublishJsonLines { stream, subject } => talk.try_done(
            StorageRequest::PublishJsonLines { stream, subject, bytes, idempotency_key: key },
        ),
        JetStreamAction::MaterializedPut {
            target: MaterializedTarget::Stream { stream, subject },
        } => talk.try_done(
            StorageRequest::PublishJsonLines { stream, subject, bytes, idempotency_key: key },
        ),
        JetStreamAction::MaterializedPut {
            target: MaterializedTarget::Kv { bucket, key: name },
        } => match document_complaint(bytes) {
            Some(complaint) => (
                Ok(Err(StorageFailure::Other(EventFsError::bad_json(name, complaint).sentence()))),
                talk,
            ),
            None => talk.try_done(
                StorageRequest::KvPut { bucket, key: name, bytes, idempotency_key: key },
            ),
        },
        _ => (Ok(Err(StorageFailure::Other("not a write"@))), talk),
    }
}

/// What is to be remembered of a write that was stored: what the storage then has.
pub open spec fn memory_after(talk: Talk, path: Components, action: Action, bytes: Seq<u8>) -> Step<
    Result<Option<Remembered>, StorageFailure<Text>>,
> {
    match action {
        JetStreamAction::KvPut { bucket, key } => {
            let (value, talk) = talk.try_value(StorageRequest::KvGet { bucket, key });
            match value {
                Err(stop) => (Err(stop), talk),
                Ok(Err(failure)) => (Ok(Err(failure)), talk),
                Ok(Ok(None)) => (Ok(Ok(None)), talk),
                Ok(Ok(Some(entry))) => (
                    Ok(
                        Ok(
                            Some(
                                memory_of(
                                    path,
                                    CacheOrigin::KvRevision {
                                        bucket,
                                        key,
                                        revision: entry.revision,
                                    },
                                    FileSnapshot {
                                        bytes: entry.bytes,
                                        version: VersionStamp::of(entry.created),
                                    },
                                ),
                            ),
                        ),
                    ),
                    talk,
                ),
            }
        },
        JetStreamAction::ObjectPut { bucket, object } => {
            let (info, talk) = talk.try_object_info(
                StorageRequest::ObjectMetadata { bucket, object },
            );
            match info {
                Err(stop) => (Err(stop), talk),
                Ok(Err(failure)) => (Ok(Err(failure)), talk),
                Ok(Ok(None)) => (Ok(Ok(None)), talk),
                Ok(Ok(Some(info))) => (
                    Ok(
                        Ok(
                            Some(
                                memory_of(
                                    path,
                                    CacheOrigin::ObjectVersion { bucket, object },
                                    FileSnapshot { bytes, version: VersionStamp::of(info.modified) },
                                ),
                            ),
                        ),
                    ),
                    talk,
                ),
            }
        },
        JetStreamAction::MaterializedPut { target: MaterializedTarget::Kv { bucket, key } } => {
            let (value, talk) = talk.try_value(StorageRequest::KvGet { bucket, key });
            match value {
                Err(stop) => (Err(stop), talk),
                Ok(Err(failure)) => (Ok(Err(failure)), talk),
                Ok(Ok(None)) => (Ok(Ok(None)), talk),
                Ok(Ok(Some(entry))) => (
                    Ok(
                        Ok(
                            Some(
                                memory_of(
                                    path,
                                    CacheOrigin::MaterializedView { path: mount_text(path) },
                                    FileSnapshot {
                                        bytes: entry.bytes,
                                        version: VersionStamp::of(entry.created),
                                    },
                                ),
                            ),
                        ),
                    ),
                    talk,
                ),
            }
        },
        _ => (Ok(Ok(None)), talk),
    }
}

/// What follows a write that was stored: what it touches is stale, and it is
/// remembered anew. That it cannot be remembered is only a complaint.
pub open spec fn written(talk: Talk, path: Components, action: Action, bytes: Seq<u8>) -> Step<()> {
    let (done, talk) = invalidated(talk, path);
    match done {
        Err(stop) => (Err(stop), talk),
        Ok(()) => {
            let (memory, talk) = memory_after(talk, path, action, bytes);
            match memory {
                Err(stop) => (Err(stop), talk),
                Ok(Ok(Some(entry))) => talk.done(StorageRequest::RememberFile { entry }),
                Ok(Ok(None)) => (Ok(()), talk),
                Ok(Err(failure)) => (
                    Ok(()),
                    talk.complaining(
                        "cache refresh after write failed for "@ + mount_text(path) + ": "@
                            + failure_text(failure),
                    ),
                ),
            }
        },
    }
}

// ---------------------------------------------------------------------------
// Queueing
// ---------------------------------------------------------------------------

/// What a log holds, nothing where it cannot be had; `None` with a complaint where it
/// fails otherwise.
pub open spec fn log_now(
    talk: Talk,
    what: Text,
    stream: Text,
    subject: Text,
    mounted_at: Time,
) -> Step<Option<Seq<u8>>> {
    let (log, talk) = subject_log(talk, stream, subject, true, mounted_at);
    match log {
        Ok(log) => (Ok(Some(log.bytes)), talk),
        Err(Pause::Ask(request)) => (Err(Pause::Ask(request)), talk),
        Err(Pause::Fail(number)) => if unavailable(number) {
            (Ok(Some(Seq::empty())), talk)
        } else {
            (
                Ok(None),
                talk.complaining(
                    what + " snapshot unavailable for "@ + stream + (":"@ + subject + ": errno "@)
                        + signed_decimal(number as int),
                ),
            )
        },
    }
}

/// What a log held before lines are appended to it.
pub open spec fn log_before(
    talk: Talk,
    parsed: JetStreamPath<Text>,
    action: Action,
    mounted_at: Time,
) -> Step<Option<Seq<u8>>> {
    if !publishes(action) {
        (Ok(None), talk)
    } else {
        match log_target(parsed) {
            None => (Ok(None), talk),
            Some((stream, subject)) => log_now(talk, "jsonl base"@, stream, subject, mounted_at),
        }
    }
}

/// How many lines a log took of those that are queued for it: none where that cannot
/// be told.
pub open spec fn lines_taken(base: Seq<u8>, current: Seq<u8>, pending: Seq<u8>) -> nat {
    match (utf8_text(base), utf8_text(current), utf8_text(pending)) {
        (Ok(base), Ok(current), Ok(pending)) => applied_prefix(
            canonical_lines(base),
            canonical_lines(current),
            canonical_lines(pending),
        ),
        _ => 0,
    }
}

/// How many lines a log has taken since it was seen.
pub open spec fn progress(
    talk: Talk,
    stream: Text,
    subject: Text,
    bytes: Seq<u8>,
    base: Option<Seq<u8>>,
    mounted_at: Time,
) -> Step<usize> {
    match base {
        None => (Ok(0), talk),
        Some(base) => {
            let (current, talk) = log_now(talk, "jsonl progress"@, stream, subject, mounted_at);
            match current {
                Err(stop) => (Err(stop), talk),
                Ok(None) => (Ok(0), talk),
                Ok(Some(current)) => (Ok(lines_taken(base, current, bytes) as usize), talk),
            }
        },
    }
}

/// The operation that is queued for an action.
pub open spec fn operation_for(
    talk: Talk,
    action: Action,
    bytes: Seq<u8>,
    base: Option<Seq<u8>>,
    mounted_at: Time,
) -> Step<Option<QueuedOperation>> {
    match action {
        JetStreamAction::KvPut { bucket, key } => (
            Ok(Some(FailedWriteOperation::KvPut { bucket, key, bytes })),
            talk,
        ),
        JetStreamAction::ObjectPut { bucket, object } => (
            Ok(Some(FailedWriteOperation::ObjectPut { bucket, object, bytes })),
            talk,
        ),
        JetStreamAction::MaterializedPut { target: MaterializedTarget::Kv { bucket, key } } => (
            Ok(Some(FailedWriteOperation::MaterializedPut { bucket, key, bytes })),
            talk,
        ),
        JetStreamAction::PublishJsonLines { stream, subject }
        | JetStreamAction::MaterializedPut {
            target: MaterializedTarget::Stream { stream, subject },
        } => {
            let (applied, talk) = progress(talk, stream, subject, bytes, base, mounted_at);
            match applied {
                Err(stop) => (Err(stop), talk),
                Ok(applied_lines) => (
                    Ok(
                        Some(
                            FailedWriteOperation::PublishJsonLines {
                                stream,
                                subject,
                                bytes,
                                applied_lines,
                            },
                        ),
                    ),
                    talk,
                ),
            }
        },
        _ => (Ok(None), talk),
    }
}

/// Puts an operation into the queue, under the time of now.
pub open spec fn queued_now(talk: Talk, path: Components, key: Text, operation: QueuedOperation) -> Step<
    Result<(), StorageFailure<Text>>,
> {
    let (now, talk) = talk.time(StorageRequest::CurrentTime);
    match now {
        Err(stop) => (Err(stop), talk),
        Ok(now) => talk.try_done(
            StorageRequest::Enqueue {
                write: FailedWrite {
                    idempotency_key: key,
                    version: VersionStamp::of(now),
                    path,
                    operation,
                },
            },
        ),
    }
}

/// Queues an action.
pub open spec fn enqueued(
    talk: Talk,
    path: Components,
    action: Action,
    bytes: Seq<u8>,
    key: Text,
    base: Option<Seq<u8>>,
    mounted_at: Time,
) -> Step<Result<(), StorageFailure<Text>>> {
    let (operation, talk) = operation_for(talk, action, bytes, base, mounted_at);
    match operation {
        Err(stop) => (Err(stop), talk),
        Ok(None) => (Ok(Ok(())), talk),
        Ok(Some(operation)) => queued_now(talk, path, key, operation),
    }
}

/// What is complained of where a queued write closes the write gate.
pub open spec fn queue_complaint() -> Text {
    "writeback queue has pending entries after a queued write; mount is read-only"@
}

/// What follows a write that failed: it is queued, and what it touches is stale.
pub open spec fn put_off(
    talk: Talk,
    path: Components,
    action: Action,
    bytes: Seq<u8>,
    key: Text,
    base: Option<Seq<u8>>,
    mounted_at: Time,
) -> Step<()> {
    let (queued, talk) = enqueued(talk, path, action, bytes, key, base, mounted_at);
    match queued {
        Err(stop) => (Err(stop), talk),
        Ok(Err(failure)) => talk.fail(failure),
        Ok(Ok(())) => {
            let (done, talk) = invalidated(talk, path);
            match done {
                Err(stop) => (Err(stop), talk),
                Ok(()) => gate_synced(talk, queue_complaint()),
            }
        },
    }
}

// ---------------------------------------------------------------------------
// Committing
// ---------------------------------------------------------------------------

/// Stores a write that may be made, or queues it.
pub open spec fn stored_or_queued(
    talk: Talk,
    path: Components,
    parsed: JetStreamPath<Text>,
    action: Action,
    bytes: Seq<u8>,
    seed: Text,
    mounted_at: Time,
) -> Step<()> {
    let key = write_key(mount_text(path), bytes, seed);
    let (base, talk) = log_before(talk, parsed, action, mounted_at);
    match base {
        Err(stop) => (Err(stop), talk),
        Ok(base) => {
            let (outcome, talk) = stored(talk, action, bytes, key);
            match outcome {
                Err(stop) => (Err(stop), talk),
                Ok(Ok(())) => written(talk, path, action, bytes),
                Ok(Err(failure)) => put_off(
                    talk.complaining(
                        "commit queued for "@ + mount_text(path) + ": "@ + failure_text(failure),
                    ),
                    path,
                    action,
                    bytes,
                    key,
                    base,
                    mounted_at,
                ),
            }
        },
    }
}

/// Commits bytes to a path.
pub open spec fn committed(
    talk: Talk,
    path: Components,
    bytes: Seq<u8>,
    seed: Text,
    mounted_at: Time,
) -> Step<()> {
    let (allowed, talk) = gate_passed(talk);
    match allowed {
        Err(stop) => (Err(stop), talk),
        Ok(()) => match JetStreamPath::parsed(mount_text(path)) {
            Err(error) => (Err(Pause::Fail(error.number().0)), talk),
            Ok(parsed) => match write_plan(parsed) {
                Err(error) => (Err(Pause::Fail(error.number().0)), talk),
                Ok(action) => if acceptable(action, bytes) {
                    stored_or_queued(talk, path, parsed, action, bytes, seed, mounted_at)
                } else {
                    (Err(Pause::Fail(errno::EINVAL)), talk)
                },
            },
        },
    }
}

// ---------------------------------------------------------------------------
// Laws
// ---------------------------------------------------------------------------

/// What may not be written is never handed to the storage nor queued: after the write
/// gate nothing is asked.
pub proof fn law_unacceptable_writes_leave_no_trace(
    talk: Talk,
    path: Components,
    bytes: Seq<u8>,
    seed: Text,
    mounted_at: Time,
)
    requires
        match JetStreamPath::parsed(mount_text(path)) {
            Err(_) => true,
            Ok(parsed) => match write_plan(parsed) {
                Err(_) => true,
                Ok(action) => !acceptable(action, bytes),
            },
        },
    ensures
        committed(talk, path, bytes, seed, mounted_at).1 == gate_passed(talk).1,
        committed(talk, path, bytes, seed, mounted_at).0 is Err,
{
}

/// A write that the storage refuses is not lost. What is queued is the whole of what was
/// written, and the commit succeeds exactly where the queue takes it and the steps that
/// follow, making stale what it touches and bringing the write gate up to date, are
/// done.
pub proof fn law_refused_writes_are_queued(
    talk: Talk,
    path: Components,
    action: Action,
    bytes: Seq<u8>,
    key: Text,
    base: Option<Seq<u8>>,
    mounted_at: Time,
)
    requires
        action is KvPut || action is ObjectPut || action is PublishJsonLines || action is MaterializedPut,
    ensures
        ({
            let (operation, asking) = operation_for(talk, action, bytes, base, mounted_at);
            &&& operation matches Ok(operation) ==> operation is Some && payload_of(
                operation.unwrap(),
            ) == bytes
            &&& put_off(talk, path, action, bytes, key, base, mounted_at).0 is Ok <==> (operation matches Ok(
                Some(operation),
            ) && ({
                let (queued, talk) = queued_now(asking, path, key, operation);
                let (done, talk) = invalidated(talk, path);
                &&& queued == Ok::<Result<(), StorageFailure<Text>>, Stop>(Ok(()))
                &&& done is Ok
                &&& gate_synced(talk, queue_complaint()).0 is Ok
            }))
        }),
{
}

/// The bytes that a queued operation is about.
pub open spec fn payload_of(operation: QueuedOperation) -> Seq<u8> {
    match operation {
        FailedWriteOperation::KvPut { bytes, .. } => bytes,
        FailedWriteOperation::ObjectPut { bytes, .. } => bytes,
        FailedWriteOperation::PublishJsonLines { bytes, .. } => bytes,
        FailedWriteOperation::MaterializedPut { bytes, .. } => bytes,
        FailedWriteOperation::KvRenameComplete { bytes, .. } => bytes,
        FailedWriteOperation::ObjectRenameComplete { bytes, .. } => bytes,
    }
}

/// Lines that a log has taken are not queued a second time: the queue counts no more
/// lines than the write has.
pub proof fn law_progress_is_within_the_write(base: Seq<u8>, current: Seq<u8>, pending: Seq<u8>)
    ensures
        match utf8_text(pending) {
            Ok(text) => lines_taken(base, current, pending) <= canonical_lines(text).len(),
            Err(_) => lines_taken(base, current, pending) == 0,
        },
{
    if let (Ok(base), Ok(current), Ok(pending)) = (
        utf8_text(base),
        utf8_text(current),
        utf8_text(pending),
    ) {
        law_applied_lines_are_in_the_log(
            canonical_lines(base),
            canonical_lines(current),
            canonical_lines(pending),
        );
    }
}

// ---------------------------------------------------------------------------
// Committing, executed
// ---------------------------------------------------------------------------

/// What a storage call returned, with its failure as its model.
pub open spec fn call_outcome(result: Result<Result<(), StorageFailure>, Pause>) -> Result<
    Result<(), StorageFailure<Text>>,
    Stop,
> {
    match result {
        Ok(Ok(())) => Ok(Ok(())),
        Ok(Err(failure)) => Ok(Err(failure@)),
        Err(pause) => Err(pause@),
    }
}

/// Checks that bytes may be written.
pub fn validate_payload(action: &JetStreamAction, path: &MountPath, bytes: &[u8]) -> (result: Result<
    (),
    i32,
>)
    ensures
        result == if acceptable(action@, bytes@) {
            Ok::<(), i32>(())
        } else {
            Err::<(), i32>(errno::EINVAL)
        },
{
    if action_publishes_jsonl(action) {
        return match validate_json_lines(path.as_str(), bytes) {
            Ok(()) => Ok(()),
            Err(error) => Err(error.errno().get()),
        };
    }
    match action {
        JetStreamAction::MaterializedPut { .. } => match validate_json_document(
            path.as_str(),
            bytes,
        ) {
            Ok(()) => Ok(()),
            Err(error) => Err(error.errno().get()),
        },
        _ => Ok(()),
    }
}

/// Asks the storage for a write.
pub fn execute_write_action(
    inquiry: &mut Inquiry,
    action: &JetStreamAction,
    bytes: &[u8],
    idempotency_key: &str,
) -> (result: Result<Result<(), StorageFailure>, Pause>)
    ensures
        (call_outcome(result), final(inquiry)@) == stored(
            old(inquiry)@,
            action@,
            bytes@,
            idempotency_key@,
        ),
{
    match action {
        JetStreamAction::KvPut { bucket, key } => inquiry.try_done(
            StorageRequest::KvPut {
                bucket: bucket.clone(),
                key: key.clone(),
                bytes: copy_bytes(bytes),
                idempotency_key: idempotency_key.to_owned(),
            },
        ),
        JetStreamAction::ObjectPut { bucket, object } => inquiry.try_done(
            StorageRequest::ObjectPut {
                bucket: bucket.clone(),
                object: object.clone(),
                bytes: copy_bytes(bytes),
                idempotency_key: idempotency_key.to_owned(),
            },
        ),
        JetStreamAction::PublishJsonLines { stream, subject } => inquiry.try_done(
            StorageRequest::PublishJsonLines {
                stream: stream.clone(),
                subject: subject.clone(),
                bytes: copy_bytes(bytes),
                idempotency_key: idempotency_key.to_owned(),
            },
        ),
        JetStreamAction::MaterializedPut {
            target: MaterializedTarget::Stream { stream, subject },
        } => inquiry.try_done(
            StorageRequest::PublishJsonLines {
                stream: stream.clone(),
                subject: subject.clone(),
                bytes: copy_bytes(bytes),
                idempotency_key: idempotency_key.to_owned(),
            },
        ),
        JetStreamAction::MaterializedPut { target: MaterializedTarget::Kv { bucket, key } } => {
            if let Err(error) = validate_json_document(key.as_str(), bytes) {
                return Ok(Err(StorageFailure::Other(error.to_string())));
            }
            inquiry.try_done(
                StorageRequest::KvPut {
                    bucket: bucket.clone(),
                    key: key.clone(),
                    bytes: copy_bytes(bytes),
                    idempotency_key: idempotency_key.to_owned(),
                },
            )
        },
        _ => Ok(Err(StorageFailure::Other("not a write".to_owned()))),
    }
}

fn memory(path: &MountPath, origin: CacheOrigin, version: VersionStamp, bytes: &[u8]) -> (entry: CacheEntry)
    ensures
        entry@ == memory_of(path@, origin@, FileSnapshot { bytes: bytes@, version }),
{
    CacheEntry { path: path.to_string(), origin, version, bytes: copy_bytes(bytes), valid: true }
}

fn cache_entry_after_write(
    inquiry: &mut Inquiry,
    path: &MountPath,
    action: &JetStreamAction,
    bytes: &[u8],
) -> (result: Result<Result<Option<CacheEntry>, StorageFailure>, Pause>)
    ensures
        ({
            let (memory, talk) = memory_after(old(inquiry)@, path@, action@, bytes@);
            &&& final(inquiry)@ == talk
            &&& match (result, memory) {
                (Ok(Ok(entry)), Ok(Ok(expected))) => option_view(entry) == expected,
                (Ok(Err(failure)), Ok(Err(expected))) => failure@ == expected,
                (Err(pause), Err(stop)) => pause@ == stop,
                _ => false,
            }
        }),
{
    match action {
        JetStreamAction::KvPut { bucket, key } => {
            match inquiry.try_value(
                StorageRequest::KvGet { bucket: bucket.clone(), key: key.clone() },
            )? {
                Err(failure) => Ok(Err(failure)),
                Ok(None) => Ok(Ok(None)),
                Ok(Some(entry)) => {
                    let origin = CacheOrigin::KvRevision {
                        bucket: bucket.clone(),
                        key: key.clone(),
                        revision: entry.revision,
                    };
                    let version = VersionStamp::at(entry.created);
                    Ok(Ok(Some(memory(path, origin, version, entry.bytes.as_slice()))))
                },
            }
        },
        JetStreamAction::ObjectPut { bucket, object } => {
            match inquiry.try_object_info(
                StorageRequest::ObjectMetadata { bucket: bucket.clone(), object: object.clone() },
            )? {
                Err(failure) => Ok(Err(failure)),
                Ok(None) => Ok(Ok(None)),
                Ok(Some(info)) => {
                    let origin = CacheOrigin::ObjectVersion {
                        bucket: bucket.clone(),
                        object: object.clone(),
                    };
                    Ok(Ok(Some(memory(path, origin, VersionStamp::at(info.modified), bytes))))
                },
            }
        },
        JetStreamAction::MaterializedPut { target: MaterializedTarget::Kv { bucket, key } } => {
            match inquiry.try_value(
                StorageRequest::KvGet { bucket: bucket.clone(), key: key.clone() },
            )? {
                Err(failure) => Ok(Err(failure)),
                Ok(None) => Ok(Ok(None)),
                Ok(Some(entry)) => {
                    let origin = CacheOrigin::MaterializedView { path: path.to_string() };
                    let version = VersionStamp::at(entry.created);
                    Ok(Ok(Some(memory(path, origin, version, entry.bytes.as_slice()))))
                },
            }
        },
        _ => Ok(Ok(None)),
    }
}

/// Does what follows a write that was stored.
pub fn refresh_cache_after_write(
    inquiry: &mut Inquiry,
    path: &MountPath,
    action: &JetStreamAction,
    bytes: &[u8],
) -> (result: Result<(), Pause>)
    ensures
        (plain_outcome(result), final(inquiry)@) == written(
            old(inquiry)@,
            path@,
            action@,
            bytes@,
        ),
{
    invalidate_after_local_mutation(inquiry, path)?;
    match cache_entry_after_write(inquiry, path, action, bytes)? {
        Ok(Some(entry)) => inquiry.done(StorageRequest::RememberFile { entry }),
        Ok(None) => Ok(()),
        Err(failure) => {
            let reason = describe_failure(&failure);
            let place = concat3("cache refresh after write failed for ", path.as_str(), ": ");
            inquiry.complain(concat2(place.as_str(), reason.as_str()));
            Ok(())
        },
    }
}

fn current_log(
    inquiry: &mut Inquiry,
    what: &str,
    stream: &str,
    subject: &str,
    mounted_at: Time,
) -> (result: Result<Option<Vec<u8>>, Pause>)
    ensures
        ({
            let (log, talk) = log_now(old(inquiry)@, what@, stream@, subject@, mounted_at);
            &&& final(inquiry)@ == talk
            &&& match (result, log) {
                (Ok(bytes), Ok(expected)) => option_view(bytes) == expected,
                (Err(pause), Err(stop)) => pause@ == stop,
                _ => false,
            }
        }),
{
    match read_stream_subject(inquiry, stream, subject, true, mounted_at) {
        Ok(snapshot) => Ok(Some(snapshot.bytes)),
        Err(Pause::Ask(request)) => Err(Pause::Ask(request)),
        Err(Pause::Fail(number)) => {
            if directory_listing_unavailable(number) {
                return Ok(Some(Vec::new()));
            }
            let place = concat3(what, " snapshot unavailable for ", stream);
            let about = concat3(":", subject, ": errno ");
            let digits = signed_text(number);
            inquiry.complain(concat3(place.as_str(), about.as_str(), digits.as_str()));
            Ok(None)
        },
    }
}

fn jsonl_base_snapshot(
    inquiry: &mut Inquiry,
    parsed: &JetStreamPath,
    action: &JetStreamAction,
    mounted_at: Time,
) -> (result: Result<Option<Vec<u8>>, Pause>)
    ensures
        ({
            let (log, talk) = log_before(old(inquiry)@, parsed@, action@, mounted_at);
            &&& final(inquiry)@ == talk
            &&& match (result, log) {
                (Ok(bytes), Ok(expected)) => option_view(bytes) == expected,
                (Err(pause), Err(stop)) => pause@ == stop,
                _ => false,
            }
        }),
{
    if !action_publishes_jsonl(action) {
        return Ok(None);
    }
    match jsonl_target_for_path(parsed) {
        None => Ok(None),
        Some((stream, subject)) => current_log(
            inquiry,
            "jsonl base",
            stream.as_str(),
            subject.as_str(),
            mounted_at,
        ),
    }
}

fn applied_jsonl_lines_for_queue(
    inquiry: &mut Inquiry,
    stream: &str,
    subject: &str,
    bytes: &[u8],
    base: &Option<Vec<u8>>,
    mounted_at: Time,
) -> (result: Result<usize, Pause>)
    ensures
        (plain_outcome(result), final(inquiry)@) == progress(
            old(inquiry)@,
            stream@,
            subject@,
            bytes@,
            option_view(*base),
            mounted_at,
        ),
{
    let base = match base {
        Some(base) => base,
        None => {
            return Ok(0);
        },
    };
    let current = match current_log(inquiry, "jsonl progress", stream, subject, mounted_at)? {
        Some(current) => current,
        None => {
            return Ok(0);
        },
    };
    match jsonl_applied_prefix_count(subject, base.as_slice(), current.as_slice(), bytes) {
        Ok(count) => Ok(count),
        Err(_) => Ok(0),
    }
}

fn failed_write_operation(
    inquiry: &mut Inquiry,
    action: &JetStreamAction,
    bytes: &[u8],
    base: &Option<Vec<u8>>,
    mounted_at: Time,
) -> (result: Result<Option<FailedWriteOperation>, Pause>)
    ensures
        ({
            let (operation, talk) = operation_for(
                old(inquiry)@,
                action@,
                bytes@,
                option_view(*base),
                mounted_at,
            );
            &&& final(inquiry)@ == talk
            &&& match (result, operation) {
                (Ok(operation), Ok(expected)) => option_view(operation) == expected,
                (Err(pause), Err(stop)) => pause@ == stop,
                _ => false,
            }
        }),
{
    match action {
        JetStreamAction::KvPut { bucket, key } => Ok(
            Some(
                FailedWriteOperation::KvPut {
                    bucket: bucket.clone(),
                    key: key.clone(),
                    bytes: copy_bytes(bytes),
                },
            ),
        ),
        JetStreamAction::ObjectPut { bucket, object } => Ok(
            Some(
                FailedWriteOperation::ObjectPut {
                    bucket: bucket.clone(),
                    object: object.clone(),
                    bytes: copy_bytes(bytes),
                },
            ),
        ),
        JetStreamAction::MaterializedPut { target: MaterializedTarget::Kv { bucket, key } } => Ok(
            Some(
                FailedWriteOperation::MaterializedPut {
                    bucket: bucket.clone(),
                    key: key.clone(),
                    bytes: copy_bytes(bytes),
                },
            ),
        ),
        JetStreamAction::PublishJsonLines { stream, subject }
        | JetStreamAction::MaterializedPut {
            target: MaterializedTarget::Stream { stream, subject },
        } => {
            let applied_lines = applied_jsonl_lines_for_queue(
                inquiry,
                stream.as_str(),
                subject.as_str(),
                bytes,
                base,
                mounted_at,
            )?;
            Ok(
                Some(
                    FailedWriteOperation::PublishJsonLines {
                        stream: stream.clone(),
                        subject: subject.clone(),
                        bytes: copy_bytes(bytes),
                        applied_lines,
                    },
                ),
            )
        },
        _ => Ok(None),
    }
}

/// Puts an operation into the queue, under the time of now.
pub fn enqueue_failed_write(
    inquiry: &mut Inquiry,
    path: &MountPath,
    idempotency_key: String,
    operation: FailedWriteOperation,
) -> (result: Result<Result<(), StorageFailure>, Pause>)
    ensures
        (call_outcome(result), final(inquiry)@) == queued_now(
            old(inquiry)@,
            path@,
            idempotency_key@,
            operation@,
        ),
{
    let now = inquiry.time(StorageRequest::CurrentTime)?;
    let write = FailedWrite {
        idempotency_key,
        version: VersionStamp::at(now),
        path: path.clone(),
        operation,
    };
    inquiry.try_done(StorageRequest::Enqueue { write })
}

/// Queues an action.
pub fn enqueue_action(
    inquiry: &mut Inquiry,
    path: &MountPath,
    action: &JetStreamAction,
    bytes: &[u8],
    idempotency_key: String,
    jsonl_base: &Option<Vec<u8>>,
    mounted_at: Time,
) -> (result: Result<Result<(), StorageFailure>, Pause>)
    ensures
        (call_outcome(result), final(inquiry)@) == enqueued(
            old(inquiry)@,
            path@,
            action@,
            bytes@,
            idempotency_key@,
            option_view(*jsonl_base),
            mounted_at,
        ),
{
    match failed_write_operation(inquiry, action, bytes, jsonl_base, mounted_at)? {
        None => Ok(Ok(())),
        Some(operation) => enqueue_failed_write(inquiry, path, idempotency_key, operation),
    }
}

fn queue_commit(
    inquiry: &mut Inquiry,
    path: &MountPath,
    action: &JetStreamAction,
    bytes: &[u8],
    idempotency_key: String,
    jsonl_base: &Option<Vec<u8>>,
    mounted_at: Time,
) -> (result: Result<(), Pause>)
    ensures
        (plain_outcome(result), final(inquiry)@) == put_off(
            old(inquiry)@,
            path@,
            action@,
            bytes@,
            idempotency_key@,
            option_view(*jsonl_base),
            mounted_at,
        ),
{
    if let Err(failure) = enqueue_action(
        inquiry,
        path,
        action,
        bytes,
        idempotency_key,
        jsonl_base,
        mounted_at,
    )? {
        return Err(inquiry.fail(failure));
    }
    invalidate_after_local_mutation(inquiry, path)?;
    sync_writeback_gate(
        inquiry,
        "writeback queue has pending entries after a queued write; mount is read-only",
    )
}

fn store_or_queue(
    inquiry: &mut Inquiry,
    path: &MountPath,
    parsed: &JetStreamPath,
    action: &JetStreamAction,
    bytes: &[u8],
    commit_seed: &str,
    mounted_at: Time,
) -> (result: Result<(), Pause>)
    ensures
        (plain_outcome(result), final(inquiry)@) == stored_or_queued(
            old(inquiry)@,
            path@,
            parsed@,
            action@,
            bytes@,
            commit_seed@,
            mounted_at,
        ),
{
    let key = idempotency_key(path.as_str(), bytes, commit_seed);
    let base = jsonl_base_snapshot(inquiry, parsed, action, mounted_at)?;
    match execute_write_action(inquiry, action, bytes, key.as_str())? {
        Ok(()) => refresh_cache_after_write(inquiry, path, action, bytes),
        Err(failure) => {
            let reason = describe_failure(&failure);
            let place = concat3("commit queued for ", path.as_str(), ": ");
            inquiry.complain(concat2(place.as_str(), reason.as_str()));
            queue_commit(inquiry, path, action, bytes, key, &base, mounted_at)
        },
    }
}

/// Commits bytes to a path: they are checked, then stored, and queued where the storage
/// fails.
pub fn commit_mount_path_with_seed(
    inquiry: &mut Inquiry,
    path: &MountPath,
    bytes: &[u8],
    commit_seed: &str,
    mounted_at: Time,
) -> (result: Result<(), Pause>)
    ensures
        (plain_outcome(result), final(inquiry)@) == committed(
            old(inquiry)@,
            path@,
            bytes@,
            commit_seed@,
            mounted_at,
        ),
{
    ensure_writes_allowed(inquiry)?;
    let parsed = match JetStreamPath::parse(path.as_str()) {
        Ok(parsed) => parsed,
        Err(error) => {
            return Err(Pause::Fail(error.errno().get()));
        },
    };
    let action = match plan_operation(FileIntent::Write, &parsed) {
        Ok(action) => action,
        Err(error) => {
            return Err(Pause::Fail(error.errno().get()));
        },
    };
    match validate_payload(&action, path, bytes) {
        Ok(()) => {},
        Err(number) => {
            return Err(Pause::Fail(number));
        },
    }
    store_or_queue(inquiry, path, &parsed, &action, bytes, commit_seed, mounted_at)
}

} // verus!
