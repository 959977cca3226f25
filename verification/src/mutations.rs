//! Changes of the tree: removing, making directories, moving, making files, and
//! cutting files to nothing.

use vstd::prelude::*;

use crate::commit::{commit_mount_path_with_seed, committed, enqueue_failed_write, queued_now};
use crate::durable::{
    classify_kv_dynamic_path, classify_object_dynamic_path, kv_kind, object_kind, DynamicPathKind,
};
use crate::errno;
use crate::inquiry::{
    plain_outcome, step_outcome, FailedWriteOperation, Inquiry, KeyRevision, ObjectContent,
    ObjectVersion, Pause, Reply, Revision, Step, Stop, StorageFailure, StorageRequest, Talk,
};
use crate::jsonl::copy_bytes;
use crate::keys::{idempotency_key, rename_completion_key_material, rename_material, write_key};
use crate::kinds::{create_target, creation, mode_of, write_mode, HandleMode};
use crate::mount_paths::{mount_text, Components, MountPath};
use crate::overlay::{Fact, QueuedOverlayProjection};
use crate::path::JetStreamPath;
use crate::plan::{
    mkdir_plan, plan_operation, rename_plan, unlink_plan, Action, FileIntent, JetStreamAction,
    RenamePlan,
};
use crate::subjects::MaterializedTarget;
use crate::text::Text;
use crate::upkeep::{
    ensure_writes_allowed, gate_passed, invalidate_after_local_mutation,
    invalidate_after_local_unlink, invalidated, replay_queue, replayed, unlinked,
};
use crate::versions::Time;

verus! {

// ---------------------------------------------------------------------------
// Removing
// ---------------------------------------------------------------------------

/// Asks the storage to remove something.
pub open spec fn deletion(talk: Talk, action: Action) -> Step<()> {
    match action {
        JetStreamAction::KvDelete { bucket, key } => talk.done(
            StorageRequest::KvDelete { bucket, key },
        ),
        JetStreamAction::ObjectDelete { bucket, object } => talk.done(
            StorageRequest::ObjectDelete { bucket, object },
        ),
        JetStreamAction::MaterializedDelete { target: MaterializedTarget::Kv { bucket, key } } => talk.done(
            StorageRequest::KvDelete { bucket, key },
        ),
        JetStreamAction::MaterializedDelete { target: MaterializedTarget::Stream { .. } } => (
            Err(Pause::Fail(errno::EROFS)),
            talk,
        ),
        _ => (Err(Pause::Fail(errno::ENOTSUP)), talk),
    }
}

/// Removes the file at a path.
pub open spec fn removal(talk: Talk, path: Components) -> Step<()> {
    let (allowed, talk) = gate_passed(talk);
    match allowed {
        Err(stop) => (Err(stop), talk),
        Ok(()) => match JetStreamPath::parsed(mount_text(path)) {
            Err(error) => (Err(Pause::Fail(error.number().0)), talk),
            Ok(parsed) => match unlink_plan(parsed) {
                Err(error) => (Err(Pause::Fail(error.number().0)), talk),
                Ok(action) => {
                    let (done, talk) = deletion(talk, action);
                    match done {
                        Err(stop) => (Err(stop), talk),
                        Ok(()) => unlinked(talk, path),
                    }
                },
            },
        },
    }
}

// ---------------------------------------------------------------------------
// Making directories
// ---------------------------------------------------------------------------

/// That a directory is there because something lies below it.
pub open spec fn directory_needed(step: Step<DynamicPathKind>) -> Step<()> {
    let (kind, talk) = step;
    match kind {
        Err(stop) => (Err(stop), talk),
        Ok(DynamicPathKind::File) => (Err(Pause::Fail(errno::EEXIST)), talk),
        Ok(DynamicPathKind::Missing) => (Err(Pause::Fail(errno::ENOENT)), talk),
        Ok(DynamicPathKind::Directory) => (Ok(()), talk),
    }
}

/// Makes the directory at a path. Below a bucket a directory cannot be made: it may
/// only be there already.
pub open spec fn directory_made(talk: Talk, path: Components) -> Step<()> {
    let (allowed, talk) = gate_passed(talk);
    match allowed {
        Err(stop) => (Err(stop), talk),
        Ok(()) => match JetStreamPath::parsed(mount_text(path)) {
            Err(error) => (Err(Pause::Fail(error.number().0)), talk),
            Ok(parsed) => match mkdir_plan(parsed) {
                Err(error) => (Err(Pause::Fail(error.number().0)), talk),
                Ok(JetStreamAction::EnsureKvBucket { bucket }) => talk.done(
                    StorageRequest::EnsureKvBucket { bucket },
                ),
                Ok(JetStreamAction::EnsureKvDirectory { bucket, prefix }) => directory_needed(
                    kv_kind(talk, bucket, prefix),
                ),
                Ok(JetStreamAction::EnsureStream { stream }) => talk.done(
                    StorageRequest::EnsureStream { stream },
                ),
                Ok(JetStreamAction::EnsureObjectBucket { bucket }) => talk.done(
                    StorageRequest::EnsureObjectBucket { bucket },
                ),
                Ok(JetStreamAction::EnsureObjectDirectory { bucket, prefix }) => directory_needed(
                    object_kind(talk, bucket, prefix),
                ),
                Ok(JetStreamAction::NoopDirectory) => (Ok(()), talk),
                Ok(_) => (Err(Pause::Fail(errno::ENOTSUP)), talk),
            },
        },
    }
}

// ---------------------------------------------------------------------------
// Moving
// ---------------------------------------------------------------------------

/// The value of a key that is to be moved.
pub open spec fn kv_source(talk: Talk, bucket: Text, key: Text) -> Step<Revision> {
    let (kind, talk) = kv_kind(talk, bucket, key);
    match kind {
        Err(stop) => (Err(stop), talk),
        Ok(DynamicPathKind::Missing) => (Err(Pause::Fail(errno::ENOENT)), talk),
        Ok(DynamicPathKind::Directory) => (Err(Pause::Fail(errno::EISDIR)), talk),
        Ok(DynamicPathKind::File) => {
            let (value, talk) = talk.value(StorageRequest::KvGet { bucket, key });
            match value {
                Err(stop) => (Err(stop), talk),
                Ok(None) => (Err(Pause::Fail(errno::ENOENT)), talk),
                Ok(Some(entry)) => (Ok(entry), talk),
            }
        },
    }
}

/// The content of an object that is to be moved.
pub open spec fn object_source(talk: Talk, bucket: Text, object: Text) -> Step<ObjectContent> {
    let (kind, talk) = object_kind(talk, bucket, object);
    match kind {
        Err(stop) => (Err(stop), talk),
        Ok(DynamicPathKind::Missing) => (Err(Pause::Fail(errno::ENOENT)), talk),
        Ok(DynamicPathKind::Directory) => (Err(Pause::Fail(errno::EISDIR)), talk),
        Ok(DynamicPathKind::File) => {
            let (content, talk) = talk.object(StorageRequest::ObjectGet { bucket, object });
            match content {
                Err(stop) => (Err(stop), talk),
                Ok(None) => (Err(Pause::Fail(errno::ENOENT)), talk),
                Ok(Some(entry)) => (Ok(entry), talk),
            }
        },
    }
}

/// That nothing can be moved onto a directory.
pub open spec fn no_directory(step: Step<DynamicPathKind>) -> Step<()> {
    let (kind, talk) = step;
    match kind {
        Err(stop) => (Err(stop), talk),
        Ok(DynamicPathKind::Directory) => (Err(Pause::Fail(errno::EISDIR)), talk),
        Ok(_) => (Ok(()), talk),
    }
}

/// An answer of the queue, or its failure as an error number.
pub open spec fn settled_call(step: Step<Result<(), StorageFailure<Text>>>) -> Step<()> {
    let (answer, talk) = step;
    match answer {
        Err(stop) => (Err(stop), talk),
        Ok(answer) => talk.settle(answer),
    }
}

/// Puts a move into the queue, and whether a commit seed went into it.
pub open spec fn move_queued(
    talk: Talk,
    from: Components,
    to: Components,
    plan: RenamePlan<Text>,
    seed: Text,
) -> (Step<()>, bool) {
    match plan {
        RenamePlan::Kv { from_bucket, from_key, to_bucket, to_key } => {
            let (source, talk) = kv_source(talk, from_bucket, from_key);
            match source {
                Err(stop) => ((Err(stop), talk), false),
                Ok(source) => {
                    let (clear, talk) = no_directory(kv_kind(talk, to_bucket, to_key));
                    match clear {
                        Err(stop) => ((Err(stop), talk), false),
                        Ok(()) => (
                            settled_call(
                                queued_now(
                                    talk,
                                    to,
                                    write_key(
                                        mount_text(to),
                                        rename_material(
                                            mount_text(from),
                                            source.revision,
                                            source.bytes,
                                        ),
                                        seed,
                                    ),
                                    FailedWriteOperation::KvRenameComplete {
                                        from_bucket,
                                        from_key,
                                        source_revision: source.revision,
                                        to_bucket,
                                        to_key,
                                        bytes: source.bytes,
                                    },
                                ),
                            ),
                            true,
                        ),
                    }
                },
            }
        },
        RenamePlan::Object { from_bucket, from_object, to_bucket, to_object } => {
            let (source, talk) = object_source(talk, from_bucket, from_object);
            match source {
                Err(stop) => ((Err(stop), talk), false),
                Ok(source) => {
                    let (clear, talk) = no_directory(object_kind(talk, to_bucket, to_object));
                    match clear {
                        Err(stop) => ((Err(stop), talk), false),
                        Ok(()) => (
                            settled_call(
                                queued_now(
                                    talk,
                                    to,
                                    write_key(
                                        mount_text(to),
                                        rename_material(
                                            mount_text(from),
                                            source.sequence,
                                            source.bytes,
                                        ),
                                        seed,
                                    ),
                                    FailedWriteOperation::ObjectRenameComplete {
                                        from_bucket,
                                        from_object,
                                        source_sequence: source.sequence,
                                        source_nuid: source.nuid,
                                        to_bucket,
                                        to_object,
                                        bytes: source.bytes,
                                    },
                                ),
                            ),
                            true,
                        ),
                    }
                },
            }
        },
    }
}

/// What follows a move that is queued: the queue is worked off, and both paths are
/// stale.
pub open spec fn move_finished(talk: Talk, from: Components, to: Components) -> Step<()> {
    let (done, talk) = replayed(talk);
    match done {
        Err(stop) => (Err(stop), talk),
        Ok(()) => {
            let (done, talk) = unlinked(talk, from);
            match done {
                Err(stop) => (Err(stop), talk),
                Ok(()) => invalidated(talk, to),
            }
        },
    }
}

/// Moves a file, and whether a commit seed went into it. No flags are known, and a move
/// to the same place is done at once.
pub open spec fn moved(talk: Talk, from: Components, to: Components, flags: u32, seed: Text) -> (
    Step<()>,
    bool,
) {
    let (allowed, talk) = gate_passed(talk);
    match allowed {
        Err(stop) => ((Err(stop), talk), false),
        Ok(()) => if flags != 0 {
            ((Err(Pause::Fail(errno::EINVAL)), talk), false)
        } else if from == to {
            ((Ok(()), talk), false)
        } else {
            match JetStreamPath::parsed(mount_text(from)) {
                Err(error) => ((Err(Pause::Fail(error.number().0)), talk), false),
                Ok(source) => match JetStreamPath::parsed(mount_text(to)) {
                    Err(error) => ((Err(Pause::Fail(error.number().0)), talk), false),
                    Ok(target) => match rename_plan(source, target) {
                        Err(error) => ((Err(Pause::Fail(error.number().0)), talk), false),
                        Ok(JetStreamAction::Rename { plan }) => {
                            let ((queued, talk), used) = move_queued(talk, from, to, plan, seed);
                            match queued {
                                Err(stop) => ((Err(stop), talk), used),
                                Ok(()) => (move_finished(talk, from, to), used),
                            }
                        },
                        Ok(_) => ((Err(Pause::Fail(errno::ENOTSUP)), talk), false),
                    },
                },
            }
        },
    }
}

// ---------------------------------------------------------------------------
// Making and cutting files
// ---------------------------------------------------------------------------

/// Makes the file at a path, and whether a commit seed went into it. What comes of it is
/// how long the new file is.
pub open spec fn file_made(
    talk: Talk,
    facts: Seq<Fact>,
    path: Components,
    mode: u32,
    seed: Text,
    mounted_at: Time,
) -> (Step<u64>, bool) {
    let (allowed, talk) = gate_passed(talk);
    match allowed {
        Err(stop) => ((Err(stop), talk), false),
        Ok(()) => if mode & errno::S_IFMT != errno::S_IFREG {
            ((Err(Pause::Fail(errno::ENOTSUP)), talk), false)
        } else {
            let (payload, talk) = creation(talk, facts, path);
            match payload {
                Err(stop) => ((Err(stop), talk), false),
                Ok(payload) => {
                    let (done, talk) = committed(talk, path, payload, seed, mounted_at);
                    match done {
                        Err(stop) => ((Err(stop), talk), true),
                        Ok(()) => ((Ok(payload.len() as u64), talk), true),
                    }
                },
            }
        },
    }
}

/// That a path may be cut to nothing: where lines are appended nothing is taken away.
pub open spec fn truncatable(path: Components) -> Result<(), i32> {
    match mode_of(path) {
        Err(number) => Err(number),
        Ok(HandleMode::JsonLines) => Err(errno::EROFS),
        Ok(HandleMode::WholeValue) => Ok(()),
    }
}

/// Cuts the file at a path to nothing, and whether a commit seed went into it.
pub open spec fn truncated(talk: Talk, path: Components, seed: Text, mounted_at: Time) -> (
    Step<()>,
    bool,
) {
    match truncatable(path) {
        Err(number) => ((Err(Pause::Fail(number)), talk), false),
        Ok(()) => (committed(talk, path, Seq::empty(), seed, mounted_at), true),
    }
}

// ---------------------------------------------------------------------------
// Laws
// ---------------------------------------------------------------------------

/// A move to the same place changes nothing: after the write gate nothing is asked.
pub proof fn law_moving_in_place_changes_nothing(talk: Talk, path: Components, seed: Text)
    ensures
        moved(talk, path, path, 0, seed).0.1 == gate_passed(talk).1,
        gate_passed(talk).0 is Ok ==> moved(talk, path, path, 0, seed).0.0 is Ok,
{
}

/// Nothing is moved onto a directory, and no directory is moved: the queue is not asked.
pub proof fn law_directories_are_not_moved(
    talk: Talk,
    from: Components,
    to: Components,
    plan: RenamePlan<Text>,
    seed: Text,
)
    requires
        match plan {
            RenamePlan::Kv { from_bucket, from_key, to_bucket, to_key } => {
                let (source, after) = kv_source(talk, from_bucket, from_key);
                ||| kv_kind(talk, from_bucket, from_key).0 == Ok::<DynamicPathKind, Stop>(
                    DynamicPathKind::Directory,
                )
                ||| source is Ok && kv_kind(after, to_bucket, to_key).0 == Ok::<
                    DynamicPathKind,
                    Stop,
                >(DynamicPathKind::Directory)
            },
            RenamePlan::Object { from_bucket, from_object, to_bucket, to_object } => {
                let (source, after) = object_source(talk, from_bucket, from_object);
                ||| object_kind(talk, from_bucket, from_object).0 == Ok::<DynamicPathKind, Stop>(
                    DynamicPathKind::Directory,
                )
                ||| source is Ok && object_kind(after, to_bucket, to_object).0 == Ok::<
                    DynamicPathKind,
                    Stop,
                >(DynamicPathKind::Directory)
            },
        },
    ensures
        move_queued(talk, from, to, plan, seed).0.0 == Err::<(), Stop>(Pause::Fail(errno::EISDIR)),
        !move_queued(talk, from, to, plan, seed).1,
{
}

/// Logs are never cut: appended lines stay.
pub proof fn law_logs_are_not_truncated(talk: Talk, path: Components, seed: Text, mounted_at: Time)
    requires
        mode_of(path) == Ok::<HandleMode, i32>(HandleMode::JsonLines),
    ensures
        truncated(talk, path, seed, mounted_at) == (
            (Err::<(), Stop>(Pause::Fail(errno::EROFS)), talk),
            false,
        ),
{
}

/// A closed write gate keeps the tree as it is: whatever is to be changed, `EROFS` comes
/// back after the one question.
pub proof fn law_closed_gate_refuses_every_change(
    talk: Talk,
    facts: Seq<Fact>,
    path: Components,
    to: Components,
    bytes: Seq<u8>,
    flags: u32,
    mode: u32,
    seed: Text,
    mounted_at: Time,
)
    requires
        talk.used < talk.replies.len(),
        talk.replies[talk.used as int] == Reply::Flag(false),
    ensures
        ({
            let refused = (Err::<(), Stop>(Pause::Fail(errno::EROFS)), talk.heard());
            &&& committed(talk, path, bytes, seed, mounted_at) == refused
            &&& removal(talk, path) == refused
            &&& directory_made(talk, path) == refused
            &&& moved(talk, path, to, flags, seed) == (refused, false)
            &&& file_made(talk, facts, path, mode, seed, mounted_at) == (
                (Err::<u64, Stop>(Pause::Fail(errno::EROFS)), talk.heard()),
                false,
            )
        }),
{
}

// ---------------------------------------------------------------------------
// Execution
// ---------------------------------------------------------------------------

/// Removes the file at a path.
pub fn execute_unlink(inquiry: &mut Inquiry, path: &MountPath) -> (result: Result<(), Pause>)
    ensures
        (plain_outcome(result), final(inquiry)@) == removal(old(inquiry)@, path@),
{
    ensure_writes_allowed(inquiry)?;
    let parsed = match JetStreamPath::parse(path.as_str()) {
        Ok(parsed) => parsed,
        Err(error) => {
            return Err(Pause::Fail(error.errno().get()));
        },
    };
    let action = match plan_operation(FileIntent::Unlink, &parsed) {
        Ok(action) => action,
        Err(error) => {
            return Err(Pause::Fail(error.errno().get()));
        },
    };
    match action {
        JetStreamAction::KvDelete { bucket, key } => {
            inquiry.done(StorageRequest::KvDelete { bucket, key })?;
        },
        JetStreamAction::ObjectDelete { bucket, object } => {
            inquiry.done(StorageRequest::ObjectDelete { bucket, object })?;
        },
        JetStreamAction::MaterializedDelete { target: MaterializedTarget::Kv { bucket, key } } => {
            inquiry.done(StorageRequest::KvDelete { bucket, key })?;
        },
        JetStreamAction::MaterializedDelete { target: MaterializedTarget::Stream { .. } } => {
            return Err(Pause::Fail(errno::erofs()));
        },
        _ => {
            return Err(Pause::Fail(errno::enotsup()));
        },
    }
    invalidate_after_local_unlink(inquiry, path)
}

fn ensure_kv_synthetic_directory(inquiry: &mut Inquiry, bucket: &str, prefix: &str) -> (result: Result<
    (),
    Pause,
>)
    ensures
        (plain_outcome(result), final(inquiry)@) == directory_needed(
            kv_kind(old(inquiry)@, bucket@, prefix@),
        ),
{
    match classify_kv_dynamic_path(inquiry, bucket, prefix)? {
        DynamicPathKind::File => Err(Pause::Fail(errno::eexist())),
        DynamicPathKind::Missing => Err(Pause::Fail(errno::enoent())),
        DynamicPathKind::Directory => Ok(()),
    }
}

fn ensure_object_synthetic_directory(inquiry: &mut Inquiry, bucket: &str, prefix: &str) -> (result:
    Result<(), Pause>)
    ensures
        (plain_outcome(result), final(inquiry)@) == directory_needed(
            object_kind(old(inquiry)@, bucket@, prefix@),
        ),
{
    match classify_object_dynamic_path(inquiry, bucket, prefix)? {
        DynamicPathKind::File => Err(Pause::Fail(errno::eexist())),
        DynamicPathKind::Missing => Err(Pause::Fail(errno::enoent())),
        DynamicPathKind::Directory => Ok(()),
    }
}

/// Makes the directory at a path.
pub fn execute_mkdir(inquiry: &mut Inquiry, path: &MountPath) -> (result: Result<(), Pause>)
    ensures
        (plain_outcome(result), final(inquiry)@) == directory_made(old(inquiry)@, path@),
{
    ensure_writes_allowed(inquiry)?;
    let parsed = match JetStreamPath::parse(path.as_str()) {
        Ok(parsed) => parsed,
        Err(error) => {
            return Err(Pause::Fail(error.errno().get()));
        },
    };
    let action = match plan_operation(FileIntent::Mkdir, &parsed) {
        Ok(action) => action,
        Err(error) => {
            return Err(Pause::Fail(error.errno().get()));
        },
    };
    match action {
        JetStreamAction::EnsureKvBucket { bucket } => inquiry.done(
            StorageRequest::EnsureKvBucket { bucket },
        ),
        JetStreamAction::EnsureKvDirectory { bucket, prefix } => ensure_kv_synthetic_directory(
            inquiry,
            bucket.as_str(),
            prefix.as_str(),
        ),
        JetStreamAction::EnsureStream { stream } => inquiry.done(
            StorageRequest::EnsureStream { stream },
        ),
        JetStreamAction::EnsureObjectBucket { bucket } => inquiry.done(
            StorageRequest::EnsureObjectBucket { bucket },
        ),
        JetStreamAction::EnsureObjectDirectory { bucket, prefix } => ensure_object_synthetic_directory(
            inquiry,
            bucket.as_str(),
            prefix.as_str(),
        ),
        JetStreamAction::NoopDirectory => Ok(()),
        _ => Err(Pause::Fail(errno::enotsup())),
    }
}

fn kv_rename_source(inquiry: &mut Inquiry, bucket: &str, key: &str) -> (result: Result<
    KeyRevision,
    Pause,
>)
    ensures
        (step_outcome(result), final(inquiry)@) == kv_source(old(inquiry)@, bucket@, key@),
{
    match classify_kv_dynamic_path(inquiry, bucket, key)? {
        DynamicPathKind::Missing => Err(Pause::Fail(errno::enoent())),
        DynamicPathKind::Directory => Err(Pause::Fail(errno::eisdir())),
        DynamicPathKind::File => {
            match inquiry.value(
                StorageRequest::KvGet { bucket: bucket.to_owned(), key: key.to_owned() },
            )? {
                Some(entry) => Ok(
                    KeyRevision {
                        revision: entry.revision,
                        created: entry.created,
                        bytes: copy_bytes(entry.bytes.as_slice()),
                    },
                ),
                None => Err(Pause::Fail(errno::enoent())),
            }
        },
    }
}

fn object_rename_source(inquiry: &mut Inquiry, bucket: &str, object: &str) -> (result: Result<
    ObjectVersion,
    Pause,
>)
    ensures
        (step_outcome(result), final(inquiry)@) == object_source(
            old(inquiry)@,
            bucket@,
            object@,
        ),
{
    match classify_object_dynamic_path(inquiry, bucket, object)? {
        DynamicPathKind::Missing => Err(Pause::Fail(errno::enoent())),
        DynamicPathKind::Directory => Err(Pause::Fail(errno::eisdir())),
        DynamicPathKind::File => {
            match inquiry.object(
                StorageRequest::ObjectGet { bucket: bucket.to_owned(), object: object.to_owned() },
            )? {
                Some(entry) => Ok(
                    ObjectVersion {
                        sequence: entry.sequence,
                        nuid: entry.nuid.clone(),
                        modified: entry.modified,
                        bytes: copy_bytes(entry.bytes.as_slice()),
                    },
                ),
                None => Err(Pause::Fail(errno::enoent())),
            }
        },
    }
}

fn ensure_kv_rename_destination(inquiry: &mut Inquiry, bucket: &str, key: &str) -> (result: Result<
    (),
    Pause,
>)
    ensures
        (plain_outcome(result), final(inquiry)@) == no_directory(
            kv_kind(old(inquiry)@, bucket@, key@),
        ),
{
    match classify_kv_dynamic_path(inquiry, bucket, key)? {
        DynamicPathKind::Directory => Err(Pause::Fail(errno::eisdir())),
        DynamicPathKind::File | DynamicPathKind::Missing => Ok(()),
    }
}

fn ensure_object_rename_destination(inquiry: &mut Inquiry, bucket: &str, object: &str) -> (result:
    Result<(), Pause>)
    ensures
        (plain_outcome(result), final(inquiry)@) == no_directory(
            object_kind(old(inquiry)@, bucket@, object@),
        ),
{
    match classify_object_dynamic_path(inquiry, bucket, object)? {
        DynamicPathKind::Directory => Err(Pause::Fail(errno::eisdir())),
        DynamicPathKind::File | DynamicPathKind::Missing => Ok(()),
    }
}

fn queue_rename_completion(
    inquiry: &mut Inquiry,
    path: &MountPath,
    key: String,
    operation: FailedWriteOperation,
) -> (result: Result<(), Pause>)
    ensures
        (plain_outcome(result), final(inquiry)@) == settled_call(
            queued_now(old(inquiry)@, path@, key@, operation@),
        ),
{
    match enqueue_failed_write(inquiry, path, key, operation)? {
        Ok(()) => Ok(()),
        Err(failure) => Err(inquiry.fail(failure)),
    }
}

fn completion_key(
    from: &MountPath,
    to: &MountPath,
    generation: u64,
    bytes: &[u8],
    seed: &str,
) -> (key: String)
    ensures
        key@ == write_key(
            mount_text(to@),
            rename_material(mount_text(from@), generation, bytes@),
            seed@,
        ),
{
    let material = rename_completion_key_material(from.as_str(), generation, bytes);
    idempotency_key(to.as_str(), material.as_slice(), seed)
}

fn queue_move(
    inquiry: &mut Inquiry,
    from: &MountPath,
    to: &MountPath,
    plan: RenamePlan,
    seed: &str,
) -> (outcome: (Result<(), Pause>, bool))
    ensures
        ((plain_outcome(outcome.0), final(inquiry)@), outcome.1) == move_queued(
            old(inquiry)@,
            from@,
            to@,
            plan@,
            seed@,
        ),
{
    match plan {
        RenamePlan::Kv { from_bucket, from_key, to_bucket, to_key } => {
            let source = match kv_rename_source(inquiry, from_bucket.as_str(), from_key.as_str()) {
                Ok(source) => source,
                Err(pause) => {
                    return (Err(pause), false);
                },
            };
            if let Err(pause) = ensure_kv_rename_destination(
                inquiry,
                to_bucket.as_str(),
                to_key.as_str(),
            ) {
                return (Err(pause), false);
            }
            let key = completion_key(from, to, source.revision, source.bytes.as_slice(), seed);
            let operation = FailedWriteOperation::KvRenameComplete {
                from_bucket,
                from_key,
                source_revision: source.revision,
                to_bucket,
                to_key,
                bytes: source.bytes,
            };
            (queue_rename_completion(inquiry, to, key, operation), true)
        },
        RenamePlan::Object { from_bucket, from_object, to_bucket, to_object } => {
            let source = match object_rename_source(
                inquiry,
                from_bucket.as_str(),
                from_object.as_str(),
            ) {
                Ok(source) => source,
                Err(pause) => {
                    return (Err(pause), false);
                },
            };
            if let Err(pause) = ensure_object_rename_destination(
                inquiry,
                to_bucket.as_str(),
                to_object.as_str(),
            ) {
                return (Err(pause), false);
            }
            let key = completion_key(from, to, source.sequence, source.bytes.as_slice(), seed);
            let operation = FailedWriteOperation::ObjectRenameComplete {
                from_bucket,
                from_object,
                source_sequence: source.sequence,
                source_nuid: source.nuid,
                to_bucket,
                to_object,
                bytes: source.bytes,
            };
            (queue_rename_completion(inquiry, to, key, operation), true)
        },
    }
}

fn finish_move(inquiry: &mut Inquiry, from: &MountPath, to: &MountPath) -> (result: Result<
    (),
    Pause,
>)
    ensures
        (plain_outcome(result), final(inquiry)@) == move_finished(old(inquiry)@, from@, to@),
{
    replay_queue(inquiry)?;
    invalidate_after_local_unlink(inquiry, from)?;
    invalidate_after_local_mutation(inquiry, to)
}

/// Moves a file, and whether a commit seed went into it.
pub fn execute_rename(
    inquiry: &mut Inquiry,
    from_path: &MountPath,
    to_path: &MountPath,
    flags: u32,
    seed: &str,
) -> (outcome: (Result<(), Pause>, bool))
    ensures
        ((plain_outcome(outcome.0), final(inquiry)@), outcome.1) == moved(
            old(inquiry)@,
            from_path@,
            to_path@,
            flags,
            seed@,
        ),
{
    if let Err(pause) = ensure_writes_allowed(inquiry) {
        return (Err(pause), false);
    }
    if flags != 0 {
        return (Err(Pause::Fail(errno::einval())), false);
    }
    if from_path.same(to_path) {
        return (Ok(()), false);
    }
    let from = match JetStreamPath::parse(from_path.as_str()) {
        Ok(parsed) => parsed,
        Err(error) => {
            return (Err(Pause::Fail(error.errno().get())), false);
        },
    };
    let to = match JetStreamPath::parse(to_path.as_str()) {
        Ok(parsed) => parsed,
        Err(error) => {
            return (Err(Pause::Fail(error.errno().get())), false);
        },
    };
    let plan = match plan_operation(FileIntent::Rename { to }, &from) {
        Ok(JetStreamAction::Rename { plan }) => plan,
        Ok(_) => {
            return (Err(Pause::Fail(errno::enotsup())), false);
        },
        Err(error) => {
            return (Err(Pause::Fail(error.errno().get())), false);
        },
    };
    let (queued, used) = queue_move(inquiry, from_path, to_path, plan, seed);
    match queued {
        Err(pause) => (Err(pause), used),
        Ok(()) => (finish_move(inquiry, from_path, to_path), used),
    }
}

/// Makes the file at a path, and whether a commit seed went into it.
pub fn execute_mknod(
    inquiry: &mut Inquiry,
    overlay: &QueuedOverlayProjection,
    path: &MountPath,
    mode: u32,
    seed: &str,
    mounted_at: Time,
) -> (outcome: (Result<u64, Pause>, bool))
    ensures
        ((plain_outcome(outcome.0), final(inquiry)@), outcome.1) == file_made(
            old(inquiry)@,
            overlay@,
            path@,
            mode,
            seed@,
            mounted_at,
        ),
{
    if let Err(pause) = ensure_writes_allowed(inquiry) {
        return (Err(pause), false);
    }
    if mode & errno::s_ifmt() != errno::s_ifreg() {
        return (Err(Pause::Fail(errno::enotsup())), false);
    }
    let payload = match create_target(inquiry, overlay, path) {
        Ok(target) => target.into_default_payload(),
        Err(pause) => {
            return (Err(pause), false);
        },
    };
    match commit_mount_path_with_seed(inquiry, path, payload.as_slice(), seed, mounted_at) {
        Ok(()) => (Ok(payload.len() as u64), true),
        Err(pause) => (Err(pause), true),
    }
}

/// Checks that a path may be cut to nothing.
pub fn reject_append_only_truncate(path: &MountPath) -> (result: Result<(), i32>)
    ensures
        result == truncatable(path@),
{
    match write_mode(path)? {
        HandleMode::JsonLines => Err(errno::erofs()),
        HandleMode::WholeValue => Ok(()),
    }
}

/// Cuts the file at a path to nothing, and whether a commit seed went into it.
pub fn truncate_path(inquiry: &mut Inquiry, path: &MountPath, seed: &str, mounted_at: Time) -> (outcome: (
    Result<(), Pause>,
    bool,
))
    ensures
        ((plain_outcome(outcome.0), final(inquiry)@), outcome.1) == truncated(
            old(inquiry)@,
            path@,
            seed@,
            mounted_at,
        ),
{
    if let Err(number) = reject_append_only_truncate(path) {
        return (Err(Pause::Fail(number)), false);
    }
    let nothing: Vec<u8> = Vec::new();
    assert(nothing@ =~= Seq::empty());
    (commit_mount_path_with_seed(inquiry, path, nothing.as_slice(), seed, mounted_at), true)
}

} // verus!
