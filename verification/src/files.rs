//! Files as the mount shows them: what a path is, what it holds, and what may be
//! created there.

use vstd::prelude::*;

use crate::directories::{directory_listing_unavailable, unavailable};
use crate::documents::{
    message_rendering, metadata_bytes_during, metadata_document, payload_json, render_message,
    MountStatus,
};
use crate::durable::{
    jsonl_target_for_path, log_target, materialized, read_materialized, read_stream_subject,
    require_stream, required, stream_subject_exists, subject_known, subject_log,
};
use crate::encoding::utf8_text;
use crate::errno;
use crate::inquiry::{
    plain_outcome, step_outcome, CacheEntry, CacheOrigin, Inquiry, Pause, Remembered, Reply, Step,
    Stop, StorageFailure, StorageRequest, Talk,
};
use crate::jsonl::{append_bytes, copy_bytes, unapplied, unapplied_jsonl_bytes};
use crate::mount_paths::{mount_text, Components, MountPath};
use crate::overlay::{
    deleted, queued_lines, queued_models, whole_value, Fact, FileSnapshot, QueuedJsonlEntry,
    QueuedLines, QueuedOverlayProjection, Snapshot,
};
use crate::path::JetStreamPath;
use crate::plan::{plan_operation, read_plan, Action, FileIntent, JetStreamAction};
use crate::text::{concat2, concat3, string_texts, Text};
use crate::upkeep::{
    apply_pending_watch_events, describe_failure, drained, errors_with, failure_text,
};
use crate::versions::{later_stamp, max_version_stamp, Time, VersionStamp};

verus! {

/// What the mount knows without asking the storage.
pub struct MountView {
    pub overlay: QueuedOverlayProjection,
    pub status: MountStatus,
    pub mounted_at: Time,
}

// ---------------------------------------------------------------------------
// Queued lines
// ---------------------------------------------------------------------------

/// How many of the queued lines a log has already taken: none, with a complaint,
/// where that cannot be told.
pub open spec fn durably_applied(talk: Talk, entry: QueuedLines) -> Step<usize> {
    let (count, talk) = talk.try_count(
        StorageRequest::AppliedJsonLines {
            stream: entry.stream,
            subject: entry.subject,
            bytes: entry.bytes,
            idempotency_key: entry.idempotency_key,
        },
    );
    match count {
        Err(stop) => (Err(stop), talk),
        Ok(Ok(count)) => (Ok(count), talk),
        Ok(Err(failure)) => (
            Ok(0),
            talk.complaining(
                "jsonl durable progress unavailable for "@ + entry.stream + ":"@ + (entry.subject
                    + ": "@ + failure_text(failure)),
            ),
        ),
    }
}

/// The larger of two counts.
pub open spec fn larger(left: usize, right: usize) -> usize {
    if left >= right {
        left
    } else {
        right
    }
}

/// A log with queued lines at its end: of each write those that the log has not taken
/// yet. `EINVAL` where queued bytes are not UTF-8.
pub open spec fn with_queued_lines(
    talk: Talk,
    entries: Seq<QueuedLines>,
    bytes: Seq<u8>,
    newest: Option<VersionStamp>,
) -> Step<(Seq<u8>, Option<VersionStamp>)>
    decreases entries.len(),
{
    if entries.len() == 0 {
        (Ok((bytes, newest)), talk)
    } else {
        let entry = entries[0];
        let (applied, talk) = durably_applied(talk, entry);
        match applied {
            Err(stop) => (Err(stop), talk),
            Ok(applied) => match utf8_text(entry.bytes) {
                Err(_) => (Err(Pause::Fail(errno::EINVAL)), talk),
                Ok(text) => with_queued_lines(
                    talk,
                    entries.drop_first(),
                    bytes + unapplied(text, larger(applied, entry.applied_lines) as nat),
                    Some(later_stamp(newest, entry.version)),
                ),
            },
        }
    }
}

/// A log that holds nothing yet.
pub open spec fn empty_log(mounted_at: Time) -> Snapshot {
    FileSnapshot { bytes: Seq::empty(), version: VersionStamp::of(mounted_at) }
}

/// What a log holds beside the queued lines. Where the storage has no answer it holds
/// nothing.
pub open spec fn stored_log(
    talk: Talk,
    parsed: JetStreamPath<Text>,
    path: Components,
    mounted_at: Time,
) -> Step<Snapshot> {
    let (cached, talk) = talk.cached(StorageRequest::CachedFile { path: mount_text(path) });
    match cached {
        Err(stop) => (Err(stop), talk),
        Ok(Some(snapshot)) => (Ok(snapshot), talk),
        Ok(None) => match log_target(parsed) {
            None => (Ok(empty_log(mounted_at)), talk),
            Some((stream, subject)) => {
                let (log, talk) = subject_log(talk, stream, subject, true, mounted_at);
                match log {
                    Err(Pause::Fail(number)) if unavailable(number) => (
                        Ok(empty_log(mounted_at)),
                        talk,
                    ),
                    _ => (log, talk),
                }
            },
        },
    }
}

/// A log with its queued lines: none where no lines are queued for it.
pub open spec fn queued_log(
    talk: Talk,
    facts: Seq<Fact>,
    parsed: JetStreamPath<Text>,
    path: Components,
    mounted_at: Time,
) -> Step<Option<Snapshot>> {
    let pending = queued_lines(facts, path);
    if pending.len() == 0 {
        (Ok(None), talk)
    } else {
        let (stored, talk) = stored_log(talk, parsed, path, mounted_at);
        match stored {
            Err(stop) => (Err(stop), talk),
            Ok(stored) => {
                let (log, talk) = with_queued_lines(talk, pending, stored.bytes, None);
                match log {
                    Err(stop) => (Err(stop), talk),
                    Ok((bytes, newest)) => (
                        Ok(
                            Some(
                                FileSnapshot {
                                    bytes,
                                    version: match newest {
                                        Some(newest) => later_stamp(Some(stored.version), newest),
                                        None => stored.version,
                                    },
                                },
                            ),
                        ),
                        talk,
                    ),
                }
            },
        }
    }
}

// ---------------------------------------------------------------------------
// Reading
// ---------------------------------------------------------------------------

/// A file to be remembered.
pub open spec fn memory_of(
    path: Components,
    origin: CacheOrigin<Text>,
    snapshot: Snapshot,
) -> Remembered {
    CacheEntry {
        path: mount_text(path),
        origin,
        version: snapshot.version,
        bytes: snapshot.bytes,
        valid: true,
    }
}

/// A file that is remembered before it is handed out.
pub open spec fn remembering(
    talk: Talk,
    path: Components,
    origin: CacheOrigin<Text>,
    snapshot: Snapshot,
) -> Step<Snapshot> {
    let (done, talk) = talk.done(
        StorageRequest::RememberFile { entry: memory_of(path, origin, snapshot) },
    );
    match done {
        Err(stop) => (Err(stop), talk),
        Ok(()) => (Ok(snapshot), talk),
    }
}

/// That a subject's file is there: its stream has to be, and messages of the subject.
pub open spec fn subject_required(talk: Talk, parsed: JetStreamPath<Text>) -> Step<()> {
    match parsed {
        JetStreamPath::StreamSubject { stream, subject } => {
            let (there, talk) = required(talk.names(StorageRequest::ListStreams), stream);
            match there {
                Err(stop) => (Err(stop), talk),
                Ok(()) => {
                    let (known, talk) = subject_known(talk, stream, subject.0);
                    match known {
                        Err(stop) => (Err(stop), talk),
                        Ok(true) => (Ok(()), talk),
                        Ok(false) => (Err(Pause::Fail(errno::ENOENT)), talk),
                    }
                },
            }
        },
        _ => (Ok(()), talk),
    }
}

/// What the storage gives for a read.
pub open spec fn stored_content(
    talk: Talk,
    action: Action,
    status: MountStatus,
    mounted_at: Time,
    parsed: JetStreamPath<Text>,
    path: Components,
) -> Step<Snapshot> {
    match action {
        JetStreamAction::KvGet { bucket, key } => {
            let (value, talk) = talk.value(StorageRequest::KvGet { bucket, key });
            match value {
                Err(stop) => (Err(stop), talk),
                Ok(None) => (Err(Pause::Fail(errno::ENOENT)), talk),
                Ok(Some(entry)) => remembering(
                    talk,
                    path,
                    CacheOrigin::KvRevision { bucket, key, revision: entry.revision },
                    FileSnapshot { bytes: entry.bytes, version: VersionStamp::of(entry.created) },
                ),
            }
        },
        JetStreamAction::KvRevision { bucket, key, revision } => {
            let (value, talk) = talk.value(StorageRequest::KvRevision { bucket, key, revision });
            match value {
                Err(stop) => (Err(stop), talk),
                Ok(None) => (Err(Pause::Fail(errno::ENOENT)), talk),
                Ok(Some(entry)) => remembering(
                    talk,
                    path,
                    CacheOrigin::KvRevision { bucket, key, revision },
                    FileSnapshot { bytes: entry.bytes, version: VersionStamp::of(entry.created) },
                ),
            }
        },
        JetStreamAction::StreamMessage { stream, sequence } => {
            let (message, talk) = talk.message(StorageRequest::StreamMessage { stream, sequence });
            match message {
                Err(stop) => (Err(stop), talk),
                Ok(message) => match message_rendering(
                    message.stream,
                    message.sequence,
                    message.subject,
                    payload_json(message.payload),
                ) {
                    Err(complaint) => talk.fail(StorageFailure::Other(complaint)),
                    Ok(bytes) => remembering(
                        talk,
                        path,
                        CacheOrigin::StreamSequence { stream, sequence },
                        FileSnapshot { bytes, version: VersionStamp::of(message.published) },
                    ),
                },
            }
        },
        JetStreamAction::ObjectGet { bucket, object } => {
            let (value, talk) = talk.object(StorageRequest::ObjectGet { bucket, object });
            match value {
                Err(stop) => (Err(stop), talk),
                Ok(None) => (Err(Pause::Fail(errno::ENOENT)), talk),
                Ok(Some(entry)) => remembering(
                    talk,
                    path,
                    CacheOrigin::ObjectVersion { bucket, object },
                    FileSnapshot { bytes: entry.bytes, version: VersionStamp::of(entry.modified) },
                ),
            }
        },
        JetStreamAction::MetadataRead { file } => (
            Ok(
                FileSnapshot {
                    bytes: metadata_document(
                        status,
                        errors_with(string_texts(status.recent_errors@), talk.complaints),
                        file,
                    ),
                    version: VersionStamp::of(mounted_at),
                },
            ),
            talk,
        ),
        JetStreamAction::MaterializedGet { target } => {
            let (snapshot, talk) = materialized(talk, target, mounted_at);
            match snapshot {
                Err(stop) => (Err(stop), talk),
                Ok(snapshot) => remembering(
                    talk,
                    path,
                    CacheOrigin::MaterializedView { path: mount_text(path) },
                    snapshot,
                ),
            }
        },
        JetStreamAction::PublishJsonLines { .. } => match log_target(parsed) {
            Some((stream, subject)) => subject_log(talk, stream, subject, false, mounted_at),
            None => (Ok(empty_log(mounted_at)), talk),
        },
        _ => (Err(Pause::Fail(errno::EISDIR)), talk),
    }
}

/// What a file holds. The queued writes come first, then what is remembered, then the
/// storage.
pub open spec fn content(
    talk: Talk,
    facts: Seq<Fact>,
    status: MountStatus,
    mounted_at: Time,
    parsed: JetStreamPath<Text>,
    path: Components,
) -> Step<Snapshot> {
    if deleted(facts, path) {
        (Err(Pause::Fail(errno::ENOENT)), talk)
    } else if whole_value(facts, path) is Some {
        (Ok(whole_value(facts, path).unwrap()), talk)
    } else {
        let (queued, talk) = queued_log(talk, facts, parsed, path, mounted_at);
        match queued {
            Err(stop) => (Err(stop), talk),
            Ok(Some(snapshot)) => (Ok(snapshot), talk),
            Ok(None) => {
                let (cached, talk) = talk.cached(
                    StorageRequest::CachedFile { path: mount_text(path) },
                );
                match cached {
                    Err(stop) => (Err(stop), talk),
                    Ok(Some(snapshot)) => (Ok(snapshot), talk),
                    Ok(None) => {
                        let (there, talk) = subject_required(talk, parsed);
                        match there {
                            Err(stop) => (Err(stop), talk),
                            Ok(()) => match read_plan(parsed) {
                                Err(error) => (Err(Pause::Fail(error.number().0)), talk),
                                Ok(action) => stored_content(
                                    talk,
                                    action,
                                    status,
                                    mounted_at,
                                    parsed,
                                    path,
                                ),
                            },
                        }
                    },
                }
            },
        }
    }
}

/// What the file at a mount path holds. The changes that were seen are taken in first.
pub open spec fn content_at(
    talk: Talk,
    facts: Seq<Fact>,
    status: MountStatus,
    mounted_at: Time,
    path: Components,
) -> Step<Snapshot> {
    let (done, talk) = drained(talk);
    match done {
        Err(stop) => (Err(stop), talk),
        Ok(()) => match JetStreamPath::parsed(mount_text(path)) {
            Err(error) => (Err(Pause::Fail(error.number().0)), talk),
            Ok(parsed) => content(talk, facts, status, mounted_at, parsed, path),
        },
    }
}

// ---------------------------------------------------------------------------
// Laws
// ---------------------------------------------------------------------------

/// What the queue says of a path is known without a question to the storage: a path
/// that the queue removes is not there, and a whole value that is queued is what the
/// path holds.
pub proof fn law_queued_writes_shadow_the_storage(
    talk: Talk,
    facts: Seq<Fact>,
    status: MountStatus,
    mounted_at: Time,
    parsed: JetStreamPath<Text>,
    path: Components,
)
    ensures
        deleted(facts, path) ==> content(talk, facts, status, mounted_at, parsed, path) == (
            Err::<Snapshot, Stop>(Pause::Fail(errno::ENOENT)),
            talk,
        ),
        !deleted(facts, path) ==> (whole_value(facts, path) matches Some(value) ==> content(
            talk,
            facts,
            status,
            mounted_at,
            parsed,
            path,
        ) == (Ok::<Snapshot, Stop>(value), talk)),
{
}

/// A file that is remembered is read from memory: nothing but the memory is asked.
pub proof fn law_remembered_files_are_read_from_memory(
    talk: Talk,
    status: MountStatus,
    mounted_at: Time,
    parsed: JetStreamPath<Text>,
    path: Components,
    snapshot: Snapshot,
)
    requires
        talk.used < talk.replies.len(),
        talk.replies[talk.used as int] == Reply::Cached(Some(snapshot)),
    ensures
        content(talk, Seq::empty(), status, mounted_at, parsed, path) == (
            Ok::<Snapshot, Stop>(snapshot),
            talk.heard(),
        ),
{
}

// ---------------------------------------------------------------------------
// Reading, executed
// ---------------------------------------------------------------------------

fn durable_jsonl_applied_prefix(inquiry: &mut Inquiry, entry: &QueuedJsonlEntry) -> (result: Result<
    usize,
    Pause,
>)
    ensures
        (plain_outcome(result), final(inquiry)@) == durably_applied(old(inquiry)@, entry@),
{
    match inquiry.try_count(
        StorageRequest::AppliedJsonLines {
            stream: entry.stream.clone(),
            subject: entry.subject.clone(),
            bytes: copy_bytes(entry.bytes.as_slice()),
            idempotency_key: entry.idempotency_key.clone(),
        },
    )? {
        Ok(count) => Ok(count),
        Err(failure) => {
            let reason = describe_failure(&failure);
            let place = concat3(
                "jsonl durable progress unavailable for ",
                entry.stream.as_str(),
                ":",
            );
            let about = concat3(entry.subject.as_str(), ": ", reason.as_str());
            inquiry.complain(concat2(place.as_str(), about.as_str()));
            Ok(0)
        },
    }
}

fn empty_snapshot(mounted_at: Time) -> (snapshot: FileSnapshot)
    ensures
        snapshot@ == empty_log(mounted_at),
{
    FileSnapshot { bytes: Vec::new(), version: VersionStamp::at(mounted_at) }
}

/// The file that is remembered of a path.
pub fn cached_snapshot(inquiry: &mut Inquiry, path: &MountPath) -> (result: Result<
    Option<FileSnapshot>,
    Pause,
>)
    ensures
        ({
            let (cached, talk) = old(inquiry)@.cached(
                StorageRequest::CachedFile { path: mount_text(path@) },
            );
            &&& final(inquiry)@ == talk
            &&& match (result, cached) {
                (Ok(Some(snapshot)), Ok(Some(expected))) => snapshot@ == expected,
                (Ok(None), Ok(None)) => true,
                (Err(pause), Err(stop)) => pause@ == stop,
                _ => false,
            }
        }),
{
    match inquiry.cached(StorageRequest::CachedFile { path: path.to_string() })? {
        Some(snapshot) => Ok(
            Some(
                FileSnapshot {
                    bytes: copy_bytes(snapshot.bytes.as_slice()),
                    version: snapshot.version,
                },
            ),
        ),
        None => Ok(None),
    }
}

fn stored_log_snapshot(
    inquiry: &mut Inquiry,
    parsed: &JetStreamPath,
    path: &MountPath,
    mounted_at: Time,
) -> (result: Result<FileSnapshot, Pause>)
    ensures
        (step_outcome(result), final(inquiry)@) == stored_log(
            old(inquiry)@,
            parsed@,
            path@,
            mounted_at,
        ),
{
    if let Some(snapshot) = cached_snapshot(inquiry, path)? {
        return Ok(snapshot);
    }
    match jsonl_target_for_path(parsed) {
        None => Ok(empty_snapshot(mounted_at)),
        Some((stream, subject)) => {
            match read_stream_subject(
                inquiry,
                stream.as_str(),
                subject.as_str(),
                true,
                mounted_at,
            ) {
                Ok(snapshot) => Ok(snapshot),
                Err(Pause::Fail(number)) => {
                    if directory_listing_unavailable(number) {
                        Ok(empty_snapshot(mounted_at))
                    } else {
                        Err(Pause::Fail(number))
                    }
                },
                Err(pause) => Err(pause),
            }
        },
    }
}

/// A log with its queued lines: none where no lines are queued for it.
pub fn queued_jsonl_snapshot(
    inquiry: &mut Inquiry,
    overlay: &QueuedOverlayProjection,
    path: &MountPath,
    parsed: &JetStreamPath,
    mounted_at: Time,
) -> (result: Result<Option<FileSnapshot>, Pause>)
    ensures
        ({
            let (log, talk) = queued_log(old(inquiry)@, overlay@, parsed@, path@, mounted_at);
            &&& final(inquiry)@ == talk
            &&& match (result, log) {
                (Ok(Some(snapshot)), Ok(Some(expected))) => snapshot@ == expected,
                (Ok(None), Ok(None)) => true,
                (Err(pause), Err(stop)) => pause@ == stop,
                _ => false,
            }
        }),
{
    let pending = overlay.jsonl_entries(path);
    let ghost models = queued_models(pending@);
    assert(models.len() == pending@.len());
    if pending.len() == 0 {
        return Ok(None);
    }
    let mut snapshot = stored_log_snapshot(inquiry, parsed, path, mounted_at)?;
    let ghost here = inquiry@;
    let ghost stored = snapshot@;
    let mut newest: Option<VersionStamp> = None;
    let mut bytes = copy_bytes(snapshot.bytes.as_slice());
    let mut i: usize = 0;
    assert(models.skip(0) =~= models);
    while i < pending.len()
        invariant
            i <= pending.len(),
            models == queued_models(pending@),
            models == queued_lines(overlay@, path@),
            models.len() > 0,
            snapshot@ == stored,
            stored_log(old(inquiry)@, parsed@, path@, mounted_at) == (Ok::<Snapshot, Stop>(stored), here),
            with_queued_lines(here, models, stored.bytes, None) == with_queued_lines(
                inquiry@,
                models.skip(i as int),
                bytes@,
                newest,
            ),
        decreases pending.len() - i,
    {
        let entry = &pending[i];
        assert(models.skip(i as int)[0] == entry@);
        assert(models.skip(i as int).drop_first() =~= models.skip(i + 1));
        let applied = durable_jsonl_applied_prefix(inquiry, entry)?;
        let count = if applied >= entry.applied_lines {
            applied
        } else {
            entry.applied_lines
        };
        match unapplied_jsonl_bytes(path.as_str(), entry.bytes.as_slice(), count) {
            Ok(rest) => {
                append_bytes(&mut bytes, rest.as_slice());
            },
            Err(number) => {
                return Err(Pause::Fail(number));
            },
        }
        newest = Some(max_version_stamp(newest, entry.version));
        i += 1;
    }
    assert(models.skip(models.len() as int) =~= Seq::empty());
    let version = match newest {
        Some(newest) => max_version_stamp(Some(snapshot.version), newest),
        None => snapshot.version,
    };
    Ok(Some(FileSnapshot { bytes, version }))
}

fn remember(
    inquiry: &mut Inquiry,
    path: &MountPath,
    origin: CacheOrigin,
    snapshot: FileSnapshot,
) -> (result: Result<FileSnapshot, Pause>)
    ensures
        (step_outcome(result), final(inquiry)@) == remembering(
            old(inquiry)@,
            path@,
            origin@,
            snapshot@,
        ),
{
    let entry = CacheEntry {
        path: path.to_string(),
        origin,
        version: snapshot.version,
        bytes: copy_bytes(snapshot.bytes.as_slice()),
        valid: true,
    };
    inquiry.done(StorageRequest::RememberFile { entry })?;
    Ok(snapshot)
}

fn require_subject(inquiry: &mut Inquiry, parsed: &JetStreamPath) -> (result: Result<(), Pause>)
    ensures
        (plain_outcome(result), final(inquiry)@) == subject_required(old(inquiry)@, parsed@),
{
    if let JetStreamPath::StreamSubject { stream, subject } = parsed {
        require_stream(inquiry, stream.as_str())?;
        if !stream_subject_exists(inquiry, stream.as_str(), subject.as_str())? {
            return Err(Pause::Fail(errno::enoent()));
        }
    }
    Ok(())
}

fn read_stored(
    inquiry: &mut Inquiry,
    view: &MountView,
    action: JetStreamAction,
    parsed: &JetStreamPath,
    path: &MountPath,
) -> (result: Result<FileSnapshot, Pause>)
    ensures
        (step_outcome(result), final(inquiry)@) == stored_content(
            old(inquiry)@,
            action@,
            view.status,
            view.mounted_at,
            parsed@,
            path@,
        ),
{
    match action {
        JetStreamAction::KvGet { bucket, key } => {
            let entry = match inquiry.value(
                StorageRequest::KvGet { bucket: bucket.clone(), key: key.clone() },
            )? {
                Some(entry) => entry,
                None => {
                    return Err(Pause::Fail(errno::enoent()));
                },
            };
            let snapshot = FileSnapshot {
                bytes: copy_bytes(entry.bytes.as_slice()),
                version: VersionStamp::at(entry.created),
            };
            let origin = CacheOrigin::KvRevision { bucket, key, revision: entry.revision };
            remember(inquiry, path, origin, snapshot)
        },
        JetStreamAction::KvRevision { bucket, key, revision } => {
            let entry = match inquiry.value(
                StorageRequest::KvRevision { bucket: bucket.clone(), key: key.clone(), revision },
            )? {
                Some(entry) => entry,
                None => {
                    return Err(Pause::Fail(errno::enoent()));
                },
            };
            let snapshot = FileSnapshot {
                bytes: copy_bytes(entry.bytes.as_slice()),
                version: VersionStamp::at(entry.created),
            };
            let origin = CacheOrigin::KvRevision { bucket, key, revision };
            remember(inquiry, path, origin, snapshot)
        },
        JetStreamAction::StreamMessage { stream, sequence } => {
            let message = inquiry.message(
                StorageRequest::StreamMessage { stream: stream.clone(), sequence },
            )?;
            match render_message(
                message.stream.as_str(),
                message.sequence,
                message.subject.as_str(),
                message.payload.as_slice(),
            ) {
                Ok(bytes) => {
                    let snapshot = FileSnapshot {
                        bytes,
                        version: VersionStamp::at(message.published),
                    };
                    let origin = CacheOrigin::StreamSequence { stream, sequence };
                    remember(inquiry, path, origin, snapshot)
                },
                Err(complaint) => Err(inquiry.fail(StorageFailure::Other(complaint))),
            }
        },
        JetStreamAction::ObjectGet { bucket, object } => {
            let entry = match inquiry.object(
                StorageRequest::ObjectGet { bucket: bucket.clone(), object: object.clone() },
            )? {
                Some(entry) => entry,
                None => {
                    return Err(Pause::Fail(errno::enoent()));
                },
            };
            let snapshot = FileSnapshot {
                bytes: copy_bytes(entry.bytes.as_slice()),
                version: VersionStamp::at(entry.modified),
            };
            let origin = CacheOrigin::ObjectVersion { bucket, object };
            remember(inquiry, path, origin, snapshot)
        },
        JetStreamAction::MetadataRead { file } => Ok(
            FileSnapshot {
                bytes: metadata_bytes_during(&view.status, &inquiry.complaints, file),
                version: VersionStamp::at(view.mounted_at),
            },
        ),
        JetStreamAction::MaterializedGet { target } => {
            let snapshot = read_materialized(inquiry, &target, view.mounted_at)?;
            let origin = CacheOrigin::MaterializedView { path: path.to_string() };
            remember(inquiry, path, origin, snapshot)
        },
        JetStreamAction::PublishJsonLines { .. } => match jsonl_target_for_path(parsed) {
            Some((stream, subject)) => read_stream_subject(
                inquiry,
                stream.as_str(),
                subject.as_str(),
                false,
                view.mounted_at,
            ),
            None => Ok(empty_snapshot(view.mounted_at)),
        },
        _ => Err(Pause::Fail(errno::eisdir())),
    }
}

/// What a file holds.
pub fn read_snapshot(
    inquiry: &mut Inquiry,
    view: &MountView,
    path: &MountPath,
    parsed: &JetStreamPath,
) -> (result: Result<FileSnapshot, Pause>)
    ensures
        (step_outcome(result), final(inquiry)@) == content(
            old(inquiry)@,
            view.overlay@,
            view.status,
            view.mounted_at,
            parsed@,
            path@,
        ),
{
    if view.overlay.latest_delete_covers(path) {
        return Err(Pause::Fail(errno::enoent()));
    }
    if let Some(snapshot) = view.overlay.whole_value_snapshot(path) {
        return Ok(snapshot);
    }
    if let Some(snapshot) = queued_jsonl_snapshot(
        inquiry,
        &view.overlay,
        path,
        parsed,
        view.mounted_at,
    )? {
        return Ok(snapshot);
    }
    if let Some(snapshot) = cached_snapshot(inquiry, path)? {
        return Ok(snapshot);
    }
    require_subject(inquiry, parsed)?;
    match plan_operation(FileIntent::Read, parsed) {
        Ok(action) => read_stored(inquiry, view, action, parsed, path),
        Err(error) => Err(Pause::Fail(error.errno().get())),
    }
}

/// What the file at a mount path holds.
pub fn read_bytes(inquiry: &mut Inquiry, view: &MountView, path: &MountPath) -> (result: Result<
    FileSnapshot,
    Pause,
>)
    ensures
        (step_outcome(result), final(inquiry)@) == content_at(
            old(inquiry)@,
            view.overlay@,
            view.status,
            view.mounted_at,
            path@,
        ),
{
    apply_pending_watch_events(inquiry)?;
    match JetStreamPath::parse(path.as_str()) {
        Ok(parsed) => read_snapshot(inquiry, view, path, &parsed),
        Err(error) => Err(Pause::Fail(error.errno().get())),
    }
}

} // verus!
