//! Operations as conversations: which requests they make, in which order, and what
//! comes of the replies.

use eventfs::commit::{commit_mount_path_with_seed, validate_payload};
use eventfs::directories::directory_entries;
use eventfs::documents::MountStatus;
use eventfs::entries::{DirectoryEntry, EntryKind};
use eventfs::files::{read_bytes, MountView};
use eventfs::handles::{
    handle_commit_bytes, patch_bytes, Handles, RuntimeHandleId, RuntimeOpenOptions,
};
use eventfs::inquiry::{
    CacheEntry, CacheOrigin, FailedWrite, FailedWriteOperation, Inquiry, KeyRevision,
    ObjectMetadata, ObjectVersion, Pause, StorageFailure, StorageReply, StorageRequest,
};
use eventfs::keys::{idempotency_key, rename_completion_key_material};
use eventfs::kinds::{attr, create_target, write_mode, HandleMode};
use eventfs::mutations::{
    execute_mkdir, execute_mknod, execute_rename, execute_unlink, reject_append_only_truncate,
    truncate_path,
};
use eventfs::overlay::{
    FileSnapshot, PendingWriteOverlay, PendingWritePayload, QueuedOverlayProjection,
};
use eventfs::path_cache::PathCache;
use eventfs::stale::PathSet;
use eventfs::upkeep::{
    apply_pending_watch_events, describe_failure, ensure_writes_allowed,
    invalidate_after_local_mutation, record_error, replay_queue, sync_writeback_gate, KEPT_ERRORS,
};
use eventfs::versions::VersionStamp;
use eventfs::{JetStreamAction, MaterializedTarget, MountPath};

type Request = StorageRequest;
type Reply = StorageReply;

fn mp(path: &str) -> MountPath {
    MountPath::new(path).unwrap()
}

/// What came of an operation: its result or error number, the requests that it made,
/// and its complaints.
struct Outcome<T> {
    result: Result<T, i32>,
    requests: Vec<Request>,
    complaints: Vec<String>,
}

/// Runs an operation until it is settled. Each request takes the next reply.
fn converse<T>(
    replies: Vec<Reply>,
    mut operation: impl FnMut(&mut Inquiry) -> Result<T, Pause>,
) -> Outcome<T> {
    let mut requests = Vec::new();
    let mut known: Vec<Reply> = Vec::new();
    let mut coming = replies.into_iter();
    loop {
        let mut inquiry = Inquiry::new(&known);
        let outcome = operation(&mut inquiry);
        let complaints = inquiry.complaints;
        match outcome {
            Err(Pause::Ask(request)) => {
                requests.push(request);
                known.push(coming.next().expect("a reply for every request"));
            }
            settled => {
                assert!(coming.next().is_none(), "every reply is asked for");
                return Outcome {
                    result: settled.map_err(|pause| match pause {
                        Pause::Fail(number) => number,
                        Pause::Ask(_) => unreachable!(),
                    }),
                    requests,
                    complaints,
                };
            }
        }
    }
}

fn failed(message: &str) -> Reply {
    Reply::Failed(StorageFailure::Other(message.into()))
}

fn not_found() -> Reply {
    Reply::Failed(StorageFailure::NotFound)
}

fn view(facts: Vec<PendingWriteOverlay>) -> MountView {
    MountView {
        overlay: QueuedOverlayProjection::new(facts),
        status: MountStatus {
            mount_name: "eventfs".into(),
            writes_blocked: false,
            queue_pending: 0,
            path_entries: 0,
            cached_files: 0,
            cache_generation: 0,
            queue_document: "{}".into(),
            recent_errors: Vec::new(),
        },
        mounted_at: 100,
    }
}

fn queued(path: &str, bytes: &[u8], time: i128) -> PendingWriteOverlay {
    PendingWriteOverlay {
        idempotency_key: "key".into(),
        version: VersionStamp::at(time),
        visible_paths: vec![mp(path)],
        deleted_paths: Vec::new(),
        payload: PendingWritePayload::WholeValue(bytes.to_vec()),
    }
}

fn kv_get(key: &str) -> Request {
    Request::KvGet {
        bucket: "demo".into(),
        key: key.into(),
    }
}

fn kv_prefix(prefix: &str) -> Request {
    Request::ListKvPrefix {
        bucket: "demo".into(),
        prefix: prefix.into(),
    }
}

fn revision(number: u64, created: i128, bytes: &[u8]) -> KeyRevision {
    KeyRevision {
        revision: number,
        created,
        bytes: bytes.to_vec(),
    }
}

fn entry(name: &str) -> DirectoryEntry {
    DirectoryEntry {
        name: name.into(),
        kind: EntryKind::File,
    }
}

// ---------------------------------------------------------------------------
// Replies
// ---------------------------------------------------------------------------

#[test]
fn requests_wait_for_their_replies() {
    let mut inquiry = Inquiry::new(&[]);
    assert!(matches!(
        inquiry.value(kv_get("a")),
        Err(Pause::Ask(request)) if request == kv_get("a")
    ));
}

#[test]
fn missing_things_are_not_found_and_other_failures_are_io_errors() {
    let outcome = converse(vec![not_found()], |inquiry| {
        inquiry.value(kv_get("a")).map(|_| ())
    });
    assert_eq!(outcome.result, Err(libc::ENOENT));
    assert!(outcome.complaints.is_empty());
    let outcome = converse(vec![failed("no connection")], |inquiry| {
        inquiry.value(kv_get("a")).map(|_| ())
    });
    assert_eq!(outcome.result, Err(libc::EIO));
    assert_eq!(outcome.complaints, ["no connection"]);
}

#[test]
fn replies_that_do_not_fit_are_io_errors() {
    let replies = [Reply::Done];
    let one = |ask: &dyn Fn(&mut Inquiry) -> bool| {
        let mut inquiry = Inquiry::new(&replies);
        assert!(ask(&mut inquiry));
        assert_eq!(inquiry.complaints, ["unexpected storage reply"]);
    };
    let request = || Request::ListStreams;
    one(&|inquiry| matches!(inquiry.value(request()), Err(Pause::Fail(libc::EIO))));
    one(&|inquiry| matches!(inquiry.revisions(request()), Err(Pause::Fail(libc::EIO))));
    one(&|inquiry| matches!(inquiry.names(request()), Err(Pause::Fail(libc::EIO))));
    one(&|inquiry| matches!(inquiry.entries(request()), Err(Pause::Fail(libc::EIO))));
    one(&|inquiry| matches!(inquiry.message(request()), Err(Pause::Fail(libc::EIO))));
    one(&|inquiry| matches!(inquiry.object(request()), Err(Pause::Fail(libc::EIO))));
    one(&|inquiry| matches!(inquiry.object_info(request()), Err(Pause::Fail(libc::EIO))));
    one(&|inquiry| matches!(inquiry.cached(request()), Err(Pause::Fail(libc::EIO))));
    one(&|inquiry| matches!(inquiry.flag(request()), Err(Pause::Fail(libc::EIO))));
    one(&|inquiry| matches!(inquiry.time(request()), Err(Pause::Fail(libc::EIO))));
    let replies = [Reply::Flag(true)];
    let mut inquiry = Inquiry::new(&replies);
    assert!(matches!(inquiry.done(request()), Err(Pause::Fail(libc::EIO))));
    let mut inquiry = Inquiry::new(&replies);
    assert!(matches!(
        inquiry.try_count(request()),
        Ok(Err(StorageFailure::Other(_)))
    ));
}

// ---------------------------------------------------------------------------
// Upkeep
// ---------------------------------------------------------------------------

#[test]
fn lost_watch_events_make_a_gap() {
    let outcome = converse(vec![Reply::Done], apply_pending_watch_events);
    assert_eq!(outcome.result, Ok(()));
    assert_eq!(outcome.requests, [Request::DrainWatchEvents]);
    let outcome = converse(
        vec![failed("gone"), Reply::Done],
        apply_pending_watch_events,
    );
    assert_eq!(outcome.result, Ok(()));
    assert_eq!(
        outcome.requests,
        [Request::DrainWatchEvents, Request::WatchGap]
    );
    assert_eq!(outcome.complaints, ["watch event drain failed: gone"]);
}

#[test]
fn invalidation_falls_back_to_the_subtree() {
    let outcome = converse(vec![not_found(), Reply::Done], |inquiry| {
        invalidate_after_local_mutation(inquiry, &mp("/kv/demo/a"))
    });
    assert_eq!(outcome.result, Ok(()));
    assert_eq!(
        outcome.requests,
        [
            Request::InvalidateLocal {
                path: mp("/kv/demo/a")
            },
            Request::InvalidateSubtree {
                path: mp("/kv/demo/a")
            }
        ]
    );
    assert_eq!(
        outcome.complaints,
        ["local invalidation planning failed for /kv/demo/a: not found"]
    );
    assert_eq!(describe_failure(&StorageFailure::NotFound), "not found");
}

#[test]
fn replay_ends_with_everything_stale() {
    let outcome = converse(
        vec![failed("busy"), Reply::Flag(false), Reply::Done],
        replay_queue,
    );
    assert_eq!(outcome.result, Ok(()));
    assert_eq!(
        outcome.requests,
        [
            Request::ReplayQueue,
            Request::WriteGate,
            Request::InvalidateAll
        ]
    );
    assert_eq!(
        outcome.complaints,
        [
            "queue replay failed: busy",
            "writeback queue has pending entries after replay; mount is read-only"
        ]
    );
}

#[test]
fn write_gate_decides_and_complains_once_closed() {
    let open = converse(vec![Reply::Flag(true)], ensure_writes_allowed);
    assert_eq!(open.result, Ok(()));
    let closed = converse(vec![Reply::Flag(false)], ensure_writes_allowed);
    assert_eq!(closed.result, Err(libc::EROFS));
    let synced = converse(vec![Reply::Flag(true)], |inquiry| {
        sync_writeback_gate(inquiry, "closing")
    });
    assert_eq!(synced.complaints, ["closing"]);
    let synced = converse(vec![Reply::Flag(false)], |inquiry| {
        sync_writeback_gate(inquiry, "closing")
    });
    assert!(synced.complaints.is_empty());
}

#[test]
fn latest_errors_are_kept() {
    let mut errors = Vec::new();
    for number in 0..KEPT_ERRORS + 3 {
        record_error(&mut errors, number.to_string());
        assert_eq!(errors.last(), Some(&number.to_string()));
    }
    assert_eq!(errors.len(), KEPT_ERRORS);
    assert_eq!(errors[0], "3");
}

#[test]
fn closed_gate_refuses_every_change() {
    let path = mp("/kv/demo/a");
    let other = mp("/kv/demo/b");
    let overlay = QueuedOverlayProjection::new(Vec::new());
    let closed = || vec![Reply::Flag(false)];
    let outcomes = [
        converse(closed(), |inquiry| {
            commit_mount_path_with_seed(inquiry, &path, b"x", "seed", 0)
        }),
        converse(closed(), |inquiry| execute_unlink(inquiry, &path)),
        converse(closed(), |inquiry| execute_mkdir(inquiry, &mp("/kv/demo"))),
        converse(closed(), |inquiry| {
            execute_rename(inquiry, &path, &other, 0, "seed").0
        }),
        converse(closed(), |inquiry| {
            execute_mknod(inquiry, &overlay, &path, libc::S_IFREG, "seed", 0)
                .0
                .map(|_| ())
        }),
        converse(closed(), |inquiry| truncate_path(inquiry, &path, "seed", 0).0),
    ];
    for outcome in outcomes {
        assert_eq!(outcome.result, Err(libc::EROFS));
        assert_eq!(outcome.requests, [Request::WriteGate]);
        assert!(outcome.complaints.is_empty());
    }
}

// ---------------------------------------------------------------------------
// Writing and reading back
// ---------------------------------------------------------------------------

#[test]
fn stored_value_is_remembered_and_read_back() {
    let path = mp("/kv/demo/a.txt");
    let written = converse(
        vec![
            Reply::Flag(true),
            Reply::Done,
            Reply::Done,
            Reply::Value(Some(revision(7, 55, b"value"))),
            Reply::Done,
        ],
        |inquiry| commit_mount_path_with_seed(inquiry, &path, b"value", "seed", 0),
    );
    assert_eq!(written.result, Ok(()));
    let memory = CacheEntry {
        path: "/kv/demo/a.txt".into(),
        origin: CacheOrigin::KvRevision {
            bucket: "demo".into(),
            key: "a.txt".into(),
            revision: 7,
        },
        version: VersionStamp::at(55),
        bytes: b"value".to_vec(),
        valid: true,
    };
    assert_eq!(
        written.requests,
        [
            Request::WriteGate,
            Request::KvPut {
                bucket: "demo".into(),
                key: "a.txt".into(),
                bytes: b"value".to_vec(),
                idempotency_key: idempotency_key("/kv/demo/a.txt", b"value", "seed"),
            },
            Request::InvalidateLocal { path: path.clone() },
            kv_get("a.txt"),
            Request::RememberFile {
                entry: memory.clone()
            },
        ]
    );
    let read = converse(
        vec![
            Reply::Done,
            Reply::Cached(Some(FileSnapshot {
                bytes: memory.bytes,
                version: memory.version,
            })),
        ],
        |inquiry| read_bytes(inquiry, &view(Vec::new()), &path),
    );
    assert_eq!(
        read.result,
        Ok(FileSnapshot {
            bytes: b"value".to_vec(),
            version: VersionStamp::at(55),
        })
    );
    assert_eq!(
        read.requests,
        [
            Request::DrainWatchEvents,
            Request::CachedFile {
                path: "/kv/demo/a.txt".into()
            }
        ]
    );
}

#[test]
fn refused_value_is_queued_and_the_commit_succeeds() {
    let path = mp("/objects/assets/logo");
    let outcome = converse(
        vec![
            Reply::Flag(true),
            failed("offline"),
            Reply::Time(77),
            Reply::Done,
            Reply::Done,
            Reply::Flag(true),
        ],
        |inquiry| commit_mount_path_with_seed(inquiry, &path, b"png", "seed", 0),
    );
    assert_eq!(outcome.result, Ok(()));
    let key = idempotency_key("/objects/assets/logo", b"png", "seed");
    assert_eq!(
        outcome.requests,
        [
            Request::WriteGate,
            Request::ObjectPut {
                bucket: "assets".into(),
                object: "logo".into(),
                bytes: b"png".to_vec(),
                idempotency_key: key.clone(),
            },
            Request::CurrentTime,
            Request::Enqueue {
                write: FailedWrite {
                    idempotency_key: key,
                    version: VersionStamp::at(77),
                    path: path.clone(),
                    operation: FailedWriteOperation::ObjectPut {
                        bucket: "assets".into(),
                        object: "logo".into(),
                        bytes: b"png".to_vec(),
                    },
                }
            },
            Request::InvalidateLocal { path: path.clone() },
            Request::SyncWriteGate,
        ]
    );
    assert_eq!(
        outcome.complaints,
        [
            "commit queued for /objects/assets/logo: offline",
            "writeback queue has pending entries after a queued write; mount is read-only"
        ]
    );
}

#[test]
fn full_queue_fails_the_commit() {
    let path = mp("/objects/assets/logo");
    let outcome = converse(
        vec![
            Reply::Flag(true),
            failed("offline"),
            Reply::Time(77),
            failed("queue is full"),
        ],
        |inquiry| commit_mount_path_with_seed(inquiry, &path, b"png", "seed", 0),
    );
    assert_eq!(outcome.result, Err(libc::EIO));
    assert_eq!(outcome.complaints[1], "queue is full");
}

#[test]
fn object_is_remembered_with_the_written_bytes() {
    let path = mp("/objects/assets/logo");
    let outcome = converse(
        vec![
            Reply::Flag(true),
            Reply::Done,
            Reply::Done,
            Reply::ObjectInfo(Some(ObjectMetadata {
                size: 3,
                modified: 12,
            })),
            Reply::Done,
        ],
        |inquiry| commit_mount_path_with_seed(inquiry, &path, b"png", "seed", 0),
    );
    assert_eq!(outcome.result, Ok(()));
    assert!(matches!(
        &outcome.requests[4],
        Request::RememberFile { entry }
            if entry.bytes == b"png" && entry.version == VersionStamp::at(12)
    ));
}

#[test]
fn value_that_cannot_be_remembered_is_only_a_complaint() {
    let path = mp("/kv/demo/a.txt");
    let outcome = converse(
        vec![
            Reply::Flag(true),
            Reply::Done,
            Reply::Done,
            failed("unreadable"),
        ],
        |inquiry| commit_mount_path_with_seed(inquiry, &path, b"value", "seed", 0),
    );
    assert_eq!(outcome.result, Ok(()));
    assert_eq!(
        outcome.complaints,
        ["cache refresh after write failed for /kv/demo/a.txt: unreadable"]
    );
}

#[test]
fn unacceptable_payload_leaves_no_trace() {
    for (path, bytes) in [
        ("/events/system.jsonl", &b"not json\n"[..]),
        ("/tasks/ns/job.json", &b"not json"[..]),
        ("/events/system.jsonl", &b"\xff\n"[..]),
    ] {
        let path = mp(path);
        let outcome = converse(vec![Reply::Flag(true)], |inquiry| {
            commit_mount_path_with_seed(inquiry, &path, bytes, "seed", 0)
        });
        assert_eq!(outcome.result, Err(libc::EINVAL));
        assert_eq!(outcome.requests, [Request::WriteGate]);
    }
}

#[test]
fn payloads_are_checked_by_where_they_go() {
    let record = JetStreamAction::MaterializedPut {
        target: MaterializedTarget::Kv {
            bucket: "b".into(),
            key: "k".into(),
        },
    };
    let lines = JetStreamAction::PublishJsonLines {
        stream: "s".into(),
        subject: "t".into(),
    };
    let value = JetStreamAction::KvPut {
        bucket: "b".into(),
        key: "k".into(),
    };
    let path = mp("/tasks/ns/job.json");
    assert_eq!(validate_payload(&record, &path, b"{}"), Ok(()));
    assert_eq!(
        validate_payload(&record, &path, b"{}\n{}"),
        Err(libc::EINVAL)
    );
    assert_eq!(validate_payload(&lines, &path, b"{}\n{}"), Ok(()));
    assert_eq!(validate_payload(&lines, &path, b"{"), Err(libc::EINVAL));
    assert_eq!(validate_payload(&value, &path, b"\xff"), Ok(()));
}

#[test]
fn queued_value_is_read_back_without_asking() {
    let path = mp("/kv/demo/a.txt");
    let outcome = converse(vec![Reply::Done], |inquiry| {
        let view = view(vec![
            queued("/kv/demo/a.txt", b"old", 5),
            queued("/kv/demo/a.txt", b"new", 6),
        ]);
        read_bytes(inquiry, &view, &path)
    });
    assert_eq!(
        outcome.result,
        Ok(FileSnapshot {
            bytes: b"new".to_vec(),
            version: VersionStamp::at(6),
        })
    );
    assert_eq!(outcome.requests, [Request::DrainWatchEvents]);
}

#[test]
fn queued_move_shows_at_its_target() {
    let moved = || {
        let mut fact = queued("/kv/demo/b.txt", b"value", 6);
        fact.deleted_paths = vec![mp("/kv/demo/a.txt")];
        view(vec![queued("/kv/demo/a.txt", b"value", 5), fact])
    };
    let target = converse(vec![Reply::Done], |inquiry| {
        read_bytes(inquiry, &moved(), &mp("/kv/demo/b.txt"))
    });
    assert_eq!(target.result.unwrap().bytes, b"value");
    let source = converse(vec![Reply::Done], |inquiry| {
        read_bytes(inquiry, &moved(), &mp("/kv/demo/a.txt"))
    });
    assert_eq!(source.result, Err(libc::ENOENT));
}

#[test]
fn queued_lines_are_read_behind_the_log() {
    let path = mp("/events/system.jsonl");
    let lines = || {
        view(vec![PendingWriteOverlay {
            idempotency_key: "key".into(),
            version: VersionStamp::at(9),
            visible_paths: vec![mp("/events/system.jsonl")],
            deleted_paths: Vec::new(),
            payload: PendingWritePayload::JsonLines {
                stream: "system".into(),
                subject: "events.system".into(),
                bytes: b"[1]\n[2]\n[3]\n".to_vec(),
                applied_lines: 1,
            },
        }])
    };
    let outcome = converse(
        vec![
            Reply::Done,
            Reply::Cached(Some(FileSnapshot {
                bytes: b"[0]\n[1]\n[2]\n".to_vec(),
                version: VersionStamp::at(4),
            })),
            Reply::Count(2),
        ],
        |inquiry| read_bytes(inquiry, &lines(), &path),
    );
    assert_eq!(
        outcome.result,
        Ok(FileSnapshot {
            bytes: b"[0]\n[1]\n[2]\n[3]\n".to_vec(),
            version: VersionStamp::at(9),
        })
    );
    assert_eq!(
        outcome.requests[2],
        Request::AppliedJsonLines {
            stream: "system".into(),
            subject: "events.system".into(),
            bytes: b"[1]\n[2]\n[3]\n".to_vec(),
            idempotency_key: "key".into(),
        }
    );
}

#[test]
fn errors_file_shows_what_came_up_while_it_was_read() {
    let mut mount = view(Vec::new());
    mount.status.recent_errors = vec!["before".into()];
    let outcome = converse(
        vec![failed("gone"), Reply::Done, Reply::Cached(None)],
        |inquiry| read_bytes(inquiry, &mount, &mp("/.eventfs/errors.jsonl")),
    );
    assert_eq!(
        String::from_utf8(outcome.result.unwrap().bytes).unwrap(),
        "{\"error\":\"before\"}\n{\"error\":\"watch event drain failed: gone\"}"
    );
}

#[test]
fn directories_are_not_read() {
    let outcome = converse(
        vec![Reply::Done, Reply::Cached(None)],
        |inquiry| read_bytes(inquiry, &view(Vec::new()), &mp("/kv/demo")),
    );
    assert!(outcome.result.is_err());
}

// ---------------------------------------------------------------------------
// Removing, making and moving
// ---------------------------------------------------------------------------

#[test]
fn unlink_removes_and_forgets() {
    let path = mp("/tasks/ns/job.json");
    let outcome = converse(
        vec![Reply::Flag(true), Reply::Done, Reply::Done, Reply::Done],
        |inquiry| execute_unlink(inquiry, &path),
    );
    assert_eq!(outcome.result, Ok(()));
    assert_eq!(
        outcome.requests,
        [
            Request::WriteGate,
            Request::KvDelete {
                bucket: "EVENTFS_TASKS".into(),
                key: "ns/job.json".into()
            },
            Request::InvalidateLocal { path: path.clone() },
            Request::ForgetPath { path: path.clone() },
        ]
    );
    let outcome = converse(vec![Reply::Flag(true), not_found()], |inquiry| {
        execute_unlink(inquiry, &path)
    });
    assert_eq!(outcome.result, Err(libc::ENOENT));
    for (path, number) in [
        ("/streams/orders/messages/7.json", libc::EROFS),
        ("/events/system.jsonl", libc::ENOTSUP),
        ("/nowhere", libc::EINVAL),
    ] {
        let path = mp(path);
        let outcome = converse(vec![Reply::Flag(true)], |inquiry| {
            execute_unlink(inquiry, &path)
        });
        assert_eq!(outcome.result, Err(number));
    }
}

#[test]
fn directories_below_a_bucket_are_only_found() {
    let path = mp("/kv/demo/dir");
    let mkdir = |replies| converse(replies, |inquiry| execute_mkdir(inquiry, &path));
    let file = mkdir(vec![
        Reply::Flag(true),
        Reply::Value(Some(revision(1, 1, b"x"))),
    ]);
    assert_eq!(file.result, Err(libc::EEXIST));
    let missing = mkdir(vec![
        Reply::Flag(true),
        Reply::Value(None),
        Reply::Entries(Vec::new()),
    ]);
    assert_eq!(missing.result, Err(libc::ENOENT));
    let there = mkdir(vec![
        Reply::Flag(true),
        Reply::Value(None),
        Reply::Entries(vec![entry("file")]),
    ]);
    assert_eq!(there.result, Ok(()));
    assert_eq!(
        there.requests,
        [Request::WriteGate, kv_get("dir"), kv_prefix("dir")]
    );
}

#[test]
fn buckets_and_streams_are_made() {
    for (path, request) in [
        (
            "/kv/new",
            Request::EnsureKvBucket {
                bucket: "new".into(),
            },
        ),
        (
            "/streams/new",
            Request::EnsureStream {
                stream: "new".into(),
            },
        ),
        (
            "/objects/new",
            Request::EnsureObjectBucket {
                bucket: "new".into(),
            },
        ),
    ] {
        let path = mp(path);
        let outcome = converse(vec![Reply::Flag(true), Reply::Done], |inquiry| {
            execute_mkdir(inquiry, &path)
        });
        assert_eq!(outcome.result, Ok(()));
        assert_eq!(outcome.requests[1], request);
    }
}

#[test]
fn moves_are_queued_and_worked_off() {
    let from = mp("/kv/demo/a");
    let to = mp("/kv/demo/b");
    let outcome = converse(
        vec![
            Reply::Flag(true),
            Reply::Value(Some(revision(9, 3, b"value"))),
            Reply::Value(Some(revision(9, 3, b"value"))),
            Reply::Value(None),
            Reply::Entries(Vec::new()),
            Reply::Time(44),
            Reply::Done,
            Reply::Done,
            Reply::Flag(true),
            Reply::Done,
            Reply::Done,
            Reply::Done,
            Reply::Done,
        ],
        |inquiry| execute_rename(inquiry, &from, &to, 0, "seed").0,
    );
    assert_eq!(outcome.result, Ok(()));
    let material = rename_completion_key_material("/kv/demo/a", 9, b"value");
    assert_eq!(
        outcome.requests,
        [
            Request::WriteGate,
            kv_get("a"),
            kv_get("a"),
            kv_get("b"),
            kv_prefix("b"),
            Request::CurrentTime,
            Request::Enqueue {
                write: FailedWrite {
                    idempotency_key: idempotency_key("/kv/demo/b", &material, "seed"),
                    version: VersionStamp::at(44),
                    path: to.clone(),
                    operation: FailedWriteOperation::KvRenameComplete {
                        from_bucket: "demo".into(),
                        from_key: "a".into(),
                        source_revision: 9,
                        to_bucket: "demo".into(),
                        to_key: "b".into(),
                        bytes: b"value".to_vec(),
                    },
                }
            },
            Request::ReplayQueue,
            Request::WriteGate,
            Request::InvalidateAll,
            Request::InvalidateLocal { path: from.clone() },
            Request::ForgetPath { path: from.clone() },
            Request::InvalidateLocal { path: to.clone() },
        ]
    );
}

#[test]
fn objects_are_moved_by_sequence_and_nuid() {
    let from = mp("/objects/assets/a");
    let to = mp("/objects/assets/b");
    let info = || {
        Reply::ObjectInfo(Some(ObjectMetadata {
            size: 1,
            modified: 1,
        }))
    };
    let outcome = converse(
        vec![
            Reply::Flag(true),
            info(),
            Reply::Object(Some(ObjectVersion {
                sequence: 5,
                nuid: "n".into(),
                modified: 1,
                bytes: b"x".to_vec(),
            })),
            info(),
            Reply::Time(44),
            failed("queue is full"),
        ],
        |inquiry| execute_rename(inquiry, &from, &to, 0, "seed").0,
    );
    assert_eq!(outcome.result, Err(libc::EIO));
    assert!(matches!(
        &outcome.requests[5],
        Request::Enqueue {
            write: FailedWrite {
                operation: FailedWriteOperation::ObjectRenameComplete {
                    source_sequence: 5,
                    ..
                },
                ..
            }
        }
    ));
}

#[test]
fn moves_that_cannot_be_made_are_refused() {
    let rename = |replies, from: &str, to: &str, flags| {
        let (from, to) = (mp(from), mp(to));
        converse(replies, |inquiry| {
            execute_rename(inquiry, &from, &to, flags, "seed").0
        })
    };
    let open = || vec![Reply::Flag(true)];
    let same = rename(open(), "/kv/demo/a", "/kv/demo/a", 0);
    assert_eq!(same.result, Ok(()));
    assert_eq!(same.requests, [Request::WriteGate]);
    assert_eq!(
        rename(open(), "/kv/demo/a", "/kv/demo/b", 1).result,
        Err(libc::EINVAL)
    );
    assert_eq!(
        rename(open(), "/kv/demo/a", "/kv/other/b", 0).result,
        Err(libc::EXDEV)
    );
    let missing = vec![
        Reply::Flag(true),
        Reply::Value(None),
        Reply::Entries(Vec::new()),
    ];
    assert_eq!(
        rename(missing, "/kv/demo/a", "/kv/demo/b", 0).result,
        Err(libc::ENOENT)
    );
    let directory = vec![
        Reply::Flag(true),
        Reply::Value(None),
        Reply::Entries(vec![entry("x")]),
    ];
    assert_eq!(
        rename(directory, "/kv/demo/a", "/kv/demo/b", 0).result,
        Err(libc::EISDIR)
    );
    let onto_directory = vec![
        Reply::Flag(true),
        Reply::Value(Some(revision(9, 3, b"value"))),
        Reply::Value(Some(revision(9, 3, b"value"))),
        Reply::Value(None),
        Reply::Entries(vec![entry("x")]),
    ];
    assert_eq!(
        rename(onto_directory, "/kv/demo/a", "/kv/demo/b", 0).result,
        Err(libc::EISDIR)
    );
}

#[test]
fn only_regular_files_are_made() {
    let overlay = QueuedOverlayProjection::new(Vec::new());
    let outcome = converse(vec![Reply::Flag(true)], |inquiry| {
        execute_mknod(inquiry, &overlay, &mp("/kv/demo/a"), libc::S_IFIFO, "seed", 0).0
    });
    assert_eq!(outcome.result, Err(libc::ENOTSUP));
    let existing = converse(
        vec![
            Reply::Flag(true),
            Reply::Done,
            Reply::Value(Some(revision(1, 1, b"x"))),
        ],
        |inquiry| {
            execute_mknod(
                inquiry,
                &overlay,
                &mp("/kv/demo/a"),
                libc::S_IFREG | 0o644,
                "seed",
                0,
            )
            .0
        },
    );
    assert_eq!(existing.result, Err(libc::EEXIST));
}

#[test]
fn new_records_hold_null_and_other_files_nothing() {
    let overlay = QueuedOverlayProjection::new(Vec::new());
    let payload = |path: &str, replies| {
        let path = mp(path);
        converse(replies, |inquiry| create_target(inquiry, &overlay, &path))
            .result
            .unwrap()
            .into_default_payload()
    };
    let missing = || {
        vec![
            Reply::Done,
            Reply::Value(None),
            Reply::Entries(Vec::new()),
        ]
    };
    assert_eq!(payload("/tasks/ns/job.json", missing()), b"null".to_vec());
    assert_eq!(payload("/kv/demo/a.txt", missing()), Vec::<u8>::new());
}

#[test]
fn logs_are_appended_to_and_never_cut() {
    assert_eq!(
        write_mode(&mp("/events/system.jsonl")),
        Ok(HandleMode::JsonLines)
    );
    assert_eq!(write_mode(&mp("/kv/demo/a")), Ok(HandleMode::WholeValue));
    assert_eq!(write_mode(&mp("/kv/demo")), Err(libc::EISDIR));
    assert_eq!(
        reject_append_only_truncate(&mp("/events/system.jsonl")),
        Err(libc::EROFS)
    );
    assert_eq!(reject_append_only_truncate(&mp("/kv/demo/a")), Ok(()));
    let outcome = converse(Vec::new(), |inquiry| {
        truncate_path(inquiry, &mp("/events/system.jsonl"), "seed", 0).0
    });
    assert_eq!(outcome.result, Err(libc::EROFS));
    assert!(outcome.requests.is_empty());
}

// ---------------------------------------------------------------------------
// Open files
// ---------------------------------------------------------------------------

/// Opens a file for writing whose value is queued.
fn opened(handles: &mut Handles, path: &str, bytes: &[u8]) -> RuntimeHandleId {
    let options = RuntimeOpenOptions {
        writable: true,
        truncate: false,
        create: false,
    };
    let view = view(vec![queued(path, bytes, 5)]);
    let path = mp(path);
    converse(vec![Reply::Flag(true), Reply::Done], |inquiry| {
        handles.open_handle(inquiry, &view, &path, options)
    })
    .result
    .unwrap()
}

#[test]
fn staged_data_is_read_back_and_committed_once() {
    let mut handles = Handles::new("eventfs", 1);
    let path = mp("/kv/demo/a.txt");
    let handle = opened(&mut handles, "/kv/demo/a.txt", b"hello");
    assert!(handles.contains(handle.raw()));
    let wrote = converse(vec![Reply::Flag(true)], |inquiry| {
        handles.write_to_handle_buffer(inquiry, handle, 3, b"p!")
    });
    assert_eq!(wrote.result, Ok(2));
    let read = converse(Vec::new(), |inquiry| {
        handles.read_handle(inquiry, &view(Vec::new()), handle, &path)
    });
    assert_eq!(read.result, Ok(b"help!".to_vec()));
    assert_eq!(
        handle_commit_bytes(handles.get(handle.raw()).unwrap()),
        b"help!".to_vec()
    );
    let seed = handles.commit_seed();
    let committed = converse(
        vec![
            Reply::Flag(true),
            Reply::Done,
            Reply::Done,
            Reply::Value(None),
        ],
        |inquiry| handles.commit_handle(inquiry, handle, 0),
    );
    assert_eq!(committed.result, Ok(()));
    assert!(matches!(
        &committed.requests[1],
        Request::KvPut { bytes, idempotency_key: key, .. }
            if bytes == b"help!" && *key == idempotency_key("/kv/demo/a.txt", b"help!", "eventfs:1:1")
    ), "{seed}");
    let again = converse(Vec::new(), |inquiry| {
        handles.commit_handle(inquiry, handle, 0)
    });
    assert_eq!(again.result, Ok(()));
    assert!(again.requests.is_empty());
    let released = converse(Vec::new(), |inquiry| {
        handles.release_handle(inquiry, handle, 0)
    });
    assert_eq!(released.result, Ok(()));
    assert!(!handles.contains(handle.raw()));
}

#[test]
fn writes_behind_the_end_are_filled_with_zeros() {
    let mut bytes = b"ab".to_vec();
    patch_bytes(&mut bytes, 4, b"cd");
    assert_eq!(bytes, b"ab\0\0cd".to_vec());
    patch_bytes(&mut bytes, 0, b"xy");
    assert_eq!(bytes, b"xy\0\0cd".to_vec());
    patch_bytes(&mut bytes, 3, b"");
    assert_eq!(bytes, b"xy\0\0cd".to_vec());
}

#[test]
fn closed_files_are_bad_descriptors() {
    let mut handles = Handles::new("eventfs", 1);
    let closed = RuntimeHandleId::from_raw(99);
    assert_eq!(handles.flush_handle(closed), Err(libc::EBADF));
    let wrote = converse(Vec::new(), |inquiry| {
        handles.write_to_handle_buffer(inquiry, closed, 0, b"x")
    });
    assert_eq!(wrote.result, Err(libc::EBADF));
    let first = opened(&mut handles, "/kv/demo/a.txt", b"x");
    let second = opened(&mut handles, "/kv/demo/a.txt", b"x");
    assert_ne!(first, second);
    handles.discard(first.raw());
    assert!(!handles.contains(first.raw()));
    assert!(handles.contains(second.raw()));
}

#[test]
fn staged_lines_follow_the_log_and_commits_move_its_end() {
    let mut handles = Handles::new("eventfs", 1);
    let path = mp("/events/system.jsonl");
    let log = |bytes: &[u8]| {
        Reply::Cached(Some(FileSnapshot {
            bytes: bytes.to_vec(),
            version: VersionStamp::at(1),
        }))
    };
    let options = RuntimeOpenOptions {
        writable: true,
        truncate: false,
        create: false,
    };
    let handle = converse(
        vec![Reply::Flag(true), Reply::Done, log(b"[0]\n")],
        |inquiry| handles.open_handle(inquiry, &view(Vec::new()), &path, options),
    )
    .result
    .unwrap();
    let early = converse(vec![Reply::Flag(true)], |inquiry| {
        handles.write_to_handle_buffer(inquiry, handle, 3, b"[1]\n")
    });
    assert_eq!(early.result, Err(libc::EINVAL));
    let wrote = converse(vec![Reply::Flag(true)], |inquiry| {
        handles.write_to_handle_buffer(inquiry, handle, 4, b"[1]\n")
    });
    assert_eq!(wrote.result, Ok(4));
    let read = converse(vec![Reply::Done, log(b"[0]\n[x]\n")], |inquiry| {
        handles.read_handle(inquiry, &view(Vec::new()), handle, &path)
    });
    assert_eq!(read.result, Ok(b"[0]\n[1]\n".to_vec()));
    let committed = converse(
        vec![
            Reply::Flag(true),
            Reply::Entries(Vec::new()),
            Reply::Done,
            Reply::Done,
        ],
        |inquiry| handles.commit_handle(inquiry, handle, 0),
    );
    assert_eq!(committed.result, Ok(()));
    assert!(matches!(
        &committed.requests[2],
        Request::PublishJsonLines { bytes, .. } if bytes == b"[1]\n"
    ));
    let file = handles.get(handle.raw()).unwrap();
    assert_eq!((file.base_offset, file.buffer.len(), file.dirty), (8, 0, false));
    let cut = converse(Vec::new(), |inquiry| {
        handles.stage_truncate(inquiry, handle)
    });
    assert_eq!(cut.result, Err(libc::EROFS));
}

#[test]
fn other_files_stay_as_they_are() {
    let mut handles = Handles::new("eventfs", 1);
    let first = opened(&mut handles, "/kv/demo/a.txt", b"first");
    let second = opened(&mut handles, "/kv/demo/b.txt", b"second");
    let cut = converse(vec![Reply::Flag(true)], |inquiry| {
        handles.stage_truncate(inquiry, first)
    });
    assert_eq!(cut.result, Ok(()));
    assert!(handles.get(first.raw()).unwrap().buffer.is_empty());
    assert_eq!(handles.get(second.raw()).unwrap().buffer, b"second".to_vec());
    let closed = converse(vec![Reply::Flag(false)], |inquiry| {
        handles.release_handle(inquiry, first, 0)
    });
    assert_eq!(closed.result, Err(libc::EROFS));
    assert!(!handles.contains(first.raw()));
    assert!(handles.contains(second.raw()));
}

#[test]
fn open_questions_change_nothing() {
    let mut handles = Handles::new("eventfs", 1);
    let handle = opened(&mut handles, "/kv/demo/a.txt", b"old");
    let mut inquiry = Inquiry::new(&[]);
    assert!(matches!(
        handles.write_to_handle_buffer(&mut inquiry, handle, 0, b"new"),
        Err(Pause::Ask(_))
    ));
    let file = handles.get(handle.raw()).unwrap();
    assert_eq!((file.buffer.as_slice(), file.dirty), (&b"old"[..], false));
    assert_eq!(handles.commit_seed(), "eventfs:1:2");
}

#[test]
fn created_files_are_described_by_what_is_staged() {
    let mut handles = Handles::new("eventfs", 1);
    let path = mp("/tasks/ns/job.json");
    let options = RuntimeOpenOptions {
        writable: true,
        truncate: false,
        create: true,
    };
    let handle = converse(
        vec![
            Reply::Flag(true),
            Reply::Done,
            Reply::Value(None),
            Reply::Entries(Vec::new()),
            Reply::Time(31),
        ],
        |inquiry| handles.open_handle(inquiry, &view(Vec::new()), &path, options),
    )
    .result
    .unwrap();
    let mut stale = PathSet::new();
    let paths = PathCache::new();
    let attr = converse(Vec::new(), |inquiry| {
        handles.created_handle_attr(
            inquiry,
            &view(Vec::new()),
            &mut stale,
            &paths,
            handle,
            &path,
        )
    });
    let attr = attr.result.unwrap();
    assert_eq!((attr.kind, attr.size), (EntryKind::File, 0));
    assert_eq!(attr.version, VersionStamp::at(31));
    let other = converse(Vec::new(), |inquiry| {
        handles.created_handle_attr(
            inquiry,
            &view(Vec::new()),
            &mut stale,
            &paths,
            handle,
            &mp("/tasks/ns/other.json"),
        )
    });
    assert_eq!(other.result, Err(libc::EINVAL));
    assert_eq!(
        handle_commit_bytes(handles.get(handle.raw()).unwrap()),
        b"null".to_vec()
    );
}

#[test]
fn unknown_numbers_are_opened_for_writing() {
    let mut handles = Handles::new("eventfs", 1);
    let path = mp("/kv/demo/a.txt");
    let mount = view(vec![queued("/kv/demo/a.txt", b"x", 5)]);
    let opened = converse(vec![Reply::Flag(true), Reply::Done], |inquiry| {
        handles.writable_handle(inquiry, &mount, 40, &path)
    });
    assert_eq!(opened.result, Ok(RuntimeHandleId::from_raw(40)));
    let known = converse(Vec::new(), |inquiry| {
        handles.writable_handle(inquiry, &mount, 40, &path)
    });
    assert_eq!(known.result, Ok(RuntimeHandleId::from_raw(40)));
}

// ---------------------------------------------------------------------------
// Listings and attributes
// ---------------------------------------------------------------------------

fn listed(facts: Vec<PendingWriteOverlay>, path: &str, replies: Vec<Reply>) -> Vec<String> {
    let overlay = QueuedOverlayProjection::new(facts);
    let path = mp(path);
    converse(replies, |inquiry| directory_entries(inquiry, &overlay, &path))
        .result
        .unwrap()
        .into_iter()
        .map(|entry| entry.name)
        .collect()
}

#[test]
fn latest_queued_writes_and_removals_show_in_listings() {
    let stored = || {
        vec![
            Reply::Done,
            Reply::Entries(vec![entry("old.png")]),
        ]
    };
    let written = queued("/objects/assets/new.png", b"x", 5);
    assert_eq!(
        listed(vec![written], "/objects/assets", stored()),
        ["old.png", "new.png"]
    );
    let mut removed = queued("/objects/assets/new.png", b"x", 6);
    removed.deleted_paths = vec![mp("/objects/assets/old.png")];
    let mut replies = stored();
    replies.push(Reply::Entries(Vec::new()));
    assert_eq!(
        listed(vec![removed], "/objects/assets", replies),
        ["new.png"]
    );
    assert_eq!(
        listed(Vec::new(), "/objects/assets", stored()),
        ["old.png"]
    );
}

#[test]
fn queued_entries_are_listed_in_order() {
    let mut fact = queued("/objects/assets/c", b"x", 5);
    fact.visible_paths = vec![
        mp("/objects/assets/c"),
        mp("/objects/assets/a/deep"),
        mp("/objects/assets/b"),
        mp("/objects/assets/a/other"),
    ];
    let overlay = QueuedOverlayProjection::new(vec![fact]);
    let names: Vec<String> = overlay
        .directory_entries(&mp("/objects/assets"))
        .into_iter()
        .map(|entry| entry.name)
        .collect();
    assert_eq!(names, ["a", "b", "c"]);
}

#[test]
fn agents_are_listed_once_in_order() {
    let names = listed(
        Vec::new(),
        "/agents",
        vec![
            Reply::Done,
            Reply::Entries(vec![entry("zoe"), entry("bot")]),
            Reply::Names(vec!["amy".into(), "bot".into()]),
        ],
    );
    assert_eq!(names, ["amy", "bot", "zoe"]);
    let names = listed(
        Vec::new(),
        "/agents",
        vec![Reply::Done, not_found(), not_found()],
    );
    assert!(names.is_empty());
}

#[test]
fn buckets_always_have_a_history() {
    let names = listed(
        Vec::new(),
        "/kv/demo",
        vec![Reply::Done, Reply::Entries(vec![entry("a")])],
    );
    assert_eq!(names, [".history", "a"]);
}

#[test]
fn sizes_are_lengths_of_content() {
    let mut stale = PathSet::new();
    let paths = PathCache::new();
    let mount = view(vec![queued("/kv/demo/a.txt", b"12345", 5)]);
    let outcome = converse(vec![Reply::Done], |inquiry| {
        attr(inquiry, &mount, &mut stale, &paths, &mp("/kv/demo/a.txt"))
    });
    let shown = outcome.result.unwrap();
    assert_eq!((shown.kind, shown.size), (EntryKind::File, 5));
    assert_eq!(shown.version, VersionStamp::at(5));
    let mut removal = queued("/kv/demo/b.txt", b"", 6);
    removal.deleted_paths = vec![mp("/kv/demo/a.txt")];
    let mount = view(vec![removal]);
    let outcome = converse(
        vec![Reply::Done, Reply::Entries(Vec::new())],
        |inquiry| attr(inquiry, &mount, &mut stale, &paths, &mp("/kv/demo/a.txt")),
    );
    assert_eq!(outcome.result, Err(libc::ENOENT));
}
