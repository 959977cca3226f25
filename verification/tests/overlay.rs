use eventfs::entries::{DirectoryEntry, EntryKind};
use eventfs::overlay::{PendingWriteOverlay, PendingWritePayload, QueuedOverlayProjection};
use eventfs::versions::{Time, VersionStamp};
use eventfs::{JetStreamPath, MountPath};

fn mp(path: &str) -> MountPath {
    MountPath::new(path).unwrap()
}

fn fact(
    id: &str,
    version: u64,
    visible_paths: Vec<MountPath>,
    deleted_paths: Vec<MountPath>,
    payload: PendingWritePayload,
) -> PendingWriteOverlay {
    PendingWriteOverlay {
        idempotency_key: id.into(),
        version: VersionStamp::at(version as Time * 1_000_000_000),
        visible_paths,
        deleted_paths,
        payload,
    }
}

#[test]
fn queued_overlay_whole_value_uses_latest_visible_fact_and_delete_coverage() {
    let overlay = QueuedOverlayProjection::new(vec![
        fact(
            "old",
            1,
            vec![mp("/kv/bucket/file.json")],
            Vec::new(),
            PendingWritePayload::WholeValue(b"old".to_vec()),
        ),
        fact(
            "delete",
            2,
            Vec::new(),
            vec![mp("/kv/bucket/file.json")],
            PendingWritePayload::WholeValue(Vec::new()),
        ),
    ]);

    assert!(overlay
        .whole_value_snapshot(&mp("/kv/bucket/file.json"))
        .is_none());
    assert!(overlay.latest_delete_covers(&mp("/kv/bucket/file.json")));
}

#[test]
fn queued_overlay_exposes_jsonl_entries_without_durable_queue_shape() {
    let overlay = QueuedOverlayProjection::new(vec![fact(
        "jsonl",
        3,
        vec![
            mp("/events/system.jsonl"),
            mp("/streams/system/subjects/events.system.jsonl"),
        ],
        Vec::new(),
        PendingWritePayload::JsonLines {
            stream: "system".into(),
            subject: "events.system".into(),
            bytes: br#"{"line":1}
"#
            .to_vec(),
            applied_lines: 0,
        },
    )]);

    let entries = overlay.jsonl_entries(&mp("/events/system.jsonl"));
    assert_eq!(entries.len(), 1);
    assert_eq!(entries[0].idempotency_key, "jsonl");
    assert!(overlay.has_jsonl_entry(&mp("/streams/system/subjects/events.system.jsonl")));
}

#[test]
fn queued_overlay_derives_directory_children_and_versions_from_mount_paths() {
    let overlay = QueuedOverlayProjection::new(vec![fact(
        "nested",
        4,
        vec![mp("/kv/bucket/dir/file.json")],
        Vec::new(),
        PendingWritePayload::WholeValue(b"{}".to_vec()),
    )]);

    assert_eq!(
        overlay.directory_entries(&mp("/kv/bucket")),
        vec![DirectoryEntry {
            name: "dir".into(),
            kind: EntryKind::Directory,
        }]
    );
    assert_eq!(
        overlay.overlay_version(&mp("/kv/bucket")).unwrap(),
        VersionStamp::at(4_000_000_000)
    );
}

#[test]
fn queued_overlay_owns_synthetic_directory_delete_policy() {
    let parsed = JetStreamPath::parse("/kv/bucket/dir").unwrap();

    assert!(QueuedOverlayProjection::exact_delete_reveals_synthetic_directory(&parsed, true));
    assert!(
        QueuedOverlayProjection::deleted_descendant_empties_synthetic_directory(
            &parsed, false, false
        )
    );
    assert!(QueuedOverlayProjection::delete_can_elide_directory_child(
        &mp("/kv/bucket/dir")
    ));
}

#[test]
fn queued_listings_versions_and_lines_follow_the_queue() {
    let lines = |applied_lines: usize| PendingWritePayload::JsonLines {
        stream: "s".into(),
        subject: "t".into(),
        bytes: b"[1]\n".to_vec(),
        applied_lines,
    };
    let whole = || PendingWritePayload::WholeValue(b"v".to_vec());
    let overlay = QueuedOverlayProjection::new(vec![
        fact("a", 3, vec![mp("/kv/app/z/deep")], vec![], whole()),
        fact("b", 1, vec![mp("/kv/app/m"), mp("/kv/app/z")], vec![], whole()),
        fact("c", 2, vec![mp("/events/s.jsonl")], vec![], lines(0)),
        fact("d", 2, vec![mp("/events/s.jsonl")], vec![mp("/kv/app/m")], lines(1)),
    ]);
    let listed: Vec<(String, EntryKind)> = overlay
        .directory_entries(&mp("/kv/app"))
        .into_iter()
        .map(|entry| (entry.name, entry.kind))
        .collect();
    assert_eq!(
        listed,
        [
            ("m".to_string(), EntryKind::File),
            ("z".to_string(), EntryKind::File)
        ]
    );
    assert_eq!(
        overlay.overlay_version(&mp("/kv/app")),
        Some(VersionStamp::at(3_000_000_000))
    );
    assert_eq!(
        overlay.overlay_version(&mp("/kv/app/m")),
        Some(VersionStamp::at(1_000_000_000))
    );
    assert_eq!(overlay.overlay_version(&mp("/objects")), None);
    let applied: Vec<usize> = overlay
        .jsonl_entries(&mp("/events/s.jsonl"))
        .iter()
        .map(|entry| entry.applied_lines)
        .collect();
    assert_eq!(applied, [0, 1]);
}
