use eventfs::{
    AffectedPath, AffectedPathReason, JetStreamPath, MountPath, StorageFact, StreamSubject,
    AGENTS_BUCKET, AGENTS_STREAM, SEMANTIC_BUCKET, TASKS_BUCKET, invalidation_paths,
    invalidation_paths_for_mount_path, visible_paths,
};

fn strings(paths: Vec<AffectedPath>) -> Vec<String> {
    paths
        .into_iter()
        .map(|affected| affected.path.into_string())
        .collect()
}

fn reasons(paths: Vec<AffectedPath>) -> Vec<AffectedPathReason> {
    paths.into_iter().map(|affected| affected.reason).collect()
}

#[test]
fn mount_path_normalizes_to_absolute_without_trailing_or_redundant_slashes() {
    assert_eq!(MountPath::new("").unwrap().as_str(), "/");
    assert_eq!(
        MountPath::new("kv/bucket/key").unwrap().as_str(),
        "/kv/bucket/key"
    );
    assert_eq!(
        MountPath::new("//kv//bucket/key//").unwrap().as_str(),
        "/kv/bucket/key"
    );
    assert_eq!(MountPath::new("/").unwrap().as_str(), "/");
}

#[test]
fn mount_path_rejects_ambiguous_or_invalid_components() {
    assert!(MountPath::new("/kv/../bucket").is_err());
    assert!(MountPath::new("/kv/./bucket").is_err());
    assert!(MountPath::new("/kv/bucket/\0").is_err());
}

#[test]
fn mount_path_owns_parent_child_and_descendant_identity() {
    let path = MountPath::new("/kv/bucket/dir/file.json").unwrap();
    assert_eq!(path.parent().as_str(), "/kv/bucket/dir");
    assert_eq!(MountPath::root().parent(), MountPath::root());
    assert_eq!(
        MountPath::new("/kv/bucket")
            .unwrap()
            .join_child("dir")
            .unwrap(),
        MountPath::new("/kv/bucket/dir").unwrap()
    );
    assert_eq!(
        MountPath::root().join_child("kv").unwrap(),
        MountPath::new("/kv").unwrap()
    );
    assert!(path.is_descendant_of(&MountPath::new("/kv/bucket").unwrap()));
    assert!(path.is_self_or_descendant_of(&path));
    assert!(!MountPath::new("/kv/bucketish")
        .unwrap()
        .is_descendant_of(&MountPath::new("/kv/bucket").unwrap()));
}

#[test]
fn materialized_kv_visible_paths_include_native_and_aliases() {
    assert_eq!(
        strings(
            visible_paths(&StorageFact::Kv {
                bucket: TASKS_BUCKET.into(),
                key: "demo/render.json".into(),
            })
            .unwrap()
        ),
        vec![
            format!("/kv/{TASKS_BUCKET}/demo/render.json"),
            "/tasks/demo/render.json".into(),
        ]
    );
    assert_eq!(
        strings(
            visible_paths(&StorageFact::Kv {
                bucket: AGENTS_BUCKET.into(),
                key: "bot/memory/facts/a.json".into(),
            })
            .unwrap()
        ),
        vec![
            format!("/kv/{AGENTS_BUCKET}/bot/memory/facts/a.json"),
            "/agents/bot/memory/facts/a.json".into(),
        ]
    );
    assert_eq!(
        strings(
            visible_paths(&StorageFact::Kv {
                bucket: SEMANTIC_BUCKET.into(),
                key: "tags/project/a.json".into(),
            })
            .unwrap()
        ),
        vec![
            format!("/kv/{SEMANTIC_BUCKET}/tags/project/a.json"),
            "/semantic/tags/project/a.json".into(),
        ]
    );
}

#[test]
fn native_kv_and_object_paths_have_exact_visible_paths() {
    assert_eq!(
        strings(
            visible_paths(&StorageFact::Kv {
                bucket: "app".into(),
                key: "config/service.json".into(),
            })
            .unwrap()
        ),
        vec!["/kv/app/config/service.json"]
    );
    assert_eq!(
        strings(
            visible_paths(&StorageFact::Object {
                bucket: "assets".into(),
                name: "images/logo.png".into(),
            })
            .unwrap()
        ),
        vec!["/objects/assets/images/logo.png"]
    );
}

#[test]
fn stream_subject_visible_paths_include_events_and_mailboxes() {
    assert_eq!(
        strings(
            visible_paths(&StorageFact::StreamSubject {
                stream: "system".into(),
                subject: "events.system".into(),
            })
            .unwrap()
        ),
        vec![
            "/streams/system/subjects/events.system.jsonl",
            "/events/system.jsonl",
        ]
    );
    assert_eq!(
        strings(
            visible_paths(&StorageFact::StreamSubject {
                stream: AGENTS_STREAM.into(),
                subject: "agents.bot.inbox".into(),
            })
            .unwrap()
        ),
        vec![
            format!("/streams/{AGENTS_STREAM}/subjects/agents.bot.inbox.jsonl"),
            "/agents/bot/inbox".into(),
        ]
    );
}

#[test]
fn stream_subject_mailbox_aliases_reject_reserved_internal_agents() {
    assert_eq!(
        strings(
            visible_paths(&StorageFact::StreamSubject {
                stream: AGENTS_STREAM.into(),
                subject: "agents.__eventfs_applied.inbox".into(),
            })
            .unwrap()
        ),
        vec![format!(
            "/streams/{AGENTS_STREAM}/subjects/agents.__eventfs_applied.inbox.jsonl"
        )]
    );
}

#[test]
fn materialized_invalidation_paths_include_alias_ancestors() {
    assert_eq!(
        strings(
            invalidation_paths(&StorageFact::Kv {
                bucket: TASKS_BUCKET.into(),
                key: "demo/render/output.json".into(),
            })
            .unwrap()
        ),
        vec![
            format!("/kv/{TASKS_BUCKET}/demo/render/output.json"),
            format!("/kv/{TASKS_BUCKET}/demo/render"),
            format!("/kv/{TASKS_BUCKET}/demo"),
            format!("/kv/{TASKS_BUCKET}"),
            "/tasks/demo/render/output.json".into(),
            "/tasks/demo/render".into(),
            "/tasks/demo".into(),
        ]
    );
    assert_eq!(
        strings(
            invalidation_paths(&StorageFact::Object {
                bucket: "assets".into(),
                name: "images/logo.png".into(),
            })
            .unwrap()
        ),
        vec![
            "/objects/assets/images/logo.png",
            "/objects/assets/images",
            "/objects/assets",
        ]
    );
}

#[test]
fn stream_invalidation_paths_include_native_subject_and_alias_ancestors() {
    let event_paths = invalidation_paths(&StorageFact::StreamSubject {
        stream: "system".into(),
        subject: "events.system".into(),
    })
    .unwrap();
    assert_eq!(
        strings(event_paths.clone()),
        vec![
            "/streams/system/subjects/events.system.jsonl",
            "/streams/system/subjects",
            "/events/system.jsonl",
            "/events",
        ]
    );
    assert_eq!(
        reasons(event_paths),
        vec![
            AffectedPathReason::Exact,
            AffectedPathReason::Ancestor,
            AffectedPathReason::Alias,
            AffectedPathReason::Ancestor,
        ]
    );

    let mailbox_paths = invalidation_paths(&StorageFact::StreamSubject {
        stream: AGENTS_STREAM.into(),
        subject: "agents.bot.outbox".into(),
    })
    .unwrap();
    assert_eq!(
        strings(mailbox_paths.clone()),
        vec![
            format!("/streams/{AGENTS_STREAM}/subjects/agents.bot.outbox.jsonl"),
            format!("/streams/{AGENTS_STREAM}/subjects"),
            "/agents/bot/outbox".into(),
            "/agents/bot".into(),
            "/agents".into(),
        ]
    );
    assert_eq!(
        reasons(mailbox_paths),
        vec![
            AffectedPathReason::Exact,
            AffectedPathReason::Ancestor,
            AffectedPathReason::Mailbox,
            AffectedPathReason::Ancestor,
            AffectedPathReason::Ancestor,
        ]
    );
}

#[test]
fn storage_facts_adapt_from_native_and_materialized_mount_paths() {
    assert_eq!(
        StorageFact::from_jetstream_path(
            &JetStreamPath::parse("/tasks/demo/render.json").unwrap()
        ),
        Some(StorageFact::Kv {
            bucket: TASKS_BUCKET.into(),
            key: "demo/render.json".into(),
        })
    );
    assert_eq!(
        StorageFact::from_jetstream_path(
            &JetStreamPath::parse("/events/system.jsonl").unwrap()
        ),
        Some(StorageFact::StreamSubject {
            stream: "system".into(),
            subject: "events.system".into(),
        })
    );
    assert_eq!(
        StorageFact::from_jetstream_path(
            &JetStreamPath::parse("/objects/assets/a.bin").unwrap()
        ),
        Some(StorageFact::Object {
            bucket: "assets".into(),
            name: "a.bin".into(),
        })
    );
}

#[test]
fn mount_path_invalidation_prioritizes_the_changed_alias() {
    assert_eq!(
        strings(
            invalidation_paths_for_mount_path(
                &JetStreamPath::parse("/agents/bot/memory/facts/a.json").unwrap()
            )
            .unwrap()
        ),
        vec![
            "/agents/bot/memory/facts/a.json".to_string(),
            "/agents/bot/memory/facts".to_string(),
            "/agents/bot/memory".to_string(),
            "/agents/bot".to_string(),
            format!("/kv/{AGENTS_BUCKET}/bot/memory/facts/a.json"),
            format!("/kv/{AGENTS_BUCKET}/bot/memory/facts"),
            format!("/kv/{AGENTS_BUCKET}/bot/memory"),
            format!("/kv/{AGENTS_BUCKET}/bot"),
            format!("/kv/{AGENTS_BUCKET}"),
        ]
    );
}
