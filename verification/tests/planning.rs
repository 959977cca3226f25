use eventfs::{
    Errno, FileIntent, JetStreamAction, JetStreamPath, RenamePlan, StaticDirectoryEntry,
    AGENTS_BUCKET, SEMANTIC_BUCKET, TASKS_BUCKET, plan_operation, validate_json_document,
    validate_json_lines,
};

#[test]
fn eventfs_path_plans_event_native_writes() {
    let kv = JetStreamPath::parse("/kv/config/app.json").unwrap();
    assert_eq!(
        plan_operation(FileIntent::Write, &kv).unwrap(),
        JetStreamAction::KvPut {
            bucket: "config".into(),
            key: "app.json".into()
        }
    );

    let stream = JetStreamPath::parse("/streams/ORDERS/subjects/orders.created.jsonl").unwrap();
    assert_eq!(
        plan_operation(FileIntent::Write, &stream).unwrap(),
        JetStreamAction::PublishJsonLines {
            stream: "ORDERS".into(),
            subject: "orders.created".into()
        }
    );
}

#[test]
fn eventfs_path_keeps_immutable_projections_read_only() {
    let history = JetStreamPath::parse("/kv/config/.history/app.json/@1").unwrap();
    let err = plan_operation(FileIntent::Write, &history).unwrap_err();
    assert_eq!(err.errno(), Errno::read_only());

    let message = JetStreamPath::parse("/streams/ORDERS/messages/1.json").unwrap();
    let err = plan_operation(FileIntent::Unlink, &message).unwrap_err();
    assert_eq!(err.errno(), Errno::read_only());
}

#[test]
fn eventfs_path_maps_directories_to_lists_or_capabilities() {
    let root = JetStreamPath::parse("/").unwrap();
    assert!(matches!(
        plan_operation(FileIntent::ReadDir, &root).unwrap(),
        JetStreamAction::StaticDirectory { .. }
    ));

    let stream = JetStreamPath::parse("/streams/ORDERS").unwrap();
    assert_eq!(
        plan_operation(FileIntent::ReadDir, &stream).unwrap(),
        JetStreamAction::StaticDirectory {
            entries: vec![
                StaticDirectoryEntry::directory("messages"),
                StaticDirectoryEntry::directory("subjects"),
            ]
        }
    );

    let stream_subjects = JetStreamPath::parse("/streams/ORDERS/subjects").unwrap();
    assert_eq!(
        plan_operation(FileIntent::ReadDir, &stream_subjects).unwrap(),
        JetStreamAction::ListStreamSubjects {
            stream: "ORDERS".into(),
        }
    );

    let events = JetStreamPath::parse("/events").unwrap();
    assert_eq!(
        plan_operation(FileIntent::ReadDir, &events).unwrap(),
        JetStreamAction::ListEventLogs
    );

    let tasks = JetStreamPath::parse("/tasks").unwrap();
    assert_eq!(
        plan_operation(FileIntent::ReadDir, &tasks).unwrap(),
        JetStreamAction::ListKvPrefix {
            bucket: TASKS_BUCKET.into(),
            prefix: String::new(),
        }
    );

    let task_namespace = JetStreamPath::parse("/tasks/demo").unwrap();
    assert_eq!(
        plan_operation(FileIntent::ReadDir, &task_namespace).unwrap(),
        JetStreamAction::ListKvPrefix {
            bucket: TASKS_BUCKET.into(),
            prefix: "demo".into(),
        }
    );

    let agents = JetStreamPath::parse("/agents").unwrap();
    assert_eq!(
        plan_operation(FileIntent::ReadDir, &agents).unwrap(),
        JetStreamAction::ListAgents
    );

    let agent_tasks = JetStreamPath::parse("/agents/bot/tasks").unwrap();
    assert_eq!(
        plan_operation(FileIntent::ReadDir, &agent_tasks).unwrap(),
        JetStreamAction::ListKvPrefix {
            bucket: AGENTS_BUCKET.into(),
            prefix: "bot/tasks".into(),
        }
    );

    let semantic_tags = JetStreamPath::parse("/semantic/tags").unwrap();
    assert_eq!(
        plan_operation(FileIntent::ReadDir, &semantic_tags).unwrap(),
        JetStreamAction::ListKvPrefix {
            bucket: SEMANTIC_BUCKET.into(),
            prefix: "tags".into(),
        }
    );

    let semantic_prefix = JetStreamPath::parse("/semantic/tags/project").unwrap();
    assert_eq!(
        plan_operation(FileIntent::ReadDir, &semantic_prefix).unwrap(),
        JetStreamAction::ListKvPrefix {
            bucket: SEMANTIC_BUCKET.into(),
            prefix: "tags/project".into(),
        }
    );

    let agent_prefix = JetStreamPath::parse("/agents/bot/memory/facts").unwrap();
    assert_eq!(
        plan_operation(FileIntent::ReadDir, &agent_prefix).unwrap(),
        JetStreamAction::ListKvPrefix {
            bucket: AGENTS_BUCKET.into(),
            prefix: "bot/memory/facts".into(),
        }
    );
}

#[test]
fn eventfs_path_rejects_cross_surface_rename() {
    let from = JetStreamPath::parse("/kv/a/file.json").unwrap();
    let to = JetStreamPath::parse("/objects/a/file.json").unwrap();
    let err = plan_operation(FileIntent::Rename { to }, &from).unwrap_err();
    assert_eq!(err.errno(), Errno::cross_device());
}

#[test]
fn eventfs_path_plans_same_surface_rename() {
    let from = JetStreamPath::parse("/kv/a/tmp.json").unwrap();
    let to = JetStreamPath::parse("/kv/a/final.json").unwrap();
    assert_eq!(
        plan_operation(FileIntent::Rename { to }, &from).unwrap(),
        JetStreamAction::Rename {
            plan: RenamePlan::Kv {
                from_bucket: "a".into(),
                from_key: "tmp.json".into(),
                to_bucket: "a".into(),
                to_key: "final.json".into(),
            }
        }
    );

    let from = JetStreamPath::parse("/objects/assets/tmp/blob.txt").unwrap();
    let to = JetStreamPath::parse("/objects/assets/final/blob.txt").unwrap();
    assert_eq!(
        plan_operation(FileIntent::Rename { to }, &from).unwrap(),
        JetStreamAction::Rename {
            plan: RenamePlan::Object {
                from_bucket: "assets".into(),
                from_object: "tmp/blob.txt".into(),
                to_bucket: "assets".into(),
                to_object: "final/blob.txt".into(),
            }
        }
    );

    let from = JetStreamPath::parse("/tasks/demo/tmp.json").unwrap();
    let to = JetStreamPath::parse("/tasks/demo/final.json").unwrap();
    assert_eq!(
        plan_operation(FileIntent::Rename { to }, &from).unwrap(),
        JetStreamAction::Rename {
            plan: RenamePlan::Kv {
                from_bucket: TASKS_BUCKET.into(),
                from_key: "demo/tmp.json".into(),
                to_bucket: TASKS_BUCKET.into(),
                to_key: "demo/final.json".into(),
            }
        }
    );
}

#[test]
fn eventfs_path_rejects_cross_bucket_or_cross_materialized_rename() {
    let from = JetStreamPath::parse("/kv/a/file.json").unwrap();
    let to = JetStreamPath::parse("/kv/b/file.json").unwrap();
    let err = plan_operation(FileIntent::Rename { to }, &from).unwrap_err();
    assert_eq!(err.errno(), Errno::cross_device());

    let from = JetStreamPath::parse("/semantic/tags/a.json").unwrap();
    let to = JetStreamPath::parse("/semantic/summaries/a.json").unwrap();
    let err = plan_operation(FileIntent::Rename { to }, &from).unwrap_err();
    assert_eq!(err.errno(), Errno::cross_device());

    let from = JetStreamPath::parse("/agents/bot/tasks/a.json").unwrap();
    let to = JetStreamPath::parse("/agents/bot/memory/a.json").unwrap();
    let err = plan_operation(FileIntent::Rename { to }, &from).unwrap_err();
    assert_eq!(err.errno(), Errno::cross_device());
}

#[test]
fn eventfs_path_plans_dynamic_mkdir_as_prefix_validation() {
    let kv = JetStreamPath::parse("/kv/bucket/path").unwrap();
    assert_eq!(
        plan_operation(FileIntent::Mkdir, &kv).unwrap(),
        JetStreamAction::EnsureKvDirectory {
            bucket: "bucket".into(),
            prefix: "path".into(),
        }
    );

    let object = JetStreamPath::parse("/objects/assets/images").unwrap();
    assert_eq!(
        plan_operation(FileIntent::Mkdir, &object).unwrap(),
        JetStreamAction::EnsureObjectDirectory {
            bucket: "assets".into(),
            prefix: "images".into(),
        }
    );
}

#[test]
fn eventfs_path_validates_json_surfaces() {
    validate_json_document("/tasks/ns/a.json", br#"{"ok":true}"#).unwrap();
    validate_json_lines(
        "/events/system.jsonl",
        br#"{"ok":true}
{"ok":false}"#,
    )
    .unwrap();
    assert!(validate_json_document("/tasks/ns/a.json", b"not-json").is_err());
    assert!(validate_json_lines("/events/system.jsonl", b"{bad}\n").is_err());
}
