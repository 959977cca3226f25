use eventfs::{
    JetStreamPath, MaterializedTarget, AGENTS_STREAM, SEMANTIC_BUCKET, TASKS_BUCKET,
    stream_subject_file_name_from_str,
};

#[test]
fn eventfs_path_maps_tasks_agents_and_semantic_to_stable_targets() {
    let task = JetStreamPath::parse("/tasks/ns/job.json").unwrap();
    assert_eq!(
        MaterializedTarget::from_path(&task),
        Some(MaterializedTarget::Kv {
            bucket: TASKS_BUCKET.into(),
            key: "ns/job.json".into()
        })
    );

    let inbox = JetStreamPath::parse("/agents/bot/inbox").unwrap();
    assert_eq!(
        MaterializedTarget::from_path(&inbox),
        Some(MaterializedTarget::Stream {
            stream: AGENTS_STREAM.into(),
            subject: "agents.bot.inbox".into()
        })
    );

    let semantic = JetStreamPath::parse("/semantic/tags/a.json").unwrap();
    assert_eq!(
        MaterializedTarget::from_path(&semantic),
        Some(MaterializedTarget::Kv {
            bucket: SEMANTIC_BUCKET.into(),
            key: "tags/a.json".into()
        })
    );
}

#[test]
fn stream_subject_file_names_encode_non_path_safe_subjects() {
    assert_eq!(
        stream_subject_file_name_from_str("orders.created"),
        "orders.created.jsonl"
    );
    assert_eq!(
        stream_subject_file_name_from_str("foo/bar@v1"),
        "__eventfs_subject_hex_666f6f2f626172407631.jsonl"
    );
    assert_eq!(
        stream_subject_file_name_from_str("__eventfs_subject_hex_666f6f"),
        "__eventfs_subject_hex_5f5f6576656e7466735f7375626a6563745f6865785f363636663666.jsonl"
    );
}
