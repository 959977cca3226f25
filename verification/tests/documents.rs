//! The documents that the mount writes itself.

use eventfs::documents::{metadata_bytes, render_message, MountStatus};
use eventfs::MetadataFile;

fn status() -> MountStatus {
    MountStatus {
        mount_name: "my \"mount\"".into(),
        writes_blocked: false,
        queue_pending: 3,
        path_entries: 4,
        cached_files: 5,
        cache_generation: 6,
        queue_document: "{\"pending\":[]}".into(),
        recent_errors: vec!["one".into(), "two \n lines".into()],
    }
}

fn text(file: MetadataFile) -> String {
    String::from_utf8(metadata_bytes(&status(), file)).unwrap()
}

#[test]
fn status_document_tells_whether_writes_are_blocked() {
    assert_eq!(
        text(MetadataFile::Status),
        "{\"mount_name\":\"my \\\"mount\\\"\",\"queue_pending\":3,\"state\":\"mounted\",\"writes_blocked\":false}"
    );
    let blocked = MountStatus {
        writes_blocked: true,
        ..status()
    };
    let bytes = metadata_bytes(&blocked, MetadataFile::Status);
    let value: serde_json::Value = serde_json::from_slice(&bytes).unwrap();
    assert_eq!(value["state"], "read_only");
    assert_eq!(value["writes_blocked"], true);
}

#[test]
fn cache_document_counts_paths_files_and_generations() {
    assert_eq!(
        text(MetadataFile::Cache),
        "{\"entries\":5,\"generation\":6,\"path_entries\":4}"
    );
}

#[test]
fn queue_document_is_handed_through() {
    assert_eq!(text(MetadataFile::Queue), "{\"pending\":[]}");
}

#[test]
fn capabilities_document_lists_the_root_directories() {
    let value: serde_json::Value = serde_json::from_str(&text(MetadataFile::Capabilities)).unwrap();
    let roots: Vec<&str> = value["roots"]
        .as_array()
        .unwrap()
        .iter()
        .map(|root| root.as_str().unwrap())
        .collect();
    assert_eq!(
        roots,
        ["kv", "streams", "objects", "events", "tasks", "agents", "semantic", ".eventfs"]
    );
    for flag in [
        "kv_history",
        "stream_messages_read_only",
        "jsonl_publish",
        "object_store",
        "writeback_queue",
    ] {
        assert_eq!(value[flag], true, "{flag}");
    }
    assert_eq!(value.as_object().unwrap().len(), 6);
}

#[test]
fn errors_document_has_a_line_for_each_error() {
    assert_eq!(
        text(MetadataFile::Errors),
        "{\"error\":\"one\"}\n{\"error\":\"two \\n lines\"}"
    );
}

#[test]
fn messages_are_rendered_with_their_payload_as_json() {
    let bytes = render_message("orders", 7, "orders.created", b" {\"id\": 1} ").unwrap();
    assert_eq!(
        String::from_utf8(bytes).unwrap(),
        "{\n  \"payload\": {\n    \"id\": 1\n  },\n  \"sequence\": 7,\n  \"stream\": \"orders\",\n  \"subject\": \"orders.created\"\n}"
    );
}

#[test]
fn payloads_that_are_no_json_are_rendered_as_strings() {
    let bytes = render_message("s", 1, "t", b"plain \"text\"").unwrap();
    let value: serde_json::Value = serde_json::from_slice(&bytes).unwrap();
    assert_eq!(value["payload"], "plain \"text\"");
    let bytes = render_message("s", 1, "t", b"a\xffb").unwrap();
    let value: serde_json::Value = serde_json::from_slice(&bytes).unwrap();
    assert_eq!(value["payload"], "a\u{fffd}b");
}
