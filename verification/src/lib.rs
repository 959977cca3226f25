//! The rules of a file system over an event store: which paths exist, what each of
//! them stands for, what an operation on it asks of the storage, and which paths a
//! change makes stale.
//!
//! Operations on a mount are conversations: see [`inquiry`]. They take the replies that
//! are there so far, and stop with a request where they need one more. Their contracts
//! are state-passing functions from the conversation before to the result and the
//! conversation after.

pub mod adapter;
pub mod affected;
pub mod affected_laws;
pub mod attr;
pub mod chars;
pub mod cli;
pub mod commit;
pub mod commit_laws;
pub mod directories;
pub mod directory_laws;
pub mod documents;
pub mod durable;
pub mod encoding;
pub mod entries;
pub mod errno;
pub mod errors;
pub mod file_names;
pub mod files;
pub mod handle_laws;
pub mod handles;
pub mod identity;
pub mod inquiry;
pub mod json;
pub mod jsonl;
pub mod jsonl_laws;
pub mod keys;
pub mod kind_laws;
pub mod kinds;
pub mod listing_laws;
pub mod log_laws;
pub mod mount_laws;
pub mod mount_paths;
pub mod move_laws;
pub mod mutations;
pub mod normal_laws;
pub mod numbers;
pub mod overlay;
pub mod overlay_laws;
pub mod path;
pub mod path_cache;
pub mod path_laws;
pub mod plan;
pub mod priority_laws;
pub mod read_laws;
pub mod reason_laws;
pub mod reply_laws;
pub mod shown_laws;
pub mod stale;
pub mod store;
pub mod subjects;
pub mod target_laws;
pub mod text;
pub mod tree_laws;
pub mod upkeep;
pub mod versions;

pub use affected::{
    invalidation_paths, invalidation_paths_for_mount_path, mount_path_from_jetstream_path,
    visible_paths, AffectedPath, AffectedPathReason, StorageFact,
};
pub use errors::{Errno, EventFsError};
pub use json::{json_lines, validate_json_document, validate_json_lines};
pub use mount_paths::MountPath;
pub use path::{
    is_reserved_kv_key, AgentArea, JetStreamPath, MetadataFile, SemanticArea, StreamSubject,
    KV_APPLIED_MARKER_KEY_PREFIX, KV_WRITEBACK_MARKER_KEY_PREFIX, ROOT_DIRECTORIES,
};
pub use plan::{
    plan_operation, FileIntent, JetStreamAction, RenamePlan, StaticDirectoryEntry, StaticEntryKind,
};
pub use subjects::{
    stream_subject_file_name, stream_subject_file_name_from_str, AgentSubject, MaterializedTarget,
    AGENTS_BUCKET, AGENTS_STREAM, SEMANTIC_BUCKET, TASKS_BUCKET,
};
