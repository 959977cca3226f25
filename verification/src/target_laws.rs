//! What materialized files stand for: each for something of its own, and none for the
//! mount's own bookkeeping.

use vstd::prelude::*;

use crate::affected::{mounted, visible, StorageFact};
use crate::affected_laws::{law_path_shows_its_own_value, stray_mailbox};
use crate::path::{
    reserved_key, under_prefix, JetStreamPath, SemanticArea, KV_APPLIED_MARKER_KEY_PREFIX,
    KV_WRITEBACK_MARKER_KEY_PREFIX,
};
use crate::path_laws::{
    law_mount_path_stands_for_its_path, lemma_root_names_differ, lemma_valid_path_is_mounted,
};
use crate::reason_laws::{law_native_path_is_shown_first, native_root};
use crate::subjects::{MaterializedTarget, AGENTS_BUCKET, SEMANTIC_BUCKET, TASKS_BUCKET};
use crate::text::Text;

verus! {

/// A key that lies under a marker has a first part that lies under it.
proof fn lemma_first_part_is_under(first: Text, rest: Text, prefix: Text)
    requires
        !prefix.contains('/'),
        under_prefix(first + "/"@ + rest, prefix),
    ensures
        under_prefix(first, prefix),
{
    reveal_strlit("/");
    let key = first + "/"@ + rest;
    assert(key[first.len() as int] == '/');
    if prefix.len() > first.len() {
        assert(prefix[first.len() as int] == key[first.len() as int]);
    }
    assert(first =~= key.take(first.len() as int));
    assert(prefix =~= key.take(prefix.len() as int));
    assert(prefix.is_prefix_of(first));
    if prefix.len() < first.len() {
        assert(key[prefix.len() as int] == first[prefix.len() as int]);
    }
}

/// A key with a first part that is not reserved is not reserved.
proof fn lemma_unreserved_first_part(first: Text, rest: Text)
    requires
        !reserved_key(first),
    ensures
        !reserved_key(first + "/"@ + rest),
{
    reveal_strlit("__eventfs_writeback");
    reveal_strlit("__eventfs_applied");
    assert(!KV_WRITEBACK_MARKER_KEY_PREFIX@.contains('/'));
    assert(!KV_APPLIED_MARKER_KEY_PREFIX@.contains('/'));
    let key = first + "/"@ + rest;
    if under_prefix(key, KV_WRITEBACK_MARKER_KEY_PREFIX@) {
        lemma_first_part_is_under(first, rest, KV_WRITEBACK_MARKER_KEY_PREFIX@);
    }
    if under_prefix(key, KV_APPLIED_MARKER_KEY_PREFIX@) {
        lemma_first_part_is_under(first, rest, KV_APPLIED_MARKER_KEY_PREFIX@);
    }
}

/// The name of a semantic area is not reserved.
proof fn lemma_semantic_area_is_not_reserved(area: SemanticArea)
    ensures
        !reserved_key(area.name()),
{
    reveal_strlit("__eventfs_writeback");
    reveal_strlit("__eventfs_applied");
    reveal_strlit("summaries");
    reveal_strlit("tags");
    reveal_strlit("relations");
    reveal_strlit("timelines");
    reveal_strlit("embeddings");
    let name = area.name();
    assert(name[0] != '_');
    if KV_WRITEBACK_MARKER_KEY_PREFIX@.is_prefix_of(name) {
        assert(name[0] == KV_WRITEBACK_MARKER_KEY_PREFIX@[0]);
    }
    if KV_APPLIED_MARKER_KEY_PREFIX@.is_prefix_of(name) {
        assert(name[0] == KV_APPLIED_MARKER_KEY_PREFIX@[0]);
    }
}

/// A materialized file that stands for a key stands for one of the tasks', the agents'
/// or the semantic bucket, and never for a key of the mount's own bookkeeping.
pub proof fn law_materialized_keys_are_not_reserved(path: JetStreamPath<Text>)
    requires
        path.valid(),
    ensures
        MaterializedTarget::of(path) matches Some(MaterializedTarget::Kv { bucket, key }) ==> (bucket
            == TASKS_BUCKET@ || bucket == AGENTS_BUCKET@ || bucket == SEMANTIC_BUCKET@)
            && !reserved_key(key),
{
    match path {
        JetStreamPath::Task { namespace, task } => {
            lemma_unreserved_first_part(namespace, task);
        },
        JetStreamPath::AgentRecord { agent, area, path: record } => {
            let rest = area.name() + "/"@ + record;
            lemma_unreserved_first_part(agent, rest);
            assert(agent + "/"@ + area.name() + "/"@ + record =~= agent + "/"@ + rest);
        },
        JetStreamPath::SemanticRecord { area, path: record } => {
            lemma_semantic_area_is_not_reserved(area);
            lemma_unreserved_first_part(area.name(), record);
        },
        _ => {},
    }
}

/// The mount path of a materialized file lies under none of the native roots.
#[verifier::spinoff_prover]
proof fn lemma_materialized_root(path: JetStreamPath<Text>)
    requires
        path.valid(),
        MaterializedTarget::of(path) is Some,
    ensures
        mounted(path) matches Ok(source) && source.len() > 0 && source[0] != "kv"@ && source[0]
            != "streams"@ && source[0] != "objects"@,
        !stray_mailbox(path),
        StorageFact::of(path) == Some(StorageFact::of_target(MaterializedTarget::of(path).unwrap())),
{
    lemma_valid_path_is_mounted(path);
    lemma_root_names_differ();
}

/// Different materialized files stand for different things.
pub proof fn law_materialized_targets_differ(left: JetStreamPath<Text>, right: JetStreamPath<Text>)
    requires
        left.valid(),
        right.valid(),
        MaterializedTarget::of(left) is Some,
        MaterializedTarget::of(left) == MaterializedTarget::of(right),
    ensures
        left == right,
{
    lemma_materialized_root(left);
    lemma_materialized_root(right);
    let fact = StorageFact::of(left).unwrap();
    law_path_shows_its_own_value(left);
    law_path_shows_its_own_value(right);
    law_native_path_is_shown_first(fact);
    let shown = visible(fact)->Ok_0;
    let a = choose|a: int| 0 <= a < shown.len() && (#[trigger] shown[a]).path == mounted(left)->Ok_0;
    let b = choose|b: int| 0 <= b < shown.len() && (#[trigger] shown[b]).path == mounted(right)->Ok_0;
    assert(native_root(fact) == "kv"@ || native_root(fact) == "streams"@ || native_root(fact)
        == "objects"@);
    assert(a == 1 && b == 1);
    law_mount_path_stands_for_its_path(left);
    law_mount_path_stands_for_its_path(right);
}

} // verus!
