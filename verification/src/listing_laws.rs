//! What the directories that are the same in every mount list.

use vstd::prelude::*;

use crate::affected::mounted;
use crate::errors::EventFsError;
use crate::mount_paths::{child_path, law_parent_and_child, mount_text, Components};
use crate::path::{AgentArea, JetStreamPath, MetadataFile, SemanticArea, ROOT_DIRECTORIES};
use crate::path_laws::{law_mount_path_stands_for_its_path, lemma_valid_path_is_mounted};
use crate::plan::{readdir_plan, JetStreamAction, StaticDirectoryEntry, StaticEntryKind};
use crate::text::Text;

verus! {

/// The paths below a directory that is the same in every mount.
pub open spec fn fixed_children(path: JetStreamPath<Text>) -> Seq<JetStreamPath<Text>> {
    match path {
        JetStreamPath::Root => seq![
            JetStreamPath::KvRoot,
            JetStreamPath::StreamsRoot,
            JetStreamPath::ObjectsRoot,
            JetStreamPath::EventsRoot,
            JetStreamPath::TasksRoot,
            JetStreamPath::AgentsRoot,
            JetStreamPath::SemanticRoot,
            JetStreamPath::MetadataRoot,
        ],
        JetStreamPath::StreamRoot { stream } => seq![
            JetStreamPath::StreamMessages { stream },
            JetStreamPath::StreamSubjects { stream },
        ],
        JetStreamPath::AgentRoot { agent } => seq![
            JetStreamPath::AgentMailbox { agent, area: AgentArea::Inbox },
            JetStreamPath::AgentMailbox { agent, area: AgentArea::Outbox },
            JetStreamPath::AgentDirectory { agent, area: AgentArea::Tasks },
            JetStreamPath::AgentDirectory { agent, area: AgentArea::Memory },
        ],
        JetStreamPath::SemanticRoot => seq![
            JetStreamPath::SemanticArea { area: SemanticArea::Summaries },
            JetStreamPath::SemanticArea { area: SemanticArea::Tags },
            JetStreamPath::SemanticArea { area: SemanticArea::Relations },
            JetStreamPath::SemanticArea { area: SemanticArea::Timelines },
            JetStreamPath::SemanticArea { area: SemanticArea::Embeddings },
        ],
        JetStreamPath::MetadataRoot => seq![
            JetStreamPath::MetadataFile(MetadataFile::Status),
            JetStreamPath::MetadataFile(MetadataFile::Cache),
            JetStreamPath::MetadataFile(MetadataFile::Queue),
            JetStreamPath::MetadataFile(MetadataFile::Capabilities),
            JetStreamPath::MetadataFile(MetadataFile::Errors),
        ],
        _ => Seq::empty(),
    }
}

/// Whether an entry of a directory, joined to the mount path of the directory, stands for
/// a path, and says whether that path is a directory.
pub open spec fn stands_for(
    path: JetStreamPath<Text>,
    entry: StaticDirectoryEntry<Text>,
    child: JetStreamPath<Text>,
) -> bool {
    mounted(path) matches Ok(parent) && (child_path(parent, entry.name) matches Ok(below)
        && JetStreamPath::parsed(mount_text(below)) == Ok::<JetStreamPath<Text>, EventFsError<Text>>(
        child,
    ) && child.directory() == (entry.kind == StaticEntryKind::Directory))
}

/// Whether an entry of a directory is the last component of a path below it, and says
/// whether that path is a directory.
spec fn announces(
    entry: StaticDirectoryEntry<Text>,
    path: JetStreamPath<Text>,
    child: JetStreamPath<Text>,
) -> bool {
    &&& child.valid()
    &&& mounted(child) == Ok::<Components, EventFsError<Text>>(mounted(path)->Ok_0.push(entry.name))
    &&& child.directory() == (entry.kind == StaticEntryKind::Directory)
}

/// Whether a directory is the same in every mount, with entries that announce the paths
/// below it, one after another.
spec fn announced(path: JetStreamPath<Text>, i: int) -> bool {
    readdir_plan(path) matches Ok(JetStreamAction::StaticDirectory { entries }) && entries.len()
        == fixed_children(path).len() && announces(entries[i], path, fixed_children(path)[i])
}

#[verifier::spinoff_prover]
proof fn lemma_root_announces(i: int)
    requires
        0 <= i < 8,
    ensures
        announced(JetStreamPath::Root, i),
{
    let path = JetStreamPath::<Text>::Root;
    let child = fixed_children(path)[i];
    lemma_valid_path_is_mounted(child);
    lemma_valid_path_is_mounted(path);
    let none = Components::empty();
    assert(none.push("kv"@) =~= seq!["kv"@]);
    assert(none.push("streams"@) =~= seq!["streams"@]);
    assert(none.push("objects"@) =~= seq!["objects"@]);
    assert(none.push("events"@) =~= seq!["events"@]);
    assert(none.push("tasks"@) =~= seq!["tasks"@]);
    assert(none.push("agents"@) =~= seq!["agents"@]);
    assert(none.push("semantic"@) =~= seq!["semantic"@]);
    assert(none.push(".eventfs"@) =~= seq![".eventfs"@]);
}

#[verifier::spinoff_prover]
proof fn lemma_stream_root_announces(stream: Text, i: int)
    requires
        (JetStreamPath::StreamRoot { stream }).valid(),
        0 <= i < 2,
    ensures
        announced(JetStreamPath::StreamRoot { stream }, i),
{
    let path = JetStreamPath::StreamRoot { stream };
    let child = fixed_children(path)[i];
    lemma_valid_path_is_mounted(child);
    lemma_valid_path_is_mounted(path);
    let above = seq!["streams"@, stream];
    assert(above.push("messages"@) =~= seq!["streams"@, stream, "messages"@]);
    assert(above.push("subjects"@) =~= seq!["streams"@, stream, "subjects"@]);
}

#[verifier::spinoff_prover]
proof fn lemma_agent_root_announces(agent: Text, i: int)
    requires
        (JetStreamPath::AgentRoot { agent }).valid(),
        0 <= i < 4,
    ensures
        announced(JetStreamPath::AgentRoot { agent }, i),
{
    let path = JetStreamPath::AgentRoot { agent };
    let child = fixed_children(path)[i];
    lemma_valid_path_is_mounted(child);
    lemma_valid_path_is_mounted(path);
    let above = seq!["agents"@, agent];
    assert(above.push("inbox"@) =~= seq!["agents"@, agent, "inbox"@]);
    assert(above.push("outbox"@) =~= seq!["agents"@, agent, "outbox"@]);
    assert(above.push("tasks"@) =~= seq!["agents"@, agent, "tasks"@]);
    assert(above.push("memory"@) =~= seq!["agents"@, agent, "memory"@]);
}

#[verifier::spinoff_prover]
proof fn lemma_semantic_root_announces(i: int)
    requires
        0 <= i < 5,
    ensures
        announced(JetStreamPath::SemanticRoot, i),
{
    let path = JetStreamPath::<Text>::SemanticRoot;
    let child = fixed_children(path)[i];
    lemma_valid_path_is_mounted(child);
    lemma_valid_path_is_mounted(path);
    let above = seq!["semantic"@];
    assert(above.push("summaries"@) =~= seq!["semantic"@, "summaries"@]);
    assert(above.push("tags"@) =~= seq!["semantic"@, "tags"@]);
    assert(above.push("relations"@) =~= seq!["semantic"@, "relations"@]);
    assert(above.push("timelines"@) =~= seq!["semantic"@, "timelines"@]);
    assert(above.push("embeddings"@) =~= seq!["semantic"@, "embeddings"@]);
}

#[verifier::spinoff_prover]
proof fn lemma_metadata_root_announces(i: int)
    requires
        0 <= i < 5,
    ensures
        announced(JetStreamPath::MetadataRoot, i),
{
    let path = JetStreamPath::<Text>::MetadataRoot;
    let child = fixed_children(path)[i];
    lemma_valid_path_is_mounted(child);
    lemma_valid_path_is_mounted(path);
    let above = seq![".eventfs"@];
    assert(above.push("status.json"@) =~= seq![".eventfs"@, "status.json"@]);
    assert(above.push("cache.json"@) =~= seq![".eventfs"@, "cache.json"@]);
    assert(above.push("queue.json"@) =~= seq![".eventfs"@, "queue.json"@]);
    assert(above.push("capabilities.json"@) =~= seq![".eventfs"@, "capabilities.json"@]);
    assert(above.push("errors.jsonl"@) =~= seq![".eventfs"@, "errors.jsonl"@]);
}

/// As many entries are listed as there are paths below, and those paths differ.
#[verifier::spinoff_prover]
proof fn lemma_fixed_children(path: JetStreamPath<Text>, i: int, j: int)
    ensures
        readdir_plan(path) matches Ok(JetStreamAction::StaticDirectory { entries })
            ==> entries.len() == fixed_children(path).len(),
        0 <= i < j < fixed_children(path).len() ==> fixed_children(path)[i] != fixed_children(
            path,
        )[j],
{
}

/// An entry, joined to the mount path of its directory, stands for the path below.
#[verifier::spinoff_prover]
proof fn lemma_fixed_entry(path: JetStreamPath<Text>, i: int)
    requires
        path.valid(),
        announced(path, i),
    ensures
        readdir_plan(path) matches Ok(JetStreamAction::StaticDirectory { entries }) && stands_for(
            path,
            entries[i],
            fixed_children(path)[i],
        ),
{
    law_mount_path_stands_for_its_path(path);
    law_mount_path_stands_for_its_path(fixed_children(path)[i]);
    if let Ok(JetStreamAction::StaticDirectory { entries }) = readdir_plan(path) {
        let parent = mounted(path)->Ok_0;
        let below = parent.push(entries[i].name);
        assert(below[parent.len() as int] == entries[i].name);
        law_parent_and_child(parent, entries[i].name);
    }
}

#[verifier::spinoff_prover]
proof fn lemma_fixed_directory(path: JetStreamPath<Text>, i: int)
    requires
        path.valid(),
        0 <= i < fixed_children(path).len(),
    ensures
        announced(path, i),
{
    match path {
        JetStreamPath::Root => {
            lemma_root_announces(i);
        },
        JetStreamPath::StreamRoot { stream } => {
            lemma_stream_root_announces(stream, i);
        },
        JetStreamPath::AgentRoot { agent } => {
            lemma_agent_root_announces(agent, i);
        },
        JetStreamPath::SemanticRoot => {
            lemma_semantic_root_announces(i);
        },
        JetStreamPath::MetadataRoot => {
            lemma_metadata_root_announces(i);
        },
        _ => {},
    }
}

/// In a directory that is the same in every mount no name is listed twice. Each name,
/// joined to the mount path of the directory, stands for a path, and that path is a
/// directory exactly where the entry says so.
pub proof fn law_fixed_entries_stand_for_paths(path: JetStreamPath<Text>, i: int, j: int)
    requires
        path.valid(),
        readdir_plan(path) matches Ok(JetStreamAction::StaticDirectory { entries }) && 0 <= i < j
            < entries.len(),
    ensures
        readdir_plan(path) matches Ok(JetStreamAction::StaticDirectory { entries }) && ({
            &&& entries[i].name != entries[j].name
            &&& stands_for(path, entries[i], fixed_children(path)[i])
            &&& stands_for(path, entries[j], fixed_children(path)[j])
        }),
{
    lemma_fixed_children(path, i, j);
    lemma_fixed_directory(path, i);
    lemma_fixed_directory(path, j);
    lemma_fixed_entry(path, i);
    lemma_fixed_entry(path, j);
}

/// The root lists the root directories, in order.
pub proof fn law_root_lists_the_root_directories(i: int)
    requires
        0 <= i < 8,
    ensures
        readdir_plan(JetStreamPath::Root) matches Ok(JetStreamAction::StaticDirectory { entries })
            && entries.len() == 8 && entries[i].name == ROOT_DIRECTORIES@[i]@ && entries[i].kind
            == StaticEntryKind::Directory,
{
}

} // verus!
