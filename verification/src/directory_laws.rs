//! What listing comes to: without queued writes a directory shows what the storage lists
//! there.

use vstd::prelude::*;

use crate::directories::{
    deleted_from, fixed_entries, law_empty_queue_shows_the_storage, merged, overlaid_from,
    shown_entries, with_entries, with_entries_in_order,
};
use crate::durable::{
    durable_entries, law_gathered_names_are_listed_once_in_order, names_in_order, names_of,
    or_nothing, revision_files, with_names, with_new_entries,
};
use crate::entries::{
    directories_of, event_logs_of, law_with_entry_lists_each_name_once, lemma_place_of_name,
    lists_name, place_after, place_of_name, with_entry_in_order, DirectoryEntry, Entry,
    EntryKind,
};
use crate::errno;
use crate::errors::EventFsError;
use crate::inquiry::{Pause, Request, Step, Stop, StorageFailure, StorageRequest, Talk};
use crate::mount_paths::{mount_text, Components};
use crate::numbers::decimal;
use crate::overlay::{lemma_place_after, queued_entries, with_children, Fact};
use crate::overlay_laws::{lemma_with_children, lies_under};
use crate::path::JetStreamPath;
use crate::store::{lemma_end, lemma_turn, run, Store};
use crate::subjects::{AGENTS_BUCKET, SEMANTIC_BUCKET, TASKS_BUCKET};
use crate::text::Text;

verus! {

/// Listing the directory at a path while nothing is queued.
pub open spec fn listing_at(path: Components) -> spec_fn(Talk) -> Step<Seq<Entry>> {
    |talk: Talk| shown_entries(talk, Seq::empty(), path)
}

/// A listing goes on with what the storage lists once the changes that were seen are
/// taken in.
pub proof fn lemma_listing(
    parsed: JetStreamPath<Text>,
    path: Components,
    store: Store,
    talk: Talk,
    turns: nat,
)
    requires
        turns >= 1,
        talk.listening(),
        store.grants(StorageRequest::DrainWatchEvents),
        JetStreamPath::parsed(mount_text(path)) == Ok::<JetStreamPath<Text>, EventFsError<Text>>(
            parsed,
        ),
    ensures
        ({
            let one = talk.told(store.reply(StorageRequest::DrainWatchEvents)).heard();
            &&& one.listening()
            &&& run(listing_at(path), store, talk, turns) == run(
                listing_stored(parsed, path),
                store,
                one,
                (turns - 1) as nat,
            )
        }),
{
    let drain = StorageRequest::DrainWatchEvents;
    lemma_turn(listing_at(path), talk, drain, listing_stored(parsed, path), store, turns);
}

/// Listing what the storage has in a directory.
pub open spec fn listing_stored(parsed: JetStreamPath<Text>, path: Components) -> spec_fn(
    Talk,
) -> Step<Seq<Entry>> {
    |talk: Talk|
        {
            let (stored, talk) = durable_entries(talk, parsed);
            merged(talk, Seq::empty(), parsed, path, stored)
        }
}

/// Directories of the given names, in their order.
pub open spec fn directories_named(names: Seq<Text>) -> Seq<Entry> {
    Seq::new(
        names.len(),
        |i: int| DirectoryEntry { name: names[i], kind: EntryKind::Directory },
    )
}

/// Files of the given names, in their order.
pub open spec fn files_named(names: Seq<Text>) -> Seq<Entry> {
    Seq::new(names.len(), |i: int| DirectoryEntry { name: names[i], kind: EntryKind::File })
}

// ---------------------------------------------------------------------------
// Stored directories
// ---------------------------------------------------------------------------

/// What a stored directory lists: the one request for it, and its entries. The directory
/// of a bucket of keys shows where the history is kept as well.
pub open spec fn one_listing(store: Store, parsed: JetStreamPath<Text>) -> Option<
    (Request, Seq<Entry>),
> {
    let keys = |bucket: Text, prefix: Text|
        {
            let request = StorageRequest::ListKvPrefix { bucket, prefix };
            (request, (store.listed)(request))
        };
    match parsed {
        JetStreamPath::KvRoot => Some(
            (
                StorageRequest::ListKvBuckets,
                directories_named((store.named)(StorageRequest::ListKvBuckets)),
            ),
        ),
        JetStreamPath::KvBucket { bucket } => {
            let request = StorageRequest::ListKvPrefix { bucket, prefix: Seq::empty() };
            Some(
                (
                    request,
                    with_entry_in_order(
                        (store.listed)(request),
                        DirectoryEntry { name: ".history"@, kind: EntryKind::Directory },
                    ),
                ),
            )
        },
        JetStreamPath::KvKey { bucket, key } => Some(keys(bucket, key)),
        JetStreamPath::KvHistoryRoot { bucket } => {
            let request = StorageRequest::ListKvHistoryPrefix { bucket, prefix: Seq::empty() };
            Some((request, (store.listed)(request)))
        },
        JetStreamPath::StreamsRoot => Some(
            (
                StorageRequest::ListStreams,
                directories_named((store.named)(StorageRequest::ListStreams)),
            ),
        ),
        JetStreamPath::StreamMessages { stream } => {
            let request = StorageRequest::ListStreamMessages { stream };
            Some((request, (store.listed)(request)))
        },
        JetStreamPath::StreamSubjects { stream } => {
            let request = StorageRequest::ListStreamSubjects { stream };
            Some((request, (store.listed)(request)))
        },
        JetStreamPath::ObjectsRoot => Some(
            (
                StorageRequest::ListObjectBuckets,
                directories_named((store.named)(StorageRequest::ListObjectBuckets)),
            ),
        ),
        JetStreamPath::ObjectBucket { bucket } => {
            let request = StorageRequest::ListObjectPrefix { bucket, prefix: Seq::empty() };
            Some((request, (store.listed)(request)))
        },
        JetStreamPath::Object { bucket, object } => {
            let request = StorageRequest::ListObjectPrefix { bucket, prefix: object };
            Some((request, (store.listed)(request)))
        },
        JetStreamPath::EventsRoot => {
            let streams = (store.named)(StorageRequest::ListStreams);
            Some(
                (
                    StorageRequest::ListStreams,
                    files_named(Seq::new(streams.len(), |i: int| streams[i] + ".jsonl"@)),
                ),
            )
        },
        JetStreamPath::TasksRoot => Some(keys(TASKS_BUCKET@, Seq::empty())),
        JetStreamPath::TaskNamespace { namespace } => Some(keys(TASKS_BUCKET@, namespace)),
        JetStreamPath::AgentDirectory { agent, area } => Some(
            keys(AGENTS_BUCKET@, agent + "/"@ + area.name()),
        ),
        JetStreamPath::AgentRecord { agent, area, path } => Some(
            keys(AGENTS_BUCKET@, agent + "/"@ + area.name() + "/"@ + path),
        ),
        JetStreamPath::SemanticArea { area } => Some(keys(SEMANTIC_BUCKET@, area.name())),
        JetStreamPath::SemanticRecord { area, path } => Some(
            keys(SEMANTIC_BUCKET@, area.name() + "/"@ + path),
        ),
        _ => None,
    }
}

/// Whether a directory is there even where nothing is stored for it yet.
pub open spec fn always_there(parsed: JetStreamPath<Text>) -> bool {
    match parsed {
        JetStreamPath::TasksRoot
        | JetStreamPath::TaskNamespace { .. }
        | JetStreamPath::AgentDirectory { .. }
        | JetStreamPath::SemanticArea { .. } => true,
        _ => false,
    }
}

/// A directory lists exactly what the storage lists in its place, whatever that is, and
/// changes nothing. Where the storage finds nothing there is no such directory, or an
/// empty one where it is always there; where the storage fails otherwise, so does the
/// listing.
pub proof fn law_directories_list_what_is_stored(
    parsed: JetStreamPath<Text>,
    path: Components,
    store: Store,
    talk: Talk,
    turns: nat,
)
    requires
        turns >= 2,
        talk.listening(),
        store.grants(StorageRequest::DrainWatchEvents),
        JetStreamPath::parsed(mount_text(path)) == Ok::<JetStreamPath<Text>, EventFsError<Text>>(
            parsed,
        ),
        one_listing(store, parsed) is Some,
    ensures
        ({
            let (result, after, _) = run(listing_at(path), store, talk, turns);
            let (request, entries) = one_listing(store, parsed).unwrap();
            &&& after == store
            &&& result == match (store.fails)(request) {
                None => Ok::<Seq<Entry>, Stop>(entries),
                Some(StorageFailure::NotFound) => if always_there(parsed) {
                    Ok(Seq::empty())
                } else {
                    Err(Pause::Fail(errno::ENOENT))
                },
                Some(StorageFailure::Other(_)) => Err(Pause::Fail(errno::EIO)),
            }
        }),
{
    lemma_listing(parsed, path, store, talk, turns);
    let one = talk.told(store.reply(StorageRequest::DrainWatchEvents)).heard();
    let left = (turns - 1) as nat;
    let operation = listing_stored(parsed, path);
    let (request, entries) = one_listing(store, parsed).unwrap();
    let two = one.told(store.reply(request)).heard();
    reveal_with_fuel(with_entries_in_order, 2);
    match (store.fails)(request) {
        None => {
            let finish = |t: Talk| (Ok::<Seq<Entry>, Stop>(entries), t);
            assert forall|t: Talk| #[trigger]
                merged(t, Seq::empty(), parsed, path, Ok(listed_beside_fixed(store, parsed)))
                    == finish(t) by {
                law_empty_queue_shows_the_storage(
                    t,
                    parsed,
                    path,
                    listed_beside_fixed(store, parsed),
                );
                if parsed is KvBucket {
                    assert(fixed_entries(parsed).drop_last() =~= Seq::empty());
                }
            }
            assert(entries_agree(store, parsed));
            lemma_turn(operation, one, request, finish, store, left);
            lemma_end(finish, store, two, (left - 1) as nat);
        },
        Some(StorageFailure::NotFound) if always_there(parsed) => {
            let finish = |t: Talk| (Ok::<Seq<Entry>, Stop>(Seq::empty()), t);
            assert forall|t: Talk| #[trigger]
                merged(t, Seq::empty(), parsed, path, Ok(Seq::empty())) == finish(t) by {
                law_empty_queue_shows_the_storage(t, parsed, path, Seq::empty());
            }
            lemma_turn(operation, one, request, finish, store, left);
            lemma_end(finish, store, two, (left - 1) as nat);
        },
        Some(failure) => {
            assert(queued_entries(Seq::empty(), path) =~= Seq::empty());
            let failed = |t: Talk| t.fail::<Seq<Entry>>(failure);
            lemma_turn(operation, one, request, failed, store, left);
            lemma_end(failed, store, two, (left - 1) as nat);
        },
    }
}

/// What the storage lists, beside what is always there.
spec fn listed_beside_fixed(store: Store, parsed: JetStreamPath<Text>) -> Seq<Entry> {
    match parsed {
        JetStreamPath::KvBucket { bucket } => (store.listed)(
            StorageRequest::ListKvPrefix { bucket, prefix: Seq::empty() },
        ),
        _ => one_listing(store, parsed).unwrap().1,
    }
}

/// Whether names become entries as they should.
spec fn entries_agree(store: Store, parsed: JetStreamPath<Text>) -> bool {
    match parsed {
        JetStreamPath::KvRoot => directories_of(
            (store.named)(StorageRequest::ListKvBuckets),
        ) =~= listed_beside_fixed(store, parsed),
        JetStreamPath::StreamsRoot => directories_of(
            (store.named)(StorageRequest::ListStreams),
        ) =~= listed_beside_fixed(store, parsed),
        JetStreamPath::ObjectsRoot => directories_of(
            (store.named)(StorageRequest::ListObjectBuckets),
        ) =~= listed_beside_fixed(store, parsed),
        JetStreamPath::EventsRoot => event_logs_of(
            (store.named)(StorageRequest::ListStreams),
        ) =~= listed_beside_fixed(store, parsed),
        _ => true,
    }
}

// ---------------------------------------------------------------------------
// Fixed directories
// ---------------------------------------------------------------------------

/// What a directory lists that is the same in every mount.
pub open spec fn fixed_listing(parsed: JetStreamPath<Text>) -> Option<Seq<Entry>> {
    match parsed {
        JetStreamPath::Root => Some(
            directories_named(
                seq![
                    "kv"@,
                    "streams"@,
                    "objects"@,
                    "events"@,
                    "tasks"@,
                    "agents"@,
                    "semantic"@,
                    ".eventfs"@,
                ],
            ),
        ),
        JetStreamPath::StreamRoot { .. } => Some(
            directories_named(seq!["messages"@, "subjects"@]),
        ),
        JetStreamPath::AgentRoot { .. } => Some(
            files_named(seq!["inbox"@, "outbox"@]) + directories_named(seq!["tasks"@, "memory"@]),
        ),
        JetStreamPath::SemanticRoot => Some(
            directories_named(
                seq!["summaries"@, "tags"@, "relations"@, "timelines"@, "embeddings"@],
            ),
        ),
        JetStreamPath::MetadataRoot => Some(
            files_named(
                seq![
                    "status.json"@,
                    "cache.json"@,
                    "queue.json"@,
                    "capabilities.json"@,
                    "errors.jsonl"@,
                ],
            ),
        ),
        _ => None,
    }
}

/// The directories that are the same in every mount list their entries without a question
/// to the storage.
pub proof fn law_fixed_directories_are_the_same_everywhere(
    parsed: JetStreamPath<Text>,
    path: Components,
    store: Store,
    talk: Talk,
    turns: nat,
)
    requires
        turns >= 1,
        talk.listening(),
        store.grants(StorageRequest::DrainWatchEvents),
        JetStreamPath::parsed(mount_text(path)) == Ok::<JetStreamPath<Text>, EventFsError<Text>>(
            parsed,
        ),
        fixed_listing(parsed) is Some,
    ensures
        ({
            let (result, after, _) = run(listing_at(path), store, talk, turns);
            &&& after == store
            &&& result == Ok::<Seq<Entry>, Stop>(fixed_listing(parsed).unwrap())
        }),
{
    lemma_listing(parsed, path, store, talk, turns);
    let one = talk.told(store.reply(StorageRequest::DrainWatchEvents)).heard();
    let entries = fixed_listing(parsed).unwrap();
    let stored = durable_entries(one, parsed).0->Ok_0;
    assert(stored =~= entries);
    law_empty_queue_shows_the_storage(one, parsed, path, stored);
    lemma_end(listing_stored(parsed, path), store, one, (turns - 1) as nat);
}

// ---------------------------------------------------------------------------
// Histories
// ---------------------------------------------------------------------------

/// More entries are added behind the first ones, which stay in place; every name of them
/// is listed, and none is made up.
proof fn lemma_new_entries(entries: Seq<Entry>, more: Seq<Entry>)
    ensures
        ({
            let all = with_new_entries(entries, more);
            &&& all.len() >= entries.len()
            &&& all.take(entries.len() as int) == entries
            &&& forall|i: int|
                0 <= i < more.len() ==> lists_name(all, (#[trigger] more[i]).name)
            &&& forall|i: int|
                entries.len() <= i < all.len() ==> more.contains(#[trigger] all[i])
        }),
    decreases more.len(),
{
    let all = with_new_entries(entries, more);
    if more.len() == 0 {
        assert(all.take(entries.len() as int) =~= entries);
    } else {
        let front = more.drop_last();
        let before = with_new_entries(entries, front);
        lemma_new_entries(entries, front);
        assert(more =~= front.push(more.last()));
        if lists_name(before, more.last().name) {
            assert forall|i: int| 0 <= i < more.len() implies lists_name(
                all,
                (#[trigger] more[i]).name,
            ) by {
                if i < front.len() {
                    assert(front[i] == more[i]);
                }
            }
            assert forall|i: int| entries.len() <= i < all.len() implies more.contains(
                #[trigger] all[i],
            ) by {
                let k = choose|k: int| 0 <= k < front.len() && front[k] == before[i];
                assert(front.contains(before[i]));
                assert(more[k] == all[i]);
            }
        } else {
            assert(all.take(entries.len() as int) =~= before.take(entries.len() as int));
            assert forall|i: int| 0 <= i < more.len() implies lists_name(
                all,
                (#[trigger] more[i]).name,
            ) by {
                if i < front.len() {
                    assert(front[i] == more[i]);
                    let k = choose|k: int|
                        0 <= k < before.len() && (#[trigger] before[k]).name == more[i].name;
                    assert(all[k] == before[k]);
                } else {
                    assert(all[before.len() as int] == more.last());
                }
            }
            assert forall|i: int| entries.len() <= i < all.len() implies more.contains(
                #[trigger] all[i],
            ) by {
                if i < before.len() {
                    assert(front.contains(before[i]));
                    let k = choose|k: int| 0 <= k < front.len() && front[k] == before[i];
                    assert(more[k] == all[i]);
                } else {
                    assert(more[more.len() - 1] == all[i]);
                }
            }
        }
    }
}

/// The history of a key lists a file for each of its revisions, in their order, and then
/// the keys below it. Nothing changes.
pub proof fn law_histories_list_every_revision(
    bucket: Text,
    key: Text,
    path: Components,
    store: Store,
    talk: Talk,
    turns: nat,
)
    requires
        turns >= 3,
        talk.listening(),
        store.grants(StorageRequest::DrainWatchEvents),
        JetStreamPath::parsed(mount_text(path)) == Ok::<JetStreamPath<Text>, EventFsError<Text>>(
            JetStreamPath::KvHistoryKey { bucket, key },
        ),
        store.grants(StorageRequest::KvHistory { bucket, key }),
        store.grants(StorageRequest::ListKvHistoryPrefix { bucket, prefix: key }),
    ensures
        ({
            let (result, after, _) = run(listing_at(path), store, talk, turns);
            let revisions = (store.histories)((bucket, key));
            let below = (store.listed)(StorageRequest::ListKvHistoryPrefix { bucket, prefix: key });
            &&& after == store
            &&& result matches Ok(entries) && {
                &&& entries.len() >= revisions.len()
                &&& forall|i: int|
                    0 <= i < revisions.len() ==> #[trigger] entries[i] == (DirectoryEntry {
                        name: "@"@ + decimal(revisions[i].revision as nat),
                        kind: EntryKind::File,
                    })
                &&& forall|i: int|
                    0 <= i < below.len() ==> lists_name(entries, (#[trigger] below[i]).name)
                &&& forall|i: int|
                    revisions.len() <= i < entries.len() ==> below.contains(#[trigger] entries[i])
            }
        }),
{
    let parsed = JetStreamPath::KvHistoryKey { bucket, key };
    lemma_listing(parsed, path, store, talk, turns);
    let one = talk.told(store.reply(StorageRequest::DrainWatchEvents)).heard();
    let left = (turns - 1) as nat;
    let operation = listing_stored(parsed, path);
    let first = StorageRequest::KvHistory { bucket, key };
    let second = StorageRequest::ListKvHistoryPrefix { bucket, prefix: key };
    let revisions = (store.histories)((bucket, key));
    let below = (store.listed)(second);
    let all = with_new_entries(revision_files(revisions), below);
    let listing = |t: Talk|
        {
            let (below, t) = t.entries(second);
            let (stored, t) = match below {
                Err(stop) => (Err::<Seq<Entry>, Stop>(stop), t),
                Ok(below) => (Ok(with_new_entries(revision_files(revisions), below)), t),
            };
            merged(t, Seq::empty(), parsed, path, stored)
        };
    lemma_turn(operation, one, first, listing, store, left);
    let two = one.told(store.reply(first)).heard();
    let finish = |t: Talk| (Ok::<Seq<Entry>, Stop>(all), t);
    assert forall|t: Talk| #[trigger] merged(t, Seq::empty(), parsed, path, Ok(all)) == finish(t) by {
        law_empty_queue_shows_the_storage(t, parsed, path, all);
    }
    let fewer = (left - 1) as nat;
    lemma_turn(listing, two, second, finish, store, fewer);
    lemma_end(finish, store, two.told(store.reply(second)).heard(), (fewer - 1) as nat);
    lemma_new_entries(revision_files(revisions), below);
    assert forall|i: int| 0 <= i < revisions.len() implies #[trigger] all[i] == (DirectoryEntry {
        name: "@"@ + decimal(revisions[i].revision as nat),
        kind: EntryKind::File,
    }) by {
        assert(all.take(revisions.len() as int)[i] == all[i]);
    }
}

// ---------------------------------------------------------------------------
// Agents
// ---------------------------------------------------------------------------

/// What the storage has of a list, where nothing found is nothing there.
pub open spec fn found_entries(store: Store, request: Request) -> Seq<Entry> {
    if store.grants(request) {
        (store.listed)(request)
    } else {
        Seq::empty()
    }
}

/// What the storage has of names, where nothing found is nothing there.
pub open spec fn found_names(store: Store, request: Request) -> Seq<Text> {
    if store.grants(request) {
        (store.named)(request)
    } else {
        Seq::empty()
    }
}

/// Whether a request is granted or finds nothing.
pub open spec fn granted_or_not_found(store: Store, request: Request) -> bool {
    store.grants(request) || (store.fails)(request) == Some(StorageFailure::<Text>::NotFound)
}

/// The agents are those with stored files and those with mailboxes, each once, as
/// directories in the order of their names. Nothing changes.
pub proof fn law_agents_are_those_with_files_or_mailboxes(
    path: Components,
    name: Text,
    store: Store,
    talk: Talk,
    turns: nat,
)
    requires
        turns >= 3,
        talk.listening(),
        store.grants(StorageRequest::DrainWatchEvents),
        JetStreamPath::parsed(mount_text(path)) == Ok::<JetStreamPath<Text>, EventFsError<Text>>(
            JetStreamPath::AgentsRoot,
        ),
        granted_or_not_found(
            store,
            StorageRequest::ListKvPrefix { bucket: AGENTS_BUCKET@, prefix: Seq::empty() },
        ),
        granted_or_not_found(store, StorageRequest::ListAgentNames),
    ensures
        ({
            let (result, after, _) = run(listing_at(path), store, talk, turns);
            let stored = found_entries(
                store,
                StorageRequest::ListKvPrefix { bucket: AGENTS_BUCKET@, prefix: Seq::empty() },
            );
            let mailboxes = found_names(store, StorageRequest::ListAgentNames);
            &&& after == store
            &&& result matches Ok(entries) && {
                &&& forall|i: int|
                    0 <= i < entries.len() ==> (#[trigger] entries[i]).kind == EntryKind::Directory
                &&& names_in_order(Seq::new(entries.len(), |i: int| entries[i].name))
                &&& lists_name(entries, name) <==> lists_name(stored, name) || mailboxes.contains(
                    name,
                )
            }
        }),
{
    let parsed = JetStreamPath::<Text>::AgentsRoot;
    lemma_listing(parsed, path, store, talk, turns);
    let one = talk.told(store.reply(StorageRequest::DrainWatchEvents)).heard();
    let left = (turns - 1) as nat;
    let operation = listing_stored(parsed, path);
    let first = StorageRequest::ListKvPrefix { bucket: AGENTS_BUCKET@, prefix: Seq::empty() };
    let second: Request = StorageRequest::ListAgentNames;
    let stored = found_entries(store, first);
    let mailboxes = found_names(store, second);
    let names = with_names(with_names(Seq::empty(), names_of(stored)), mailboxes);
    let all = directories_of(names);
    let asking = |t: Talk|
        {
            let (names, t) = t.try_names(second);
            let (entries, t) = match names {
                Err(stop) => (Err::<Seq<Entry>, Stop>(stop), t),
                Ok(names) => {
                    let (names, t) = or_nothing(t, names);
                    match names {
                        Err(stop) => (Err(stop), t),
                        Ok(names) => (
                            Ok(
                                directories_of(
                                    with_names(
                                        with_names(Seq::empty(), names_of(stored)),
                                        names,
                                    ),
                                ),
                            ),
                            t,
                        ),
                    }
                },
            };
            merged(t, Seq::empty(), parsed, path, entries)
        };
    lemma_turn(operation, one, first, asking, store, left);
    let two = one.told(store.reply(first)).heard();
    let fewer = (left - 1) as nat;
    let finish = |t: Talk| (Ok::<Seq<Entry>, Stop>(all), t);
    assert forall|t: Talk| #[trigger] merged(t, Seq::empty(), parsed, path, Ok(all)) == finish(t) by {
        law_empty_queue_shows_the_storage(t, parsed, path, all);
    }
    lemma_turn(asking, two, second, finish, store, fewer);
    lemma_end(finish, store, two.told(store.reply(second)).heard(), (fewer - 1) as nat);
    let gathered = with_names(Seq::empty(), names_of(stored));
    law_gathered_names_are_listed_once_in_order(Seq::empty(), names_of(stored), name);
    law_gathered_names_are_listed_once_in_order(gathered, mailboxes, name);
    assert(Seq::new(all.len(), |i: int| all[i].name) =~= names);
    if lists_name(all, name) {
        let i = choose|i: int| 0 <= i < all.len() && (#[trigger] all[i]).name == name;
        assert(names[i] == name);
    }
    if names.contains(name) {
        let i = choose|i: int| 0 <= i < names.len() && names[i] == name;
        assert(all[i].name == name);
    }
    if lists_name(stored, name) {
        let i = choose|i: int| 0 <= i < stored.len() && (#[trigger] stored[i]).name == name;
        assert(names_of(stored)[i] == name);
    }
    if names_of(stored).contains(name) {
        let i = choose|i: int| 0 <= i < stored.len() && names_of(stored)[i] == name;
        assert(stored[i].name == name);
    }
}

// ---------------------------------------------------------------------------
// Queued entries
// ---------------------------------------------------------------------------

/// Whether no queued write removes anything.
pub open spec fn removes_nothing(facts: Seq<Fact>) -> bool {
    forall|f: int| 0 <= f < facts.len() ==> (#[trigger] facts[f]).deleted.len() == 0
}

/// Whether a queued write from one on makes something visible under a name.
pub open spec fn shows_under(facts: Seq<Fact>, from: nat, path: Components, name: Text) -> bool {
    exists|f: int|
        from <= f < facts.len() && lies_under((#[trigger] facts[f]).visible, path, name)
}

proof fn lemma_overlaid(
    talk: Talk,
    facts: Seq<Fact>,
    from: nat,
    path: Components,
    entries: Seq<Entry>,
    name: Text,
)
    requires
        removes_nothing(facts),
    ensures
        ({
            let (result, later) = overlaid_from(talk, facts, from, path, entries);
            &&& later == talk
            &&& result matches Ok(all) && lists_name(all, name) == (lists_name(entries, name)
                || shows_under(facts, from, path, name))
        }),
    decreases facts.len() - from,
{
    if from < facts.len() {
        let fact = facts[from as int];
        assert(fact.deleted.len() == 0);
        assert(deleted_from(talk, facts, from, 0, path, entries) == (
            Ok::<Seq<Entry>, Stop>(entries),
            talk,
        ));
        let more = with_children(entries, path, fact.visible);
        lemma_with_children(entries, path, fact.visible, name);
        lemma_overlaid(talk, facts, from + 1, path, more, name);
        if shows_under(facts, from, path, name) {
            let f = choose|f: int|
                from <= f < facts.len() && lies_under((#[trigger] facts[f]).visible, path, name);
            if f > from {
                assert(shows_under(facts, from + 1, path, name));
            }
        }
        if shows_under(facts, from + 1, path, name) {
            let f = choose|f: int|
                from + 1 <= f < facts.len() && lies_under(
                    (#[trigger] facts[f]).visible,
                    path,
                    name,
                );
            assert(from <= f);
        }
    }
}

proof fn lemma_added_in_order(entries: Seq<Entry>, more: Seq<Entry>, name: Text)
    requires
        lists_name(entries, name),
    ensures
        lists_name(with_entries_in_order(entries, more), name),
    decreases more.len(),
{
    if more.len() > 0 {
        lemma_added_in_order(entries, more.drop_last(), name);
        let before = with_entries_in_order(entries, more.drop_last());
        let entry = more.last();
        let after = with_entry_in_order(before, entry);
        let i = choose|i: int| 0 <= i < before.len() && (#[trigger] before[i]).name == name;
        lemma_place_of_name(before, entry.name);
        lemma_place_after(before, entry.name);
        let found = place_of_name(before, entry.name);
        if found < before.len() {
            assert(after[i].name == name);
        } else {
            let at = place_after(before, entry.name);
            if i < at {
                assert(after[i].name == name);
            } else {
                assert(after[i + 1].name == name);
            }
        }
    }
}

proof fn lemma_added(entries: Seq<Entry>, more: Seq<Entry>, name: Text)
    requires
        lists_name(entries, name),
    ensures
        lists_name(with_entries(entries, more), name),
    decreases more.len(),
{
    if more.len() > 0 {
        lemma_added(entries, more.drop_last(), name);
        law_with_entry_lists_each_name_once(
            with_entries(entries, more.drop_last()),
            more.last(),
            name,
        );
    }
}

/// Queued writes that remove nothing take nothing from a listing: everything that the
/// storage lists is listed, and so is everything that they make visible. Where the storage
/// cannot list the directory, what they make visible there is listed all the same.
pub proof fn law_queued_writes_add_to_listings(
    talk: Talk,
    facts: Seq<Fact>,
    parsed: JetStreamPath<Text>,
    path: Components,
    stored: Result<Seq<Entry>, Stop>,
    name: Text,
)
    requires
        removes_nothing(facts),
        match stored {
            Ok(_) => true,
            Err(Pause::Fail(number)) => (number == errno::ENOENT || number == errno::EIO)
                && queued_entries(facts, path).len() > 0,
            Err(_) => false,
        },
    ensures
        ({
            let (result, later) = merged(talk, facts, parsed, path, stored);
            &&& later == talk
            &&& result matches Ok(all) && {
                &&& shows_under(facts, 0, path, name) ==> lists_name(all, name)
                &&& (stored matches Ok(stored) && lists_name(stored, name)) ==> lists_name(
                    all,
                    name,
                )
            }
        }),
{
    let queued = queued_entries(facts, path);
    match stored {
        Ok(stored) => {
            let first = with_entries_in_order(stored, fixed_entries(parsed));
            let all = with_entries(first, queued);
            lemma_overlaid(talk, facts, 0, path, all, name);
            if lists_name(stored, name) {
                lemma_added_in_order(stored, fixed_entries(parsed), name);
                lemma_added(first, queued, name);
            }
        },
        Err(_) => {
            lemma_overlaid(
                talk,
                facts,
                0,
                path,
                with_entries_in_order(fixed_entries(parsed), queued),
                name,
            );
        },
    }
}

} // verus!
