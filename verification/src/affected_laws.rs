//! What every list of affected paths has in common.

use vstd::prelude::*;

use crate::affected::{
    agent_key_parts, ancestors, floor, lists_path, mailbox_parts, mounted, places, resolved, stale,
    storage_path, visible, with_ancestors, with_path, with_paths, Affected, AffectedPath,
    AffectedPathReason, Place, StorageFact,
};
use crate::errors::EventFsError;
use crate::file_names::subject_file_name;
use crate::mount_paths::{bad_mount_component, Components};
use crate::path::{
    bad_name, forbidden_in_subject, name_problem, root_name_problem, subject_problem, token_char,
    token_problem, AgentArea, JetStreamPath, SemanticArea, StreamSubject,
};
use crate::path_laws::{
    lemma_agent_area_begins, lemma_agent_area_name, lemma_components_append, lemma_fixed_components,
    lemma_json_suffixes, lemma_name_is_component, lemma_name_pieces, lemma_name_tail, lemma_one,
    lemma_root_components, lemma_semantic_area_begins, lemma_semantic_area_name, lemma_single_tail,
    lemma_stem_and_suffix, lemma_subject_file_is_component, lemma_three, lemma_token_is_component,
    lemma_two, lemma_valid_path_is_mounted,
};
use crate::subjects::{AGENTS_BUCKET, AGENTS_STREAM, SEMANTIC_BUCKET, TASKS_BUCKET};
use crate::text::{
    has_double_dot, join, lemma_join_split, lemma_split_around, lemma_split_join,
    lemma_split_pieces, lemma_split_without, split, strip_prefix, Text,
};

verus! {

/// Whether no path is listed twice.
pub open spec fn distinct(paths: Seq<Affected>) -> bool {
    forall|i: int, j: int|
        0 <= i < j < paths.len() ==> (#[trigger] paths[i]).path != (#[trigger] paths[j]).path
}

/// Whether a path is a listed one, or one of its ancestors.
pub open spec fn reaches(paths: Seq<Affected>, path: Components) -> bool {
    exists|i: int|
        0 <= i < paths.len() && ((#[trigger] paths[i]).path == path || lists_path(
            ancestors(paths[i].path, paths[i].reason),
            path,
        ))
}

/// What one more path adds to a list.
pub proof fn lemma_with_path(paths: Seq<Affected>, affected: Affected, path: Components)
    ensures
        lists_path(with_path(paths, affected), path) == (lists_path(paths, path) || affected.path
            == path),
        distinct(paths) ==> distinct(with_path(paths, affected)),
        paths.is_prefix_of(with_path(paths, affected)),
{
    let more = with_path(paths, affected);
    if !lists_path(paths, affected.path) {
        assert(more[paths.len() as int] == affected);
        if lists_path(paths, path) {
            let i = choose|i: int| 0 <= i < paths.len() && (#[trigger] paths[i]).path == path;
            assert(more[i].path == path);
        }
        if lists_path(more, path) {
            let i = choose|i: int| 0 <= i < more.len() && (#[trigger] more[i]).path == path;
            if i < paths.len() {
                assert(paths[i].path == path);
            }
        }
        if distinct(paths) {
            assert forall|i: int, j: int| 0 <= i < j < more.len() implies (#[trigger] more[i]).path
                != (#[trigger] more[j]).path by {
                assert(paths[i] == more[i]);
                if j < paths.len() {
                    assert(paths[j] == more[j]);
                }
            }
        }
    }
}

/// What more paths add to a list.
pub proof fn lemma_with_paths(paths: Seq<Affected>, more: Seq<Affected>, path: Components)
    ensures
        lists_path(with_paths(paths, more), path) == (lists_path(paths, path) || lists_path(
            more,
            path,
        )),
        distinct(paths) ==> distinct(with_paths(paths, more)),
        paths.is_prefix_of(with_paths(paths, more)),
    decreases more.len(),
{
    if more.len() > 0 {
        let front = more.drop_last();
        lemma_with_paths(paths, front, path);
        lemma_with_path(with_paths(paths, front), more.last(), path);
        if lists_path(front, path) {
            let i = choose|i: int| 0 <= i < front.len() && (#[trigger] front[i]).path == path;
            assert(more[i].path == path);
        }
        if lists_path(more, path) {
            let i = choose|i: int| 0 <= i < more.len() && (#[trigger] more[i]).path == path;
            if i < front.len() {
                assert(front[i].path == path);
            }
        }
        assert(more[more.len() - 1] == more.last());
    }
}

/// What a list of paths and their ancestors holds.
pub proof fn lemma_with_ancestors(paths: Seq<Affected>, path: Components)
    ensures
        lists_path(with_ancestors(paths), path) == reaches(paths, path),
        distinct(with_ancestors(paths)),
    decreases paths.len(),
{
    if paths.len() > 0 {
        let front = paths.drop_last();
        let last = paths.last();
        lemma_with_ancestors(front, path);
        lemma_with_path(with_ancestors(front), last, path);
        lemma_with_paths(
            with_path(with_ancestors(front), last),
            ancestors(last.path, last.reason),
            path,
        );
        if reaches(front, path) {
            let i = choose|i: int|
                0 <= i < front.len() && ((#[trigger] front[i]).path == path || lists_path(
                    ancestors(front[i].path, front[i].reason),
                    path,
                ));
            assert(paths[i] == front[i]);
        }
        if reaches(paths, path) {
            let i = choose|i: int|
                0 <= i < paths.len() && ((#[trigger] paths[i]).path == path || lists_path(
                    ancestors(paths[i].path, paths[i].reason),
                    path,
                ));
            if i < front.len() {
                assert(front[i] == paths[i]);
            }
        }
        assert(paths[paths.len() - 1] == last);
    }
}

/// Whether a path is that of a place, with the place's reason.
pub open spec fn comes_from_place(
    affected: Affected,
    places: Seq<(AffectedPathReason, Place)>,
) -> bool {
    exists|i: int|
        0 <= i < places.len() && storage_path((#[trigger] places[i]).1) == Ok::<
            Components,
            EventFsError<Text>,
        >(affected.path) && places[i].0 == affected.reason
}

/// Each place's path is listed, and each listed path is that of a place.
pub proof fn lemma_resolved(places: Seq<(AffectedPathReason, Place)>)
    ensures
        match resolved(places) {
            Ok(paths) => {
                &&& distinct(paths)
                &&& forall|i: int|
                    0 <= i < places.len() ==> (storage_path((#[trigger] places[i]).1) matches Ok(
                        path,
                    ) && lists_path(paths, path))
                &&& forall|k: int|
                    0 <= k < paths.len() ==> comes_from_place(#[trigger] paths[k], places)
            },
            Err(error) => exists|i: int|
                0 <= i < places.len() && storage_path((#[trigger] places[i]).1) == Err::<
                    Components,
                    EventFsError<Text>,
                >(error),
        },
    decreases places.len(),
{
    if places.len() > 0 {
        let front = places.drop_last();
        lemma_resolved(front);
        assert(places[places.len() - 1] == places.last());
        match resolved(front) {
            Err(error) => {
                let i = choose|i: int|
                    0 <= i < front.len() && storage_path((#[trigger] front[i]).1) == Err::<
                        Components,
                        EventFsError<Text>,
                    >(error);
                assert(places[i] == front[i]);
            },
            Ok(before) => {
                if storage_path(places.last().1) is Ok {
                    let added = AffectedPath {
                        path: storage_path(places.last().1)->Ok_0,
                        reason: places.last().0,
                    };
                    let after = with_path(before, added);
                    lemma_with_path(before, added, added.path);
                    assert forall|i: int| 0 <= i < places.len() implies (storage_path(
                        (#[trigger] places[i]).1,
                    ) matches Ok(path) && lists_path(after, path)) by {
                        if i < front.len() {
                            assert(front[i] == places[i]);
                            lemma_with_path(before, added, storage_path(front[i].1)->Ok_0);
                        }
                    }
                    assert forall|k: int| 0 <= k < after.len() implies comes_from_place(
                        #[trigger] after[k],
                        places,
                    ) by {
                        if k < before.len() {
                            assert(comes_from_place(before[k], front));
                            let i = choose|i: int|
                                0 <= i < front.len() && storage_path((#[trigger] front[i]).1)
                                    == Ok::<Components, EventFsError<Text>>(before[k].path)
                                    && front[i].0 == before[k].reason;
                            assert(places[i] == front[i]);
                        }
                    }
                }
            },
        }
    }
}

/// No path is listed twice among those that show a value, nor among those that a
/// change makes stale.
pub proof fn law_affected_paths_are_distinct(fact: StorageFact<Text>)
    ensures
        visible(fact) matches Ok(paths) ==> distinct(paths),
        stale(fact) matches Ok(paths) ==> distinct(paths),
{
    lemma_resolved(places(fact));
    if visible(fact) is Ok {
        lemma_with_ancestors(visible(fact)->Ok_0, Seq::empty());
    }
}

/// A change makes stale exactly the paths that show the value and their ancestors
/// down to the floor: every visible path is among them, and nothing else is.
pub proof fn law_stale_paths_are_visible_or_ancestors(fact: StorageFact<Text>, path: Components)
    requires
        visible(fact) is Ok,
    ensures
        stale(fact) matches Ok(paths) && lists_path(paths, path) == reaches(
            visible(fact)->Ok_0,
            path,
        ),
{
    lemma_with_ancestors(visible(fact)->Ok_0, path);
}

/// The ancestors of a path are its prefixes from the floor up, all but itself.
pub proof fn law_ancestors_are_prefixes(
    path: Components,
    reason: AffectedPathReason,
    ancestor: Components,
)
    ensures
        lists_path(ancestors(path, reason), ancestor) == (ancestor.is_prefix_of(path) && floor(
            path,
            reason,
        ) <= ancestor.len() < path.len()),
{
    let above = ancestors(path, reason);
    if lists_path(above, ancestor) {
        let i = choose|i: int| 0 <= i < above.len() && (#[trigger] above[i]).path == ancestor;
        assert(ancestor == path.take(path.len() - 1 - i));
    }
    if ancestor.is_prefix_of(path) && floor(path, reason) <= ancestor.len() < path.len() {
        let k = path.len() - 1 - ancestor.len();
        assert(above[k].path == path.take(ancestor.len() as int));
        assert(ancestor =~= path.take(ancestor.len() as int));
    }
}

/// A value all of whose places have paths is visible, under each of those paths.
proof fn lemma_all_places_resolve(fact: StorageFact<Text>, source: Components, at: int)
    requires
        forall|i: int| 0 <= i < places(fact).len() ==> storage_path((#[trigger] places(fact)[i]).1) is Ok,
        0 <= at < places(fact).len(),
        storage_path(places(fact)[at].1) == Ok::<Components, EventFsError<Text>>(source),
    ensures
        visible(fact) matches Ok(paths) && lists_path(paths, source),
{
    lemma_resolved(places(fact));
}

/// The names of the materialized buckets differ.
proof fn lemma_bucket_names_differ()
    ensures
        TASKS_BUCKET@ != AGENTS_BUCKET@,
        TASKS_BUCKET@ != SEMANTIC_BUCKET@,
        AGENTS_BUCKET@ != SEMANTIC_BUCKET@,
        token_problem(TASKS_BUCKET@, "bucket"@) is None,
        token_problem(AGENTS_BUCKET@, "bucket"@) is None,
        token_problem(SEMANTIC_BUCKET@, "bucket"@) is None,
{
    reveal_strlit("EVENTFS_TASKS");
    reveal_strlit("EVENTFS_AGENTS");
    reveal_strlit("EVENTFS_SEMANTIC");
    assert(TASKS_BUCKET@.len() != AGENTS_BUCKET@.len());
    assert(TASKS_BUCKET@.len() != SEMANTIC_BUCKET@.len());
    assert(AGENTS_BUCKET@.len() != SEMANTIC_BUCKET@.len());
}

/// The place of a name below one component.
proof fn lemma_root_tail(root: Text, name: Text)
    requires
        !bad_mount_component(root),
        name_problem(split(name, '/')) is None,
    ensures
        storage_path(Place { fixed: seq![root], tail: Some(name) }) is Ok,
{
    lemma_one(root);
    lemma_name_tail(seq![root], name);
}

/// The alias of an agent's file has a path.
proof fn lemma_agent_alias(key: Text)
    requires
        name_problem(split(key, '/')) is None,
    ensures
        agent_key_parts(key) matches Some((agent, area, rest)) ==> storage_path(
            Place { fixed: seq!["agents"@, agent, area], tail: Some(rest) },
        ) is Ok,
{
    lemma_name_pieces(key);
    lemma_root_components();
    let parts = split(key, '/');
    if agent_key_parts(key) is Some {
        let tail = parts.skip(2);
        assert(!bad_mount_component(parts[0]));
        assert(!bad_mount_component(parts[1]));
        lemma_three("agents"@, parts[0], parts[1]);
        assert forall|i: int| 0 <= i < tail.len() implies !(#[trigger] tail[i]).contains('/') by {
            assert(!bad_mount_component(parts[i + 2]));
        }
        lemma_split_join(tail, '/');
        assert forall|i: int| 0 <= i < tail.len() implies !bad_mount_component(
            #[trigger] tail[i],
        ) by {
            assert(!bad_mount_component(parts[i + 2]));
        }
        lemma_components_append(seq!["agents"@, parts[0], parts[1]], tail);
    }
}

/// Every place of a key that the grammar accepts has a path.
proof fn lemma_kv_places_resolve(bucket: Text, key: Text)
    requires
        token_problem(bucket, "bucket"@) is None,
        name_problem(split(key, '/')) is None,
    ensures
        ({
            let found = places(StorageFact::Kv { bucket, key });
            forall|i: int| 0 <= i < found.len() ==> storage_path((#[trigger] found[i]).1) is Ok
        }),
{
    let found = places(StorageFact::Kv { bucket, key });
    lemma_root_components();
    lemma_token_is_component(bucket, "bucket"@);
    lemma_two("kv"@, bucket);
    lemma_name_tail(seq!["kv"@, bucket], key);
    lemma_root_tail("tasks"@, key);
    lemma_root_tail("semantic"@, key);
    lemma_agent_alias(key);
    assert forall|i: int| 0 <= i < found.len() implies storage_path((#[trigger] found[i]).1) is Ok by {
        assert(i == 0 || i == 1);
    }
}

/// Whether a path names a subject of the mailbox stream whose agent holds a slash:
/// there is no path under `agents` for it.
pub open spec fn stray_mailbox(path: JetStreamPath<Text>) -> bool {
    match path {
        JetStreamPath::StreamSubject { stream, subject } => stream == AGENTS_STREAM@
            && (mailbox_parts(subject.0) matches Some((agent, area)) && agent.contains('/')),
        _ => false,
    }
}

/// The agent of a mailbox's subject is a component, unless it holds a slash.
proof fn lemma_mailbox_agent(subject: Text)
    requires
        subject_problem(subject) is None,
    ensures
        mailbox_parts(subject) matches Some((agent, area)) ==> (!agent.contains('/')
            ==> !bad_mount_component(agent)),
{
    if mailbox_parts(subject) is Some {
        let parts = split(subject, '.');
        let agent = parts[1];
        lemma_split_pieces(subject, '.');
        lemma_join_split(subject, '.');
        assert(!agent.contains('.'));
        reveal_strlit(".");
        reveal_strlit("..");
        assert("."@.contains('.')) by {
            assert("."@[0] == '.');
        }
        assert(".."@.contains('.')) by {
            assert(".."@[0] == '.');
        }
        if agent.contains('\0') {
            let k = choose|k: int| 0 <= k < agent.len() && agent[k] == '\0';
            let front = join(parts.take(2), '.');
            assert(parts.drop_last() =~= parts.take(2));
            assert(parts.take(2).drop_last() =~= seq![parts[0]]);
            assert(join(seq![parts[0]], '.') == parts[0]);
            assert(parts.take(2).last() == agent);
            assert(front == parts[0].push('.') + agent);
            assert(subject == front.push('.') + parts[2]);
            assert(subject[parts[0].len() as int + 1 + k] == '\0');
            assert(forbidden_in_subject(subject[parts[0].len() as int + 1 + k]));
        }
    }
}

/// Every place of a subject has a path, unless its mailbox is a stray one.
proof fn lemma_stream_places_resolve(stream: Text, subject: Text)
    requires
        token_problem(stream, "stream"@) is None,
        subject_problem(subject) is None,
        !(stream == AGENTS_STREAM@ && (mailbox_parts(subject) matches Some((agent, area))
            && agent.contains('/'))),
    ensures
        ({
            let found = places(StorageFact::StreamSubject { stream, subject });
            forall|i: int| 0 <= i < found.len() ==> storage_path((#[trigger] found[i]).1) is Ok
        }),
{
    let found = places(StorageFact::StreamSubject { stream, subject });
    lemma_root_components();
    lemma_fixed_components();
    lemma_token_is_component(stream, "stream"@);
    lemma_three("streams"@, stream, "subjects"@);
    lemma_subject_file_is_component(subject);
    lemma_single_tail(
        seq!["streams"@, stream, "subjects"@],
        subject_file_name(subject),
    );
    lemma_one("events"@);
    lemma_json_suffixes();
    lemma_stem_and_suffix(stream, ".jsonl"@);
    lemma_single_tail(seq!["events"@], stream + ".jsonl"@);
    lemma_mailbox_agent(subject);
    if let Some((agent, area)) = mailbox_parts(subject) {
        if stream == AGENTS_STREAM@ {
            lemma_agent_area_name(area);
            lemma_three("agents"@, agent, area.name());
        }
    }
    assert forall|i: int| 0 <= i < found.len() implies storage_path((#[trigger] found[i]).1) is Ok by {
        assert(i == 0 || i == 1 || i == 2);
    }
}

/// The key of a file below two fixed names.
proof fn lemma_key_below(first: Text, rest: Text)
    requires
        !bad_mount_component(first),
        name_problem(split(rest, '/')) is None,
        first[0] != '.',
    ensures
        split(first + "/"@ + rest, '/') == seq![first] + split(rest, '/'),
        name_problem(split(first + "/"@ + rest, '/')) is None,
{
    reveal_strlit("/");
    let key = first + "/"@ + rest;
    assert(key =~= first.push('/') + rest);
    lemma_split_around(first, rest, '/');
    lemma_split_without(first, '/');
    let parts = split(key, '/');
    lemma_split_pieces(rest, '/');
    assert forall|i: int| 0 <= i < parts.len() implies !bad_name(
        #[trigger] parts[i],
    ) by {
        if i > 0 {
            assert(parts[i] == split(rest, '/')[i - 1]);
        }
    }
}

/// Whether a path is among the paths that show its value.
pub open spec fn shows_itself(path: JetStreamPath<Text>) -> bool {
    mounted(path) is Ok && (StorageFact::of(path) matches Some(fact) && (visible(fact) matches Ok(
        paths,
    ) && lists_path(paths, mounted(path)->Ok_0)))
}

#[verifier::rlimit(40)]
#[verifier::spinoff_prover]
proof fn lemma_key_is_visible(bucket: Text, key: Text)
    requires
        (JetStreamPath::KvKey { bucket, key }).valid(),
    ensures
        shows_itself(JetStreamPath::KvKey { bucket, key }),
{
    let path = JetStreamPath::KvKey { bucket, key };
    lemma_valid_path_is_mounted(path);
    lemma_kv_places_resolve(bucket, key);
    lemma_all_places_resolve(StorageFact::of(path).unwrap(), mounted(path)->Ok_0, 0);
}

#[verifier::rlimit(40)]
#[verifier::spinoff_prover]
proof fn lemma_subject_is_visible(stream: Text, subject: StreamSubject<Text>)
    requires
        (JetStreamPath::StreamSubject { stream, subject }).valid(),
        !stray_mailbox(JetStreamPath::StreamSubject { stream, subject }),
    ensures
        shows_itself(JetStreamPath::StreamSubject { stream, subject }),
{
    let path = JetStreamPath::StreamSubject { stream, subject };
    lemma_valid_path_is_mounted(path);
    lemma_stream_places_resolve(stream, subject.0);
    lemma_all_places_resolve(StorageFact::of(path).unwrap(), mounted(path)->Ok_0, 0);
}

#[verifier::rlimit(40)]
#[verifier::spinoff_prover]
proof fn lemma_object_is_visible(bucket: Text, object: Text)
    requires
        (JetStreamPath::Object { bucket, object }).valid(),
    ensures
        shows_itself(JetStreamPath::Object { bucket, object }),
{
    let path = JetStreamPath::Object { bucket, object };
    lemma_valid_path_is_mounted(path);
    lemma_all_places_resolve(StorageFact::of(path).unwrap(), mounted(path)->Ok_0, 0);
}

#[verifier::rlimit(40)]
#[verifier::spinoff_prover]
proof fn lemma_task_is_visible(namespace: Text, task: Text)
    requires
        (JetStreamPath::Task { namespace, task }).valid(),
    ensures
        shows_itself(JetStreamPath::Task { namespace, task }),
{
    let path = JetStreamPath::Task { namespace, task };
    let fact = StorageFact::of(path).unwrap();
    lemma_valid_path_is_mounted(path);
    lemma_bucket_names_differ();
    lemma_root_components();
    lemma_token_is_component(namespace, "task namespace"@);
    lemma_name_is_component(task);
    lemma_split_without(task, '/');
    assert(name_problem(split(task, '/')) is None);
    lemma_key_below(namespace, task);
    lemma_kv_places_resolve(TASKS_BUCKET@, namespace + "/"@ + task);
    lemma_two("tasks"@, namespace);
    lemma_single_tail(seq!["tasks"@, namespace], task);
    lemma_one("tasks"@);
    lemma_name_tail(seq!["tasks"@], namespace + "/"@ + task);
    assert(seq!["tasks"@] + (seq![namespace] + seq![task]) =~= seq!["tasks"@, namespace].push(task));
    lemma_all_places_resolve(fact, mounted(path)->Ok_0, 1);
}

#[verifier::rlimit(40)]
#[verifier::spinoff_prover]
proof fn lemma_agent_record_is_visible(agent: Text, area: AgentArea, record: Text)
    requires
        (JetStreamPath::AgentRecord { agent, area, path: record }).valid(),
    ensures
        shows_itself(JetStreamPath::AgentRecord { agent, area, path: record }),
{
    let path = JetStreamPath::AgentRecord { agent, area, path: record };
    let fact = StorageFact::of(path).unwrap();
    lemma_valid_path_is_mounted(path);
    lemma_bucket_names_differ();
    lemma_token_is_component(agent, "agent"@);
    lemma_agent_area_name(area);
    lemma_agent_area_begins(area);
    let inner = area.name() + "/"@ + record;
    let key = agent + "/"@ + area.name() + "/"@ + record;
    assert(key =~= agent + "/"@ + inner);
    lemma_key_below(area.name(), record);
    lemma_key_below(agent, inner);
    lemma_kv_places_resolve(AGENTS_BUCKET@, key);
    lemma_name_pieces(record);
    let parts = split(key, '/');
    assert(parts =~= seq![agent, area.name()] + split(record, '/'));
    assert(parts.skip(2) =~= split(record, '/'));
    assert(agent_key_parts(key) == Some((agent, area.name(), record)));
    lemma_all_places_resolve(fact, mounted(path)->Ok_0, 1);
}

#[verifier::rlimit(40)]
#[verifier::spinoff_prover]
proof fn lemma_semantic_record_is_visible(area: SemanticArea, record: Text)
    requires
        (JetStreamPath::SemanticRecord { area, path: record }).valid(),
    ensures
        shows_itself(JetStreamPath::SemanticRecord { area, path: record }),
{
    let path = JetStreamPath::SemanticRecord { area, path: record };
    let fact = StorageFact::of(path).unwrap();
    lemma_valid_path_is_mounted(path);
    lemma_bucket_names_differ();
    lemma_root_components();
    lemma_semantic_area_name(area);
    lemma_semantic_area_begins(area);
    let key = area.name() + "/"@ + record;
    lemma_key_below(area.name(), record);
    lemma_kv_places_resolve(SEMANTIC_BUCKET@, key);
    lemma_two("semantic"@, area.name());
    lemma_name_tail(seq!["semantic"@, area.name()], record);
    lemma_one("semantic"@);
    lemma_name_tail(seq!["semantic"@], key);
    assert(seq!["semantic"@] + (seq![area.name()] + split(record, '/')) =~= seq![
        "semantic"@,
        area.name(),
    ] + split(record, '/'));
    lemma_all_places_resolve(fact, mounted(path)->Ok_0, 1);
}

/// The subject of an event log is one that the grammar accepts, and no mailbox.
proof fn lemma_event_subject(stream: Text)
    requires
        token_problem(stream, "stream"@) is None,
    ensures
        subject_problem("events."@ + stream) is None,
        strip_prefix("events."@ + stream, "events."@) == Some(stream),
        mailbox_parts("events."@ + stream) is None,
{
    let subject = "events."@ + stream;
    reveal_strlit("events.");
    reveal_strlit("events");
    lemma_token_is_component(stream, "stream"@);
    assert(subject.subrange(0, "events."@.len() as int) =~= "events."@);
    assert(subject.skip("events."@.len() as int) =~= stream);
    assert forall|i: int| 0 <= i < subject.len() implies !forbidden_in_subject(
        #[trigger] subject[i],
    ) by {
        if i >= 7 {
            assert(token_char(stream[i - 7]));
        }
    }
    assert(token_char(stream[0]));
    assert(token_char(stream[stream.len() - 1]));
    assert(subject.last() == stream[stream.len() - 1]);
    if has_double_dot(subject) {
        let i = choose|i: int|
            0 <= i && i + 1 < subject.len() && #[trigger] subject[i] == '.' && subject[i + 1] == '.';
        if i >= 7 {
            assert(token_char(stream[i - 7]));
        }
        if i == 6 {
            assert(subject[i + 1] == stream[0]);
        }
    }
    assert(subject =~= "events"@.push('.') + stream);
    lemma_split_around("events"@, stream, '.');
    lemma_split_without("events"@, '.');
    lemma_split_without(stream, '.');
    assert(split(subject, '.').len() == 2);
}

#[verifier::rlimit(40)]
#[verifier::spinoff_prover]
proof fn lemma_event_log_is_visible(stream: Text)
    requires
        (JetStreamPath::EventLog { stream }).valid(),
    ensures
        shows_itself(JetStreamPath::EventLog { stream }),
{
    let path = JetStreamPath::EventLog { stream };
    let fact = StorageFact::of(path).unwrap();
    lemma_valid_path_is_mounted(path);
    lemma_event_subject(stream);
    lemma_stream_places_resolve(stream, "events."@ + stream);
    lemma_all_places_resolve(fact, mounted(path)->Ok_0, 1);
}

/// The subject of a mailbox is one that the grammar accepts, and gives the mailbox
/// back.
proof fn lemma_mailbox_subject(agent: Text, area: AgentArea)
    requires
        root_name_problem(agent, "agent"@) is None,
        area.mailbox(),
    ensures
        ({
            let subject = "agents."@ + agent + "."@ + area.name();
            &&& subject_problem(subject) is None
            &&& strip_prefix(subject, "events."@) is None
            &&& mailbox_parts(subject) == Some((agent, area))
        }),
{
    let subject = "agents."@ + agent + "."@ + area.name();
    reveal_strlit("events.");
    reveal_strlit("agents.");
    reveal_strlit("agents");
    reveal_strlit(".");
    reveal_strlit("inbox");
    reveal_strlit("outbox");
    lemma_token_is_component(agent, "agent"@);
    area.law_name_round_trip();
    let name = area.name();
    assert(name == "inbox"@ || name == "outbox"@);
    assert forall|i: int| 0 <= i < name.len() implies token_char(#[trigger] name[i]) by {}
    assert(!name.contains('.')) by {
        if name.contains('.') {
            let k = choose|k: int| 0 <= k < name.len() && name[k] == '.';
            assert(token_char(name[k]));
        }
    }
    let front = "agents"@.push('.') + agent;
    assert(subject =~= front.push('.') + name);
    assert(!"agents"@.contains('.')) by {
        if "agents"@.contains('.') {
            let k = choose|k: int| 0 <= k < "agents"@.len() && "agents"@[k] == '.';
            assert(false);
        }
    }
    lemma_split_around("agents"@, agent, '.');
    lemma_split_around(front, name, '.');
    lemma_split_without("agents"@, '.');
    lemma_split_without(agent, '.');
    lemma_split_without(name, '.');
    assert(split(subject, '.') =~= seq!["agents"@, agent, name]);
    assert(subject[0] == 'a');
    if "events."@.is_prefix_of(subject) {
        assert(subject[0] == "events."@[0]);
    }
    let n = agent.len() as int;
    assert forall|i: int| 0 <= i < subject.len() implies !forbidden_in_subject(
        #[trigger] subject[i],
    ) by {
        if 7 <= i < 7 + n {
            assert(token_char(agent[i - 7]));
        } else if i > 7 + n {
            assert(token_char(name[i - 8 - n]));
        }
    }
    assert(subject.last() == name[name.len() - 1]);
    assert(token_char(name[name.len() - 1]));
    if has_double_dot(subject) {
        let i = choose|i: int|
            0 <= i && i + 1 < subject.len() && #[trigger] subject[i] == '.' && subject[i + 1] == '.';
        assert(token_char(agent[0]));
        assert(token_char(name[0]));
        if i == 6 {
            assert(subject[i + 1] == agent[0]);
        } else if 7 <= i < 7 + n {
            assert(token_char(agent[i - 7]));
        } else if i == 7 + n {
            assert(subject[i + 1] == name[0]);
        } else if i > 7 + n {
            assert(token_char(name[i - 8 - n]));
        }
    }
}

#[verifier::rlimit(40)]
#[verifier::spinoff_prover]
proof fn lemma_mailbox_is_visible(agent: Text, area: AgentArea)
    requires
        (JetStreamPath::AgentMailbox { agent, area }).valid(),
    ensures
        shows_itself(JetStreamPath::AgentMailbox { agent, area }),
{
    let path = JetStreamPath::AgentMailbox { agent, area };
    let fact = StorageFact::of(path).unwrap();
    let subject = "agents."@ + agent + "."@ + area.name();
    lemma_valid_path_is_mounted(path);
    lemma_mailbox_subject(agent, area);
    lemma_token_is_component(agent, "agent"@);
    reveal_strlit("EVENTFS_AGENTS");
    assert(token_problem(AGENTS_STREAM@, "stream"@) is None);
    lemma_stream_places_resolve(AGENTS_STREAM@, subject);
    lemma_all_places_resolve(fact, mounted(path)->Ok_0, 1);
}

/// A path that shows a value that can change is among the paths that show that value.
/// Left out are the subjects of the mailbox stream whose agent holds a slash.
pub proof fn law_path_shows_its_own_value(path: JetStreamPath<Text>)
    requires
        path.valid(),
        StorageFact::of(path) is Some,
        !stray_mailbox(path),
    ensures
        shows_itself(path),
{
    match path {
        JetStreamPath::KvKey { bucket, key } => {
            lemma_key_is_visible(bucket, key);
        },
        JetStreamPath::StreamSubject { stream, subject } => {
            lemma_subject_is_visible(stream, subject);
        },
        JetStreamPath::Object { bucket, object } => {
            lemma_object_is_visible(bucket, object);
        },
        JetStreamPath::Task { namespace, task } => {
            lemma_task_is_visible(namespace, task);
        },
        JetStreamPath::AgentRecord { agent, area, path: record } => {
            lemma_agent_record_is_visible(agent, area, record);
        },
        JetStreamPath::SemanticRecord { area, path: record } => {
            lemma_semantic_record_is_visible(area, record);
        },
        JetStreamPath::EventLog { stream } => {
            lemma_event_log_is_visible(stream);
        },
        JetStreamPath::AgentMailbox { agent, area } => {
            lemma_mailbox_is_visible(agent, area);
        },
        _ => {},
    }
}

} // verus!
