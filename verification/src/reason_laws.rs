//! How many paths show a value, and why each path is affected by a change of it.

use vstd::prelude::*;

use crate::affected::{
    agent_key_parts, ancestors, floor, lists_path, mailbox_parts, mounted, places, resolved, stale,
    storage_path, visible, with_ancestors, AffectedPathReason, Place, StorageFact,
};
use crate::affected_laws::{
    comes_from_place, distinct, law_affected_paths_are_distinct, law_path_shows_its_own_value,
    lemma_resolved, lemma_with_ancestors, stray_mailbox,
};
use crate::errors::EventFsError;
use crate::mount_paths::{bad_mount_component, descends, Components};
use crate::path::{JetStreamPath, StreamSubject};
use crate::path_laws::lemma_root_names_differ;
use crate::priority_laws::{
    lemma_ancestors_are_distinct, lemma_elements_with_ancestors, lemma_entry_in_stale,
    lemma_places_have_different_roots, lemma_shown_paths_have_different_roots,
};
use crate::text::{
    lemma_join_first, lemma_join_split, lemma_split_pieces, split, strip_prefix, Text,
};

verus! {

/// The path of the mount that shows a value where it is stored.
pub open spec fn native_path(fact: StorageFact<Text>) -> JetStreamPath<Text> {
    match fact {
        StorageFact::Kv { bucket, key } => JetStreamPath::KvKey { bucket, key },
        StorageFact::StreamSubject { stream, subject } => JetStreamPath::StreamSubject {
            stream,
            subject: StreamSubject(subject),
        },
        StorageFact::Object { bucket, name } => JetStreamPath::Object { bucket, object: name },
    }
}

/// The name of the root directory of a value's native path.
pub open spec fn native_root(fact: StorageFact<Text>) -> Text {
    match fact {
        StorageFact::Kv { .. } => "kv"@,
        StorageFact::StreamSubject { .. } => "streams"@,
        StorageFact::Object { .. } => "objects"@,
    }
}

/// Places under different roots are resolved one by one, and none is left out.
proof fn lemma_resolved_one_by_one(found: Seq<(AffectedPathReason, Place)>)
    requires
        forall|i: int| 0 <= i < found.len() ==> (#[trigger] found[i]).1.fixed.len() > 0,
        forall|i: int, j: int|
            0 <= i < j < found.len() ==> (#[trigger] found[i]).1.fixed[0] != (
            #[trigger] found[j]).1.fixed[0],
    ensures
        resolved(found) matches Ok(paths) ==> paths.len() == found.len() && forall|k: int|
            0 <= k < paths.len() ==> storage_path(found[k].1) == Ok::<
                Components,
                EventFsError<Text>,
            >((#[trigger] paths[k]).path) && paths[k].reason == found[k].0,
    decreases found.len(),
{
    if found.len() > 0 && resolved(found) is Ok {
        let front = found.drop_last();
        assert forall|i: int| 0 <= i < front.len() implies (#[trigger] front[i]).1.fixed.len() > 0 by {
            assert(front[i] == found[i]);
        }
        assert forall|i: int, j: int| 0 <= i < j < front.len() implies (
        #[trigger] front[i]).1.fixed[0] != (#[trigger] front[j]).1.fixed[0] by {
            assert(front[i] == found[i]);
            assert(front[j] == found[j]);
        }
        lemma_resolved_one_by_one(front);
        let before = resolved(front)->Ok_0;
        let last = found.last();
        assert(last == found[found.len() - 1]);
        let path = storage_path(last.1)->Ok_0;
        assert(path[0] == last.1.fixed[0]);
        if lists_path(before, path) {
            let k = choose|k: int| 0 <= k < before.len() && (#[trigger] before[k]).path == path;
            assert(front[k] == found[k]);
            assert(before[k].path[0] == found[k].1.fixed[0]);
        }
        let paths = resolved(found)->Ok_0;
        assert forall|k: int| 0 <= k < paths.len() implies storage_path(found[k].1) == Ok::<
            Components,
            EventFsError<Text>,
        >((#[trigger] paths[k]).path) && paths[k].reason == found[k].0 by {
            if k < before.len() {
                assert(paths[k] == before[k]);
                assert(front[k] == found[k]);
            }
        }
    }
}

/// A subject that belongs to an event log belongs to no mailbox.
proof fn lemma_event_subject_is_no_mailbox(subject: Text)
    requires
        strip_prefix(subject, "events."@) is Some,
    ensures
        mailbox_parts(subject) is None,
{
    if mailbox_parts(subject) is Some {
        let parts = split(subject, '.');
        lemma_join_split(subject, '.');
        lemma_join_first(parts, '.');
        reveal_strlit("events.");
        reveal_strlit("agents");
        assert(subject[0] == "agents"@[0]);
        assert(subject[0] == "events."@[0]);
    }
}

/// A value has its own place and at most one more.
#[verifier::spinoff_prover]
proof fn lemma_at_most_two_places(fact: StorageFact<Text>)
    ensures
        1 <= places(fact).len() <= 2,
        places(fact)[0].0 == AffectedPathReason::Exact,
        storage_path(places(fact)[0].1) == mounted(native_path(fact)),
        places(fact)[0].1.fixed.len() > 0 && places(fact)[0].1.fixed[0] == native_root(fact),
        places(fact).len() == 2 ==> places(fact)[1].0 == AffectedPathReason::Alias
            || places(fact)[1].0 == AffectedPathReason::Mailbox,
{
    if let StorageFact::StreamSubject { stream, subject } = fact {
        if strip_prefix(subject, "events."@) == Some(stream) {
            lemma_event_subject_is_no_mailbox(subject);
        }
    }
}

/// A value is shown at one path or at two, which differ. The first is its native path,
/// under `kv`, `streams` or `objects`, and shows the value exactly; the other is an alias
/// or a mailbox.
pub proof fn law_native_path_is_shown_first(fact: StorageFact<Text>)
    requires
        visible(fact) is Ok,
    ensures
        visible(fact) matches Ok(paths) && ({
            &&& 1 <= paths.len() <= 2
            &&& distinct(paths)
            &&& paths[0].reason == AffectedPathReason::Exact
            &&& mounted(native_path(fact)) == Ok::<Components, EventFsError<Text>>(paths[0].path)
            &&& paths[0].path.len() > 0 && paths[0].path[0] == native_root(fact)
            &&& paths.len() == 2 ==> paths[1].reason == AffectedPathReason::Alias
                || paths[1].reason == AffectedPathReason::Mailbox
        }),
{
    let found = places(fact);
    lemma_at_most_two_places(fact);
    law_affected_paths_are_distinct(fact);
    assert forall|i: int| 0 <= i < found.len() implies (#[trigger] found[i]).1.fixed.len() > 0 by {
        lemma_places_have_different_roots(fact, i, i);
    }
    assert forall|i: int, j: int| 0 <= i < j < found.len() implies (#[trigger] found[i]).1.fixed[0]
        != (#[trigger] found[j]).1.fixed[0] by {
        lemma_places_have_different_roots(fact, i, j);
    }
    lemma_resolved_one_by_one(found);
    let paths = visible(fact)->Ok_0;
    assert(storage_path(found[0].1) == Ok::<Components, EventFsError<Text>>(paths[0].path));
    if paths.len() == 2 {
        assert(paths[1].reason == found[1].0);
    }
}

/// A value whose mailbox is a stray one is shown nowhere: it is refused.
proof fn lemma_stray_mailbox_is_refused(path: JetStreamPath<Text>)
    requires
        stray_mailbox(path),
    ensures
        StorageFact::of(path) matches Some(fact) && visible(fact) is Err,
{
    if let JetStreamPath::StreamSubject { stream, subject } = path {
        let fact = StorageFact::StreamSubject { stream, subject: subject.0 };
        let found = places(fact);
        lemma_resolved(found);
        let last = found[found.len() - 1];
        if let Some((agent, area)) = mailbox_parts(subject.0) {
            assert(last.1 == (Place { fixed: seq!["agents"@, agent, area.name()], tail: None }));
            assert(bad_mount_component(last.1.fixed[1]));
            assert(storage_path(last.1) is Err);
        }
    }
}

/// The paths that show the value of a valid path are those of
/// [`law_native_path_is_shown_first`], and the path's own mount path is one of them.
pub proof fn law_value_of_a_path_is_shown_at_that_path(
    path: JetStreamPath<Text>,
    fact: StorageFact<Text>,
)
    requires
        path.valid(),
        StorageFact::of(path) == Some(fact),
        visible(fact) is Ok,
    ensures
        mounted(path) matches Ok(source) && lists_path(visible(fact)->Ok_0, source),
{
    if stray_mailbox(path) {
        lemma_stray_mailbox_is_refused(path);
    }
    law_path_shows_its_own_value(path);
}

/// Whether a path is the root, or a root directory that lists what it holds without
/// regard to single values.
pub open spec fn never_stale(path: Components) -> bool {
    path.len() == 0 || path == seq!["kv"@] || path == seq!["objects"@] || path == seq!["streams"@]
        || path == seq!["tasks"@] || path == seq!["semantic"@]
}

/// The path of a place of a value is no root directory.
#[verifier::spinoff_prover]
proof fn lemma_places_lie_below_root_directories(fact: StorageFact<Text>, i: int)
    requires
        0 <= i < places(fact).len(),
    ensures
        storage_path(places(fact)[i].1) matches Ok(path) ==> path.len() >= 2,
{
    match fact {
        StorageFact::Kv { bucket, key } => {
            lemma_split_pieces(key, '/');
            if let Some((agent, area, rest)) = agent_key_parts(key) {
                lemma_split_pieces(rest, '/');
            }
        },
        StorageFact::StreamSubject { stream, subject } => {
            lemma_split_pieces(stream + ".jsonl"@, '/');
        },
        StorageFact::Object { .. } => {},
    }
}

/// A path that shows a value is no root directory.
proof fn lemma_shown_path_is_below_a_root_directory(fact: StorageFact<Text>, i: int)
    requires
        visible(fact) is Ok,
        0 <= i < visible(fact)->Ok_0.len(),
    ensures
        visible(fact)->Ok_0[i].path.len() >= 2,
{
    let found = places(fact);
    let shown = visible(fact)->Ok_0;
    lemma_resolved(found);
    assert(comes_from_place(shown[i], found));
    let a = choose|a: int|
        0 <= a < found.len() && storage_path((#[trigger] found[a]).1) == Ok::<
            Components,
            EventFsError<Text>,
        >(shown[i].path) && found[a].0 == shown[i].reason;
    lemma_places_lie_below_root_directories(fact, a);
}

/// Among the paths that a change of a value makes stale no path is listed twice. Each
/// path that shows the value is there for its own reason. Every other one is there as an
/// ancestor, and lies above a path that shows the value. Neither the root nor `/kv`,
/// `/objects`, `/streams`, `/tasks` or `/semantic` is among them.
pub proof fn law_stale_paths_have_their_reasons(fact: StorageFact<Text>, i: int)
    requires
        visible(fact) is Ok,
    ensures
        stale(fact) matches Ok(all) && ({
            let shown = visible(fact)->Ok_0;
            &&& distinct(all)
            &&& 0 <= i < shown.len() ==> all.contains(shown[i])
            &&& 0 <= i < all.len() ==> !never_stale(all[i].path) && (shown.contains(all[i])
                || all[i].reason == AffectedPathReason::Ancestor && exists|k: int|
                0 <= k < shown.len() && descends((#[trigger] shown[k]).path, all[i].path))
        }),
{
    let shown = visible(fact)->Ok_0;
    let all = with_ancestors(shown);
    lemma_with_ancestors(shown, Components::empty());
    if 0 <= i < shown.len() {
        lemma_shown_paths_have_different_roots(fact, i, i);
        lemma_entry_in_stale(fact, i, shown[i]);
    }
    if 0 <= i < all.len() {
        let from = lemma_elements_with_ancestors(shown, i);
        let entry = shown[from];
        let above = ancestors(entry.path, entry.reason);
        lemma_shown_path_is_below_a_root_directory(fact, from);
        lemma_shown_paths_have_different_roots(fact, from, from);
        lemma_ancestors_are_distinct(entry);
        if above.contains(all[i]) {
            let m = choose|m: int| 0 <= m < above.len() && above[m] == all[i];
            assert(all[i].path == entry.path.take(entry.path.len() - 1 - m));
            assert(all[i].path.len() >= floor(entry.path, entry.reason));
            assert(all[i].path[0] == entry.path[0]);
            assert(descends(shown[from].path, all[i].path));
            lemma_root_names_differ();
        }
    }
}

} // verus!
