//! In which order a change of what a path shows makes paths stale.

use vstd::prelude::*;

use crate::affected::{
    ancestors, floor, lists_path, mounted, place_of_path, places, prioritized, stale,
    stale_for_path, storage_path, visible, with_ancestors, with_path, with_paths, Affected,
    AffectedPath, AffectedPathReason, StorageFact,
};
use crate::affected_laws::{
    comes_from_place, distinct, law_path_shows_its_own_value, lemma_resolved, lemma_with_ancestors,
    lemma_with_path, lemma_with_paths, reaches, stray_mailbox,
};
use crate::errors::EventFsError;
use crate::mount_paths::{descends, Components};
use crate::path::JetStreamPath;
use crate::path_laws::{lemma_root_names_differ, lemma_valid_path_is_mounted};
use crate::text::Text;

verus! {

proof fn lemma_place_of_path(paths: Seq<Affected>, path: Components)
    requires
        lists_path(paths, path),
    ensures
        0 <= place_of_path(paths, path) < paths.len(),
        paths[place_of_path(paths, path)].path == path,
    decreases paths.len(),
{
    if paths[0].path != path {
        let rest = paths.drop_first();
        let i = choose|i: int| 0 <= i < paths.len() && (#[trigger] paths[i]).path == path;
        assert(rest[i - 1].path == path);
        lemma_place_of_path(rest, path);
        assert(rest[place_of_path(rest, path)] == paths[1 + place_of_path(rest, path)]);
    }
}

/// Every element of a list with more paths is one of the list or one of the others.
proof fn lemma_elements_with_paths(paths: Seq<Affected>, more: Seq<Affected>, i: int)
    requires
        0 <= i < with_paths(paths, more).len(),
    ensures
        paths.contains(with_paths(paths, more)[i]) || more.contains(with_paths(paths, more)[i]),
    decreases more.len(),
{
    if more.len() == 0 {
        assert(paths[i] == with_paths(paths, more)[i]);
    } else {
        let front = more.drop_last();
        let before = with_paths(paths, front);
        if i < before.len() {
            lemma_elements_with_paths(paths, front, i);
            if front.contains(before[i]) {
                let k = choose|k: int| 0 <= k < front.len() && front[k] == before[i];
                assert(more[k] == before[i]);
            }
        } else {
            assert(more[more.len() - 1] == with_paths(paths, more)[i]);
        }
    }
}

/// A list with more paths is the two lists one after the other, where nothing is listed
/// twice.
proof fn lemma_nothing_repeats(paths: Seq<Affected>, more: Seq<Affected>)
    requires
        distinct(paths + more),
    ensures
        with_paths(paths, more) == paths + more,
    decreases more.len(),
{
    if more.len() > 0 {
        let both = paths + more;
        let front = more.drop_last();
        let before = paths + front;
        assert forall|i: int, j: int| 0 <= i < j < before.len() implies (#[trigger] before[i]).path
            != (#[trigger] before[j]).path by {
            assert(both[i] == before[i]);
            assert(both[j] == before[j]);
        }
        lemma_nothing_repeats(paths, front);
        if lists_path(before, more.last().path) {
            let i = choose|i: int| 0 <= i < before.len() && (#[trigger] before[i]).path == more.last().path;
            assert(both[i] == before[i]);
            assert(both[both.len() - 1] == more.last());
        }
        assert(before.push(more.last()) =~= both);
    } else {
        assert(paths + more =~= paths);
    }
}

/// Each element of a list of paths and their ancestors is one of the paths, or an
/// ancestor of one of them.
pub proof fn lemma_elements_with_ancestors(paths: Seq<Affected>, k: int) -> (from: int)
    requires
        0 <= k < with_ancestors(paths).len(),
    ensures
        0 <= from < paths.len(),
        with_ancestors(paths)[k] == paths[from] || ancestors(
            paths[from].path,
            paths[from].reason,
        ).contains(with_ancestors(paths)[k]),
    decreases paths.len(),
{
    let front = paths.drop_last();
    let last = paths.last();
    let before = with_ancestors(front);
    let middle = with_path(before, last);
    let above = ancestors(last.path, last.reason);
    assert(paths[paths.len() - 1] == last);
    lemma_with_path(before, last, last.path);
    lemma_with_paths(middle, above, last.path);
    if k < before.len() {
        assert(before[k] == middle[k]);
        let from = lemma_elements_with_ancestors(front, k);
        assert(front[from] == paths[from]);
        from
    } else {
        if k < middle.len() {
            assert(middle[k] == last);
        } else {
            lemma_elements_with_paths(middle, above, k);
            let found = with_paths(middle, above)[k];
            if middle.contains(found) {
                let m = choose|m: int| 0 <= m < middle.len() && middle[m] == found;
                assert(with_paths(middle, above)[m] == found);
                lemma_with_ancestors(paths, last.path);
            }
        }
        paths.len() - 1
    }
}

/// Two lists that list no path twice and hold the same elements hold each as often.
proof fn lemma_same_elements(left: Seq<Affected>, right: Seq<Affected>)
    requires
        distinct(left),
        distinct(right),
        forall|i: int| 0 <= i < left.len() ==> right.contains(#[trigger] left[i]),
        forall|i: int| 0 <= i < right.len() ==> left.contains(#[trigger] right[i]),
    ensures
        left.to_multiset() == right.to_multiset(),
{
    assert forall|i: int, j: int| 0 <= i < left.len() && 0 <= j < left.len() && i != j implies left[i]
        != left[j] by {
        if i < j {
            assert(left[i].path != left[j].path);
        } else {
            assert(left[j].path != left[i].path);
        }
    }
    assert forall|i: int, j: int| 0 <= i < right.len() && 0 <= j < right.len() && i != j implies right[i]
        != right[j] by {
        if i < j {
            assert(right[i].path != right[j].path);
        } else {
            assert(right[j].path != right[i].path);
        }
    }
    left.lemma_multiset_has_no_duplicates();
    right.lemma_multiset_has_no_duplicates();
    left.to_multiset_ensures();
    right.to_multiset_ensures();
    assert forall|x: Affected| #[trigger] left.to_multiset().count(x) == right.to_multiset().count(x) by {
        assert(left.contains(x) == right.contains(x)) by {
            if left.contains(x) {
                let i = choose|i: int| 0 <= i < left.len() && left[i] == x;
                assert(right.contains(left[i]));
            }
            if right.contains(x) {
                let i = choose|i: int| 0 <= i < right.len() && right[i] == x;
                assert(left.contains(right[i]));
            }
        }
        assert(left.to_multiset().contains(x) == left.contains(x));
        assert(right.to_multiset().contains(x) == right.contains(x));
    }
    assert(left.to_multiset() =~= right.to_multiset());
}

/// Lists that hold the same elements list the same paths.
proof fn lemma_same_paths(left: Seq<Affected>, right: Seq<Affected>, path: Components)
    requires
        left.to_multiset() == right.to_multiset(),
    ensures
        lists_path(left, path) == lists_path(right, path),
{
    left.to_multiset_ensures();
    right.to_multiset_ensures();
    if lists_path(left, path) {
        let i = choose|i: int| 0 <= i < left.len() && (#[trigger] left[i]).path == path;
        assert(left.contains(left[i]));
        assert(right.to_multiset().count(left[i]) > 0);
        let k = choose|k: int| 0 <= k < right.len() && right[k] == left[i];
        assert(right[k].path == path);
    }
    if lists_path(right, path) {
        let i = choose|i: int| 0 <= i < right.len() && (#[trigger] right[i]).path == path;
        assert(right.contains(right[i]));
        assert(left.to_multiset().count(right[i]) > 0);
        let k = choose|k: int| 0 <= k < left.len() && left[k] == right[i];
        assert(left[k].path == path);
    }
}

/// The places of a value lie under different roots of the mount.
#[verifier::spinoff_prover]
pub proof fn lemma_places_have_different_roots(fact: StorageFact<Text>, i: int, j: int)
    requires
        0 <= i < places(fact).len(),
        0 <= j < places(fact).len(),
    ensures
        places(fact)[i].1.fixed.len() > 0,
        i != j ==> places(fact)[i].1.fixed[0] != places(fact)[j].1.fixed[0],
{
    lemma_root_names_differ();
}

/// The path of a place begins with the place's first component.
proof fn lemma_place_root(fact: StorageFact<Text>, i: int)
    requires
        0 <= i < places(fact).len(),
        places(fact)[i].1.fixed.len() > 0,
    ensures
        storage_path(places(fact)[i].1) matches Ok(path) ==> path.len() > 0 && path[0]
            == places(fact)[i].1.fixed[0],
{
}

/// The paths that show a value lie under different roots of the mount.
pub proof fn lemma_shown_paths_have_different_roots(fact: StorageFact<Text>, i: int, j: int)
    requires
        visible(fact) is Ok,
        0 <= i < visible(fact)->Ok_0.len(),
        0 <= j < visible(fact)->Ok_0.len(),
    ensures
        visible(fact)->Ok_0[i].path.len() > 0,
        i != j ==> visible(fact)->Ok_0[i].path[0] != visible(fact)->Ok_0[j].path[0],
{
    let found = places(fact);
    let shown = visible(fact)->Ok_0;
    lemma_resolved(found);
    assert(comes_from_place(shown[i], found));
    assert(comes_from_place(shown[j], found));
    let a = choose|a: int|
        0 <= a < found.len() && storage_path((#[trigger] found[a]).1) == Ok::<
            Components,
            EventFsError<Text>,
        >(shown[i].path) && found[a].0 == shown[i].reason;
    let b = choose|b: int|
        0 <= b < found.len() && storage_path((#[trigger] found[b]).1) == Ok::<
            Components,
            EventFsError<Text>,
        >(shown[j].path) && found[b].0 == shown[j].reason;
    lemma_places_have_different_roots(fact, a, b);
    lemma_places_have_different_roots(fact, b, a);
    lemma_place_root(fact, a);
    lemma_place_root(fact, b);
    if i != j {
        assert(shown[i].path != shown[j].path) by {
            if i < j {
                assert(shown[i].path != shown[j].path);
            } else {
                assert(shown[j].path != shown[i].path);
            }
        }
    }
}

/// The ancestors of a path differ from each other and from the path, and the path lies
/// below each of them.
pub proof fn lemma_ancestors_are_distinct(first: Affected)
    ensures
        distinct(seq![first] + ancestors(first.path, first.reason)),
        forall|k: int|
            0 <= k < ancestors(first.path, first.reason).len() ==> (#[trigger] ancestors(
                first.path,
                first.reason,
            )[k]).reason == AffectedPathReason::Ancestor && descends(
                first.path,
                ancestors(first.path, first.reason)[k].path,
            ),
{
    let above = ancestors(first.path, first.reason);
    let both = seq![first] + above;
    assert forall|k: int| 0 <= k < above.len() implies (#[trigger] above[k]).reason
        == AffectedPathReason::Ancestor && descends(first.path, above[k].path) && above[k].path.len()
        == first.path.len() - 1 - k by {}
    assert forall|i: int, j: int| 0 <= i < j < both.len() implies (#[trigger] both[i]).path != (
    #[trigger] both[j]).path by {
        assert(both[j] == above[j - 1]);
        if i > 0 {
            assert(both[i] == above[i - 1]);
        }
    }
}

/// The entry of a path that shows a value, and those of its ancestors, among all the
/// paths that a change of the value makes stale.
pub proof fn lemma_entry_in_stale(fact: StorageFact<Text>, at: int, entry: Affected)
    requires
        visible(fact) is Ok,
        0 <= at < visible(fact)->Ok_0.len(),
        entry == visible(fact)->Ok_0[at] || ancestors(
            visible(fact)->Ok_0[at].path,
            visible(fact)->Ok_0[at].reason,
        ).contains(entry),
        entry.path.len() > 0,
    ensures
        with_ancestors(visible(fact)->Ok_0).contains(entry),
{
    let shown = visible(fact)->Ok_0;
    let all = with_ancestors(shown);
    let above = ancestors(shown[at].path, shown[at].reason);
    lemma_ancestors_are_distinct(shown[at]);
    lemma_with_ancestors(shown, entry.path);
    if above.contains(entry) {
        let m = choose|m: int| 0 <= m < above.len() && above[m] == entry;
        assert(above[m].path == entry.path);
    }
    assert(reaches(shown, entry.path));
    let k = choose|k: int| 0 <= k < all.len() && (#[trigger] all[k]).path == entry.path;
    let from = lemma_elements_with_ancestors(shown, k);
    lemma_ancestors_are_distinct(shown[from]);
    let theirs = ancestors(shown[from].path, shown[from].reason);
    if theirs.contains(all[k]) {
        let n = choose|n: int| 0 <= n < theirs.len() && theirs[n] == all[k];
        assert(descends(shown[from].path, theirs[n].path));
        assert(shown[from].path[0] == entry.path[0]);
    }
    if above.contains(entry) {
        let m = choose|m: int| 0 <= m < above.len() && above[m] == entry;
        assert(descends(shown[at].path, above[m].path));
        assert(shown[at].path[0] == entry.path[0]);
    }
    lemma_shown_paths_have_different_roots(fact, at, from);
    assert(at == from);
    assert(all[k] == entry);
}

/// No ancestor of a path that shows a value is the root.
proof fn lemma_ancestors_are_below_the_root(fact: StorageFact<Text>, at: int, k: int)
    requires
        visible(fact) is Ok,
        0 <= at < visible(fact)->Ok_0.len(),
        0 <= k < ancestors(visible(fact)->Ok_0[at].path, visible(fact)->Ok_0[at].reason).len(),
    ensures
        ancestors(visible(fact)->Ok_0[at].path, visible(fact)->Ok_0[at].reason)[k].path.len() > 0,
{
    let shown = visible(fact)->Ok_0[at];
    lemma_shown_paths_have_different_roots(fact, at, at);
    assert(floor(shown.path, shown.reason) > 0);
}

/// What a list holds with one of its paths, and that path's ancestors, moved to the
/// front.
proof fn lemma_prioritized(fact: StorageFact<Text>, source: Components)
    requires
        visible(fact) is Ok,
        lists_path(visible(fact)->Ok_0, source),
    ensures
        ({
            let shown = visible(fact)->Ok_0;
            let all = with_ancestors(shown);
            let paths = prioritized(all, source);
            let above = ancestors(source, paths[0].reason);
            &&& paths.len() > above.len()
            &&& paths[0].path == source
            &&& shown.contains(paths[0])
            &&& paths.subrange(1, 1 + above.len() as int) == above
            &&& distinct(paths)
            &&& paths.to_multiset() == all.to_multiset()
        }),
{
    let shown = visible(fact)->Ok_0;
    let all = with_ancestors(shown);
    let paths = prioritized(all, source);
    let at = choose|at: int| 0 <= at < shown.len() && (#[trigger] shown[at]).path == source;
    let first = shown[at];
    let above = ancestors(source, first.reason);
    let front = seq![first] + above;
    lemma_shown_paths_have_different_roots(fact, at, at);
    lemma_entry_in_stale(fact, at, first);
    lemma_with_ancestors(shown, source);
    let k = choose|k: int| 0 <= k < all.len() && all[k] == first;
    assert(all[k].path == source);
    lemma_place_of_path(all, source);
    let found = place_of_path(all, source);
    assert(found == k) by {
        if found < k {
            assert(all[found].path != all[k].path);
        } else if k < found {
            assert(all[k].path != all[found].path);
        }
    }
    lemma_ancestors_are_distinct(first);
    lemma_nothing_repeats(seq![first], above);
    assert(paths == with_paths(front, all));
    lemma_with_paths(front, all, source);
    assert(paths[0] == front[0]);
    assert(shown.contains(paths[0]));
    assert(paths.subrange(1, 1 + above.len() as int) =~= above) by {
        assert forall|m: int| 0 <= m < above.len() implies paths[m + 1] == above[m] by {
            assert(front[m + 1] == above[m]);
            assert(paths[m + 1] == front[m + 1]);
        }
    }
    assert forall|i: int| 0 <= i < paths.len() implies all.contains(#[trigger] paths[i]) by {
        lemma_elements_with_paths(front, all, i);
        if front.contains(paths[i]) {
            let m = choose|m: int| 0 <= m < front.len() && front[m] == paths[i];
            if m > 0 {
                assert(above[m - 1] == paths[i]);
                assert(above.contains(paths[i]));
                lemma_ancestors_are_below_the_root(fact, at, m - 1);
            }
            lemma_entry_in_stale(fact, at, paths[i]);
        }
    }
    assert forall|i: int| 0 <= i < all.len() implies paths.contains(#[trigger] all[i]) by {
        lemma_with_paths(front, all, all[i].path);
        assert(lists_path(all, all[i].path));
        let m = choose|m: int| 0 <= m < paths.len() && (#[trigger] paths[m]).path == all[i].path;
        assert(all.contains(paths[m]));
        let n = choose|n: int| 0 <= n < all.len() && all[n] == paths[m];
        if n < i {
            assert(all[n].path != all[i].path);
        } else if i < n {
            assert(all[i].path != all[n].path);
        }
        assert(paths[m] == all[i]);
    }
    lemma_same_elements(paths, all);
}

/// A change of what a path shows makes that path stale before all others, its ancestors
/// right behind it, and no path twice.
///
/// Where the path shows a value, the list is that of the value in another order: what is
/// stale is what shows the value and its ancestors, each as often and for the same
/// reason, and nothing else. Where it shows none, all that follows the path are its
/// ancestors.
///
/// Left out are the subjects of the mailbox stream whose agent holds a slash: for those
/// the change is refused.
pub proof fn law_changed_path_comes_first(path: JetStreamPath<Text>, other: Components)
    requires
        path.valid(),
        !stray_mailbox(path),
    ensures
        mounted(path) is Ok,
        stale_for_path(path) matches Ok(paths) && ({
            let source = mounted(path)->Ok_0;
            let above = ancestors(source, paths[0].reason);
            &&& paths.len() > above.len()
            &&& paths[0].path == source
            &&& paths.subrange(1, 1 + above.len() as int) == above
            &&& distinct(paths)
            &&& match StorageFact::of(path) {
                Some(fact) => {
                    &&& visible(fact) matches Ok(shown) && shown.contains(paths[0]) && lists_path(
                        paths,
                        other,
                    ) == reaches(shown, other)
                    &&& stale(fact) matches Ok(all) && paths.to_multiset() == all.to_multiset()
                },
                None => {
                    &&& paths[0].reason == AffectedPathReason::Exact
                    &&& paths.len() == 1 + above.len()
                    &&& forall|k: int|
                        1 <= k < paths.len() ==> (#[trigger] paths[k]).reason
                            == AffectedPathReason::Ancestor && descends(source, paths[k].path)
                },
            }
        }),
{
    lemma_valid_path_is_mounted(path);
    let source = mounted(path)->Ok_0;
    match StorageFact::of(path) {
        Some(fact) => {
            law_path_shows_its_own_value(path);
            let shown = visible(fact)->Ok_0;
            let all = with_ancestors(shown);
            let paths = prioritized(all, source);
            lemma_prioritized(fact, source);
            lemma_with_ancestors(shown, other);
            lemma_same_paths(paths, all, other);
        },
        None => {
            let only = AffectedPath { path: source, reason: AffectedPathReason::Exact };
            let above = ancestors(source, AffectedPathReason::Exact);
            lemma_ancestors_are_distinct(only);
            lemma_nothing_repeats(seq![only], above);
            let paths = seq![only] + above;
            assert(paths.subrange(1, 1 + above.len() as int) =~= above);
            assert forall|k: int| 1 <= k < paths.len() implies (#[trigger] paths[k]).reason
                == AffectedPathReason::Ancestor && descends(source, paths[k].path) by {
                assert(paths[k] == above[k - 1]);
            }
        },
    }
}

/// Two paths that show one value make the same paths stale, each in an order of its own.
pub proof fn law_aliases_make_the_same_paths_stale(
    left: JetStreamPath<Text>,
    right: JetStreamPath<Text>,
)
    requires
        left.valid(),
        right.valid(),
        !stray_mailbox(left),
        !stray_mailbox(right),
        StorageFact::of(left) is Some,
        StorageFact::of(left) == StorageFact::of(right),
    ensures
        stale_for_path(left) matches Ok(one) && (stale_for_path(right) matches Ok(other)
            && one.to_multiset() == other.to_multiset()),
{
    law_changed_path_comes_first(left, Components::empty());
    law_changed_path_comes_first(right, Components::empty());
}

} // verus!
