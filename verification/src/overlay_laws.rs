//! What the queued writes show as a whole: listings, versions and lines.

use vstd::prelude::*;

use crate::entries::{
    law_with_entry_lists_each_name_once, lemma_place_of_name, lists_file, lists_name, names_differ,
    place_after, place_of_name, with_entry, with_entry_in_order, Entry, EntryKind,
};
use crate::mount_paths::{descends, Components};
use crate::overlay::{
    child_of, in_order, law_sorting_keeps_entries_and_orders_them, lemma_place_after,
    queued_children, queued_entries, queued_lines, queued_version, reaches_any, sorted,
    with_children, Fact,
};
use crate::text::{law_text_order_is_strict_and_total, text_less, Text};

verus! {

// ---------------------------------------------------------------------------
// Listings
// ---------------------------------------------------------------------------

/// Whether one of the paths lies under the given name in a directory.
pub open spec fn lies_under(paths: Seq<Components>, directory: Components, name: Text) -> bool {
    exists|k: int|
        0 <= k < paths.len() && descends(#[trigger] paths[k], directory)
            && paths[k][directory.len() as int] == name
}

/// Whether a queued write makes a path visible that lies under the given name in a
/// directory.
pub open spec fn shown_under(facts: Seq<Fact>, directory: Components, name: Text) -> bool {
    exists|i: int| 0 <= i < facts.len() && lies_under((#[trigger] facts[i]).visible, directory, name)
}

/// Whether a queued write makes a path visible.
pub open spec fn shown(facts: Seq<Fact>, path: Components) -> bool {
    exists|i: int| 0 <= i < facts.len() && (#[trigger] facts[i]).visible.contains(path)
}

/// A file is listed once it was there or is added.
#[verifier::spinoff_prover]
#[verifier::rlimit(60)]
proof fn lemma_with_entry_files(entries: Seq<Entry>, entry: Entry, name: Text)
    ensures
        lists_file(with_entry(entries, entry), name) == (lists_file(entries, name) || (entry.name
            == name && entry.kind == EntryKind::File)),
{
    lemma_place_of_name(entries, entry.name);
    let at = place_of_name(entries, entry.name);
    let after = with_entry(entries, entry);
    if lists_file(entries, name) {
        let i = choose|i: int|
            0 <= i < entries.len() && (#[trigger] entries[i]).name == name && entries[i].kind
                == EntryKind::File;
        assert(after[i].name == name && after[i].kind == EntryKind::File);
    }
    if entry.name == name && entry.kind == EntryKind::File {
        assert(after[at].name == name && after[at].kind == EntryKind::File);
    }
    if lists_file(after, name) {
        let i = choose|i: int|
            0 <= i < after.len() && (#[trigger] after[i]).name == name && after[i].kind
                == EntryKind::File;
        if i < entries.len() && i != at {
            assert(entries[i] == after[i]);
        } else if at < entries.len() && entry.kind != EntryKind::File {
            assert(entries[i] == after[i]);
        }
    }
}

#[verifier::spinoff_prover]
#[verifier::rlimit(60)]
pub proof fn lemma_with_children(
    entries: Seq<Entry>,
    directory: Components,
    paths: Seq<Components>,
    name: Text,
)
    ensures
        names_differ(entries) ==> names_differ(with_children(entries, directory, paths)),
        lists_name(with_children(entries, directory, paths), name) == (lists_name(entries, name)
            || lies_under(paths, directory, name)),
        lists_file(with_children(entries, directory, paths), name) == (lists_file(entries, name)
            || paths.contains(directory.push(name))),
    decreases paths.len(),
{
    if paths.len() > 0 {
        let front = paths.drop_last();
        let last = paths.last();
        let before = with_children(entries, directory, front);
        let child = directory.push(name);
        lemma_with_children(entries, directory, front, name);
        assert(paths[paths.len() - 1] == last);
        if lies_under(front, directory, name) {
            let k = choose|k: int|
                0 <= k < front.len() && descends(#[trigger] front[k], directory)
                    && front[k][directory.len() as int] == name;
            assert(paths[k] == front[k]);
        }
        if lies_under(paths, directory, name) {
            let k = choose|k: int|
                0 <= k < paths.len() && descends(#[trigger] paths[k], directory)
                    && paths[k][directory.len() as int] == name;
            if k < front.len() {
                assert(paths[k] == front[k]);
            }
        }
        if front.contains(child) {
            let k = choose|k: int| 0 <= k < front.len() && front[k] == child;
            assert(paths[k] == child);
        }
        if paths.contains(child) && last != child {
            let k = choose|k: int| 0 <= k < paths.len() && paths[k] == child;
            assert(front[k] == child);
        }
        if let Some(entry) = child_of(directory, last) {
            law_with_entry_lists_each_name_once(before, entry, name);
            lemma_with_entry_files(before, entry, name);
            if last.len() == directory.len() + 1 && last[directory.len() as int] == name {
                assert(last =~= child);
            }
        }
        if last == child {
            assert(directory =~= child.take(directory.len() as int));
            assert(directory.is_prefix_of(child));
        }
    } else {
        assert(!paths.contains(directory.push(name)));
    }
}

#[verifier::spinoff_prover]
#[verifier::rlimit(60)]
proof fn lemma_queued_children(facts: Seq<Fact>, directory: Components, name: Text)
    ensures
        names_differ(queued_children(facts, directory)),
        lists_name(queued_children(facts, directory), name) == shown_under(facts, directory, name),
        lists_file(queued_children(facts, directory), name) == shown(facts, directory.push(name)),
    decreases facts.len(),
{
    if facts.len() > 0 {
        let front = facts.drop_last();
        let last = facts.last();
        let child = directory.push(name);
        lemma_queued_children(front, directory, name);
        lemma_with_children(queued_children(front, directory), directory, last.visible, name);
        assert(facts[facts.len() - 1] == last);
        if shown_under(front, directory, name) {
            let i = choose|i: int|
                0 <= i < front.len() && lies_under((#[trigger] front[i]).visible, directory, name);
            assert(facts[i] == front[i]);
        }
        if shown_under(facts, directory, name) {
            let i = choose|i: int|
                0 <= i < facts.len() && lies_under((#[trigger] facts[i]).visible, directory, name);
            if i < front.len() {
                assert(facts[i] == front[i]);
            }
        }
        if shown(front, child) {
            let i = choose|i: int| 0 <= i < front.len() && (#[trigger] front[i]).visible.contains(child);
            assert(facts[i] == front[i]);
        }
        if shown(facts, child) {
            let i = choose|i: int| 0 <= i < facts.len() && (#[trigger] facts[i]).visible.contains(child);
            if i < front.len() {
                assert(facts[i] == front[i]);
            }
        }
    }
}

/// Adding an entry somewhere in a list.
#[verifier::spinoff_prover]
#[verifier::rlimit(60)]
proof fn lemma_inserted(entries: Seq<Entry>, at: int, entry: Entry, name: Text)
    requires
        0 <= at <= entries.len(),
    ensures
        lists_name(entries.insert(at, entry), name) == (lists_name(entries, name) || entry.name
            == name),
        lists_file(entries.insert(at, entry), name) == (lists_file(entries, name) || (entry.name
            == name && entry.kind == EntryKind::File)),
        names_differ(entries) && !lists_name(entries, entry.name) ==> names_differ(
            entries.insert(at, entry),
        ),
{
    let after = entries.insert(at, entry);
    assert(after[at] == entry);
    assert forall|i: int| 0 <= i < entries.len() implies #[trigger] entries[i] == after[if i < at {
        i
    } else {
        i + 1
    }] by {}
    assert forall|i: int| 0 <= i < after.len() && i != at implies #[trigger] after[i] == entries[if i
        < at {
        i
    } else {
        i - 1
    }] by {}
    if lists_name(entries, name) {
        let i = choose|i: int| 0 <= i < entries.len() && (#[trigger] entries[i]).name == name;
        let k = if i < at { i } else { i + 1 };
        assert(after[k].name == name);
    }
    if lists_name(after, name) && entry.name != name {
        let i = choose|i: int| 0 <= i < after.len() && (#[trigger] after[i]).name == name;
        let k = if i < at { i } else { i - 1 };
        assert(entries[k].name == name);
    }
    if lists_file(entries, name) {
        let i = choose|i: int|
            0 <= i < entries.len() && (#[trigger] entries[i]).name == name && entries[i].kind
                == EntryKind::File;
        let k = if i < at { i } else { i + 1 };
        assert(after[k].name == name && after[k].kind == EntryKind::File);
    }
    if lists_file(after, name) && !(entry.name == name && entry.kind == EntryKind::File) {
        let i = choose|i: int|
            0 <= i < after.len() && (#[trigger] after[i]).name == name && after[i].kind
                == EntryKind::File;
        let k = if i < at { i } else { i - 1 };
        assert(entries[k].name == name && entries[k].kind == EntryKind::File);
    }
    if names_differ(entries) && !lists_name(entries, entry.name) {
        assert forall|i: int, j: int| 0 <= i < j < after.len() implies (#[trigger] after[i]).name
            != (#[trigger] after[j]).name by {
            let a = if i < at { i } else { i - 1 };
            let b = if j < at { j } else { j - 1 };
            if i == at {
                assert(entries[b].name != entry.name);
            } else if j == at {
                assert(entries[a].name != entry.name);
            } else {
                assert(entries[a].name != entries[b].name);
            }
        }
    }
}

#[verifier::spinoff_prover]
#[verifier::rlimit(60)]
proof fn lemma_sorted(entries: Seq<Entry>, name: Text)
    ensures
        lists_name(sorted(entries), name) == lists_name(entries, name),
        lists_file(sorted(entries), name) == lists_file(entries, name),
        names_differ(entries) ==> names_differ(sorted(entries)),
    decreases entries.len(),
{
    if entries.len() > 0 {
        let front = entries.drop_last();
        let last = entries.last();
        let before = sorted(front);
        lemma_sorted(front, name);
        lemma_sorted(front, last.name);
        lemma_place_after(before, last.name);
        lemma_inserted(before, place_after(before, last.name), last, name);
        lemma_inserted(front, front.len() as int, last, name);
        assert(front.insert(front.len() as int, last) =~= entries);
        if names_differ(entries) {
            assert forall|i: int, j: int| 0 <= i < j < front.len() implies (
            #[trigger] front[i]).name != (#[trigger] front[j]).name by {
                assert(front[i] == entries[i] && front[j] == entries[j]);
            }
            if lists_name(front, last.name) {
                let i = choose|i: int| 0 <= i < front.len() && (#[trigger] front[i]).name == last.name;
                assert(entries[i].name != entries[entries.len() - 1].name);
            }
        }
    }
}

/// The queued writes list a name in a directory exactly where they make a path visible
/// that lies under it, and list it as a file exactly where they make that very path
/// visible. Each name is listed once, and the names are in order.
pub proof fn law_queued_listings_show_the_queued_paths(
    facts: Seq<Fact>,
    directory: Components,
    name: Text,
)
    ensures
        names_differ(queued_entries(facts, directory)),
        in_order(queued_entries(facts, directory)),
        lists_name(queued_entries(facts, directory), name) == shown_under(facts, directory, name),
        lists_file(queued_entries(facts, directory), name) == shown(facts, directory.push(name)),
{
    lemma_queued_children(facts, directory, name);
    lemma_sorted(queued_children(facts, directory), name);
    law_sorting_keeps_entries_and_orders_them(queued_children(facts, directory));
}

/// An entry that is put in its place among entries in order leaves them in order, and
/// each name once.
#[verifier::spinoff_prover]
#[verifier::rlimit(60)]
pub proof fn law_entries_stay_in_order(entries: Seq<Entry>, entry: Entry, name: Text)
    requires
        in_order(entries),
        names_differ(entries),
    ensures
        in_order(with_entry_in_order(entries, entry)),
        names_differ(with_entry_in_order(entries, entry)),
        lists_name(with_entry_in_order(entries, entry), name) == (lists_name(entries, name) || name
            == entry.name),
{
    lemma_place_of_name(entries, entry.name);
    lemma_place_after(entries, entry.name);
    let found = place_of_name(entries, entry.name);
    let after = with_entry_in_order(entries, entry);
    if found < entries.len() {
        assert forall|i: int| 0 <= i < entries.len() implies (#[trigger] after[i]).name
            == entries[i].name by {}
        assert forall|i: int, j: int| 0 <= i < j < after.len() implies !text_less(
            (#[trigger] after[j]).name,
            (#[trigger] after[i]).name,
        ) && after[i].name != after[j].name by {
            assert(!text_less(entries[j].name, entries[i].name));
            assert(entries[i].name != entries[j].name);
        }
        if lists_name(entries, name) {
            let i = choose|i: int| 0 <= i < entries.len() && (#[trigger] entries[i]).name == name;
            assert(after[i].name == name);
        }
        if lists_name(after, name) {
            let i = choose|i: int| 0 <= i < after.len() && (#[trigger] after[i]).name == name;
            assert(entries[i].name == name);
        }
    } else {
        let at = place_after(entries, entry.name);
        lemma_inserted(entries, at, entry, name);
        assert forall|i: int, j: int| 0 <= i < j < after.len() implies !text_less(
            (#[trigger] after[j]).name,
            (#[trigger] after[i]).name,
        ) by {
            if i == at {
                let next = entries[at].name;
                let other = entries[j - 1].name;
                assert(after[j] == entries[j - 1]);
                law_text_order_is_strict_and_total(next, other, other);
                law_text_order_is_strict_and_total(other, entry.name, next);
                law_text_order_is_strict_and_total(entry.name, other, other);
                law_text_order_is_strict_and_total(entry.name, next, other);
            } else if j == at {
                assert(after[i] == entries[i]);
            } else {
                let a = if i < at { i } else { i - 1 };
                let b = if j < at { j } else { j - 1 };
                assert(after[i] == entries[a] && after[j] == entries[b]);
                assert(!text_less(entries[b].name, entries[a].name));
            }
        }
    }
}

// ---------------------------------------------------------------------------
// Versions and lines
// ---------------------------------------------------------------------------

/// The version that the queued writes give a path is that of one of the writes at or
/// below it, and none of those was modified later. There is one exactly where there is
/// such a write.
pub proof fn law_queued_version_is_the_latest(facts: Seq<Fact>, path: Components)
    ensures
        match queued_version(facts, path) {
            Some(version) => {
                &&& exists|i: int|
                    0 <= i < facts.len() && reaches_any((#[trigger] facts[i]).visible, path)
                        && facts[i].version == version
                &&& forall|i: int|
                    0 <= i < facts.len() && reaches_any((#[trigger] facts[i]).visible, path)
                        ==> facts[i].version.modified <= version.modified
            },
            None => forall|i: int|
                0 <= i < facts.len() ==> !reaches_any((#[trigger] facts[i]).visible, path),
        },
    decreases facts.len(),
{
    if facts.len() > 0 {
        let front = facts.drop_last();
        law_queued_version_is_the_latest(front, path);
        assert(facts[facts.len() - 1] == facts.last());
        assert forall|i: int| 0 <= i < front.len() implies #[trigger] facts[i] == front[i] by {}
        if let Some(version) = queued_version(front, path) {
            let i = choose|i: int|
                0 <= i < front.len() && reaches_any((#[trigger] front[i]).visible, path)
                    && front[i].version == version;
            assert(facts[i] == front[i]);
        }
    }
}

/// The queued lines for a path come in the order of the queue: those of the earlier
/// writes first, and none is lost.
pub proof fn law_queued_lines_keep_their_order(
    earlier: Seq<Fact>,
    later: Seq<Fact>,
    path: Components,
)
    ensures
        queued_lines(earlier + later, path) == queued_lines(earlier, path) + queued_lines(
            later,
            path,
        ),
    decreases later.len(),
{
    let both = earlier + later;
    if later.len() == 0 {
        assert(both =~= earlier);
        assert(queued_lines(earlier, path) + queued_lines(later, path) =~= queued_lines(
            earlier,
            path,
        ));
    } else {
        law_queued_lines_keep_their_order(earlier, later.drop_last(), path);
        assert(both.drop_last() =~= earlier + later.drop_last());
        assert(queued_lines(both, path) =~= queued_lines(earlier, path) + queued_lines(later, path));
    }
}

} // verus!
