//! The entries of directories, and how lists of them are put together.

use vstd::prelude::*;

use crate::numbers::{parse_number, read_number};
use crate::text::{
    concat2, precedes, same_text, string_texts, strip_suffix, text_less, without_suffix, Text,
};

verus! {

/// Whether an entry is a directory.
#[derive(Clone, Copy, Debug, PartialEq, Eq, Structural)]
pub enum EntryKind {
    Directory,
    File,
}

/// An entry of a directory. `S` is `String` in executable code and [`Text`] in
/// contracts.
#[derive(Debug, PartialEq, Eq)]
pub struct DirectoryEntry<S = String> {
    pub name: S,
    pub kind: EntryKind,
}

impl View for DirectoryEntry<String> {
    type V = Entry;

    open spec fn view(&self) -> Entry {
        DirectoryEntry { name: self.name@, kind: self.kind }
    }
}

impl Clone for DirectoryEntry<String> {
    fn clone(&self) -> (copy: Self)
        ensures
            copy@ == self@,
    {
        DirectoryEntry { name: self.name.clone(), kind: self.kind }
    }
}

/// The model of an entry.
pub type Entry = DirectoryEntry<Text>;

/// The models of the entries of a directory.
pub open spec fn listing(entries: Seq<DirectoryEntry>) -> Seq<Entry> {
    entries.map_values(|entry: DirectoryEntry| entry@)
}

/// The first place of a name in a list: its length where the name is not there.
pub open spec fn place_of_name(entries: Seq<Entry>, name: Text) -> int
    decreases entries.len(),
{
    if entries.len() == 0 || entries[0].name == name {
        0
    } else {
        1 + place_of_name(entries.drop_first(), name)
    }
}

/// Whether a list has an entry of the given name.
pub open spec fn lists_name(entries: Seq<Entry>, name: Text) -> bool {
    exists|i: int| 0 <= i < entries.len() && (#[trigger] entries[i]).name == name
}

/// The list with one entry at its end. Where the name is there already, its first
/// entry stays in place, and becomes a file if the new one is a file.
pub open spec fn with_entry(entries: Seq<Entry>, entry: Entry) -> Seq<Entry> {
    let at = place_of_name(entries, entry.name);
    if at < entries.len() {
        if entry.kind == EntryKind::File {
            entries.update(at, DirectoryEntry { name: entry.name, kind: EntryKind::File })
        } else {
            entries
        }
    } else {
        entries.push(entry)
    }
}

/// The first place whose name comes after the given one: the end where there is
/// none.
pub open spec fn place_after(entries: Seq<Entry>, name: Text) -> int
    decreases entries.len(),
{
    if entries.len() == 0 || text_less(name, entries[0].name) {
        0
    } else {
        1 + place_after(entries.drop_first(), name)
    }
}

/// The list with one entry before the first name that comes after it. Where the name
/// is there already, its first entry stays in place, and becomes a directory if the
/// new one is a directory.
pub open spec fn with_entry_in_order(entries: Seq<Entry>, entry: Entry) -> Seq<Entry> {
    let at = place_of_name(entries, entry.name);
    if at < entries.len() {
        if entry.kind == EntryKind::Directory {
            entries.update(at, DirectoryEntry { name: entry.name, kind: EntryKind::Directory })
        } else {
            entries
        }
    } else {
        entries.insert(place_after(entries, entry.name), entry)
    }
}

/// Whether a list has a file of the given name.
pub open spec fn lists_file(entries: Seq<Entry>, name: Text) -> bool {
    exists|i: int|
        0 <= i < entries.len() && (#[trigger] entries[i]).name == name && entries[i].kind
            == EntryKind::File
}

/// The list without the entries of a name.
pub open spec fn without_name(entries: Seq<Entry>, name: Text) -> Seq<Entry>
    decreases entries.len(),
{
    if entries.len() == 0 {
        entries
    } else if entries.last().name == name {
        without_name(entries.drop_last(), name)
    } else {
        without_name(entries.drop_last(), name).push(entries.last())
    }
}

/// The sequence number of a message file: none for other entries.
pub open spec fn sequence_of(entry: Entry) -> Option<u64> {
    if entry.kind == EntryKind::File {
        match strip_suffix(entry.name, ".json"@) {
            Some(stem) => parse_number(stem),
            None => None,
        }
    } else {
        None
    }
}

/// Directories of the given names.
pub open spec fn directories_of(names: Seq<Text>) -> Seq<Entry> {
    names.map_values(|name: Text| DirectoryEntry { name, kind: EntryKind::Directory })
}

/// Event logs of the given streams.
pub open spec fn event_logs_of(streams: Seq<Text>) -> Seq<Entry> {
    streams.map_values(
        |stream: Text| DirectoryEntry { name: stream + ".jsonl"@, kind: EntryKind::File },
    )
}

// ---------------------------------------------------------------------------
// Laws
// ---------------------------------------------------------------------------

/// Where a name is, the first place of it is in the list and holds it.
pub proof fn lemma_place_of_name(entries: Seq<Entry>, name: Text)
    ensures
        0 <= place_of_name(entries, name) <= entries.len(),
        lists_name(entries, name) == (place_of_name(entries, name) < entries.len()),
        place_of_name(entries, name) < entries.len() ==> entries[place_of_name(entries, name)].name
            == name,
        forall|i: int|
            0 <= i < place_of_name(entries, name) ==> (#[trigger] entries[i]).name != name,
    decreases entries.len(),
{
    if entries.len() > 0 && entries[0].name != name {
        let rest = entries.drop_first();
        lemma_place_of_name(rest, name);
        assert forall|i: int| 0 <= i < place_of_name(entries, name) implies (
        #[trigger] entries[i]).name != name by {
            if i > 0 {
                assert(entries[i] == rest[i - 1]);
            }
        }
        if place_of_name(rest, name) < rest.len() {
            assert(rest[place_of_name(rest, name)] == entries[place_of_name(rest, name) + 1]);
        }
        if lists_name(entries, name) {
            let i = choose|i: int| 0 <= i < entries.len() && (#[trigger] entries[i]).name == name;
            assert(rest[i - 1].name == name);
        }
    } else if entries.len() > 0 {
        assert(entries[0].name == name);
    }
}

/// Whether no name occurs twice.
pub open spec fn names_differ(entries: Seq<Entry>) -> bool {
    forall|i: int, j: int|
        0 <= i < j < entries.len() ==> (#[trigger] entries[i]).name != (#[trigger] entries[j]).name
}

/// Adding an entry at the end keeps every name that was there and lists the new name.
/// Where the names differed, they still do.
pub proof fn law_with_entry_lists_each_name_once(entries: Seq<Entry>, entry: Entry, name: Text)
    ensures
        names_differ(entries) ==> names_differ(with_entry(entries, entry)),
        lists_name(with_entry(entries, entry), name) == (lists_name(entries, name) || name
            == entry.name),
{
    lemma_place_of_name(entries, entry.name);
    let at = place_of_name(entries, entry.name);
    let after = with_entry(entries, entry);
    if at < entries.len() {
        if names_differ(entries) {
            assert forall|i: int, j: int| 0 <= i < j < after.len() implies (
            #[trigger] after[i]).name != (#[trigger] after[j]).name by {
                assert(after[i].name == entries[i].name);
                assert(after[j].name == entries[j].name);
            }
        }
        lemma_same_names(entries, after, name);
    } else {
        assert(after[entries.len() as int] == entry);
        if names_differ(entries) {
            assert forall|i: int, j: int| 0 <= i < j < after.len() implies (
            #[trigger] after[i]).name != (#[trigger] after[j]).name by {
                assert(after[i] == entries[i]);
                if j < entries.len() {
                    assert(after[j] == entries[j]);
                }
            }
        }
        if lists_name(entries, name) {
            let i = choose|i: int| 0 <= i < entries.len() && (#[trigger] entries[i]).name == name;
            assert(after[i].name == name);
        }
        if lists_name(after, name) {
            let i = choose|i: int| 0 <= i < after.len() && (#[trigger] after[i]).name == name;
            if i < entries.len() {
                assert(entries[i].name == name);
            }
        }
    }
}

proof fn lemma_same_names(before: Seq<Entry>, after: Seq<Entry>, name: Text)
    requires
        before.len() == after.len(),
        forall|i: int| 0 <= i < before.len() ==> (#[trigger] before[i]).name == after[i].name,
    ensures
        lists_name(before, name) == lists_name(after, name),
{
    if lists_name(before, name) {
        let i = choose|i: int| 0 <= i < before.len() && (#[trigger] before[i]).name == name;
        assert(after[i].name == name);
    }
    if lists_name(after, name) {
        let i = choose|i: int| 0 <= i < after.len() && (#[trigger] after[i]).name == name;
        assert(before[i].name == name);
    }
}

/// Removing a name removes every entry of it, and no other entry.
pub proof fn law_without_name_removes_only_that_name(
    entries: Seq<Entry>,
    name: Text,
    other: Text,
)
    ensures
        lists_name(without_name(entries, name), other) == (lists_name(entries, other) && other
            != name),
    decreases entries.len(),
{
    if entries.len() > 0 {
        let front = entries.drop_last();
        let last = entries.last();
        law_without_name_removes_only_that_name(front, name, other);
        let kept = without_name(front, name);
        let after = without_name(entries, name);
        assert(entries[entries.len() - 1] == last);
        if lists_name(front, other) {
            let i = choose|i: int| 0 <= i < front.len() && (#[trigger] front[i]).name == other;
            assert(entries[i].name == other);
        }
        if lists_name(entries, other) && !lists_name(front, other) {
            let i = choose|i: int| 0 <= i < entries.len() && (#[trigger] entries[i]).name == other;
            if i < front.len() {
                assert(front[i].name == other);
            }
        }
        if last.name != name {
            assert(after == kept.push(last));
            assert(after[kept.len() as int] == last);
            if lists_name(kept, other) {
                let i = choose|i: int| 0 <= i < kept.len() && (#[trigger] kept[i]).name == other;
                assert(after[i].name == other);
            }
            if lists_name(after, other) {
                let i = choose|i: int| 0 <= i < after.len() && (#[trigger] after[i]).name == other;
                if i < kept.len() {
                    assert(kept[i].name == other);
                }
            }
        }
    }
}

// ---------------------------------------------------------------------------
// Building lists
// ---------------------------------------------------------------------------

/// Directories of the given names.
pub fn names_as_dirs(names: Vec<String>) -> (entries: Vec<DirectoryEntry>)
    ensures
        listing(entries@) == directories_of(string_texts(names@)),
{
    let mut entries: Vec<DirectoryEntry> = Vec::new();
    let mut i: usize = 0;
    while i < names.len()
        invariant
            i <= names.len(),
            entries.len() == i,
            forall|k: int|
                0 <= k < i ==> (#[trigger] entries[k])@ == (DirectoryEntry {
                    name: names[k]@,
                    kind: EntryKind::Directory,
                }),
        decreases names.len() - i,
    {
        entries.push(DirectoryEntry { name: names[i].clone(), kind: EntryKind::Directory });
        i += 1;
    }
    assert(listing(entries@) =~= directories_of(string_texts(names@)));
    entries
}

/// Event logs of the given streams.
pub fn names_as_event_files(names: Vec<String>) -> (entries: Vec<DirectoryEntry>)
    ensures
        listing(entries@) == event_logs_of(string_texts(names@)),
{
    let mut entries: Vec<DirectoryEntry> = Vec::new();
    let mut i: usize = 0;
    while i < names.len()
        invariant
            i <= names.len(),
            entries.len() == i,
            forall|k: int|
                0 <= k < i ==> (#[trigger] entries[k])@ == (DirectoryEntry {
                    name: names[k]@ + ".jsonl"@,
                    kind: EntryKind::File,
                }),
        decreases names.len() - i,
    {
        let name = concat2(names[i].as_str(), ".jsonl");
        entries.push(DirectoryEntry { name, kind: EntryKind::File });
        i += 1;
    }
    assert(listing(entries@) =~= event_logs_of(string_texts(names@)));
    entries
}

/// The first place of a name in a list, if it is there.
fn find_name(entries: &Vec<DirectoryEntry>, name: &str) -> (at: Option<usize>)
    ensures
        match at {
            Some(at) => at < entries.len() && at == place_of_name(listing(entries@), name@),
            None => place_of_name(listing(entries@), name@) == entries.len(),
        },
{
    let ghost models = listing(entries@);
    let mut i: usize = 0;
    assert(models.skip(0) =~= models);
    while i < entries.len()
        invariant
            i <= entries.len(),
            models == listing(entries@),
            place_of_name(models, name@) == i + place_of_name(models.skip(i as int), name@),
        decreases entries.len() - i,
    {
        assert(models.skip(i as int)[0] == entries@[i as int]@);
        if same_text(entries[i].name.as_str(), name) {
            return Some(i);
        }
        assert(models.skip(i as int).drop_first() =~= models.skip(i + 1));
        i += 1;
    }
    None
}

/// Adds an entry at the end of a list. Where the name is there already, its first
/// entry stays in place, and becomes a file if the new one is a file.
pub fn insert_directory_entry(entries: &mut Vec<DirectoryEntry>, entry: DirectoryEntry)
    ensures
        listing(final(entries)@) == with_entry(listing(old(entries)@), entry@),
{
    let ghost before = entries@;
    match find_name(entries, entry.name.as_str()) {
        Some(at) => {
            if matches!(entry.kind, EntryKind::File) {
                entries.set(at, DirectoryEntry { name: entry.name, kind: EntryKind::File });
            }
            assert(listing(entries@) =~= with_entry(listing(before), entry@));
        },
        None => {
            entries.push(entry);
            assert(listing(entries@) =~= listing(before).push(entry@));
        },
    }
}

/// Adds an entry before the first name that comes after it. Where the name is there
/// already, its first entry stays in place, and becomes a directory if the new one is
/// a directory.
pub fn insert_directory_entry_sorted(entries: &mut Vec<DirectoryEntry>, entry: DirectoryEntry)
    ensures
        listing(final(entries)@) == with_entry_in_order(listing(old(entries)@), entry@),
{
    let ghost before = entries@;
    let ghost models = listing(entries@);
    match find_name(entries, entry.name.as_str()) {
        Some(at) => {
            if matches!(entry.kind, EntryKind::Directory) {
                entries.set(at, DirectoryEntry { name: entry.name, kind: EntryKind::Directory });
            }
            assert(listing(entries@) =~= with_entry_in_order(listing(before), entry@));
        },
        None => {
            let mut at: usize = 0;
            assert(models.skip(0) =~= models);
            while at < entries.len() && !precedes(entry.name.as_str(), entries[at].name.as_str())
                invariant
                    at <= entries.len(),
                    entries@ == before,
                    models == listing(entries@),
                    place_after(models, entry.name@) == at + place_after(
                        models.skip(at as int),
                        entry.name@,
                    ),
                decreases entries.len() - at,
            {
                assert(models.skip(at as int)[0] == entries@[at as int]@);
                assert(models.skip(at as int).drop_first() =~= models.skip(at + 1));
                at += 1;
            }
            if at < entries.len() {
                assert(models.skip(at as int)[0] == entries@[at as int]@);
            }
            entries.insert(at, entry);
            assert(listing(entries@) =~= models.insert(at as int, entry@));
        },
    }
}

/// Whether a list has a file of the given name.
pub fn directory_entries_contain_exact_file(entries: &[DirectoryEntry], name: &str) -> (found: bool)
    ensures
        found == lists_file(listing(entries@), name@),
{
    let ghost models = listing(entries@);
    let mut i: usize = 0;
    while i < entries.len()
        invariant
            i <= entries.len(),
            models == listing(entries@),
            forall|k: int|
                0 <= k < i ==> !((#[trigger] models[k]).name == name@ && models[k].kind
                    == EntryKind::File),
        decreases entries.len() - i,
    {
        assert(models[i as int] == entries@[i as int]@);
        if matches!(entries[i].kind, EntryKind::File) && same_text(entries[i].name.as_str(), name) {
            return true;
        }
        i += 1;
    }
    false
}

/// Removes the entries of a name.
pub fn remove_directory_entry(entries: &mut Vec<DirectoryEntry>, name: &str)
    ensures
        listing(final(entries)@) == without_name(listing(old(entries)@), name@),
{
    let ghost models = listing(entries@);
    let mut kept: Vec<DirectoryEntry> = Vec::new();
    let mut i: usize = 0;
    assert(models.take(0) =~= Seq::empty());
    assert(listing(kept@) =~= Seq::empty());
    while i < entries.len()
        invariant
            i <= entries.len(),
            models == listing(entries@),
            listing(kept@) == without_name(models.take(i as int), name@),
        decreases entries.len() - i,
    {
        let ghost upto = models.take(i + 1);
        assert(upto.drop_last() =~= models.take(i as int));
        assert(upto.last() == entries@[i as int]@);
        if !same_text(entries[i].name.as_str(), name) {
            let ghost before = kept@;
            kept.push(entries[i].clone());
            assert(listing(kept@) =~= listing(before).push(entries@[i as int]@));
        }
        i += 1;
    }
    assert(models.take(models.len() as int) =~= models);
    *entries = kept;
}

/// The sequence number of a message file: none for other entries.
pub fn message_sequence(entry: &DirectoryEntry) -> (sequence: Option<u64>)
    ensures
        sequence == sequence_of(entry@),
{
    if !matches!(entry.kind, EntryKind::File) {
        return None;
    }
    match without_suffix(entry.name.as_str(), ".json") {
        Some(stem) => read_number(stem),
        None => None,
    }
}

} // verus!
