//! Writes that are queued and not yet in the storage, as they show in the mount.

use vstd::prelude::*;

use crate::entries::{
    insert_directory_entry, listing, place_after, with_entry, DirectoryEntry, Entry, EntryKind,
};
use crate::jsonl::copy_bytes;
use crate::mount_paths::{bad_mount_component, descends, mount_text, Components, MountPath};
use crate::path::JetStreamPath;
use crate::text::{
    law_text_order_is_strict_and_total, option_view, precedes, text_less, texts, Text,
};
use crate::versions::{later_stamp, max_version_stamp, VersionStamp};

verus! {

/// What a queued write puts down. `S` is `String` and `B` is `Vec<u8>` in executable
/// code; [`Payload`] is the model.
#[derive(Clone, Debug, PartialEq, Eq)]
pub enum PendingWritePayload<S = String, B = Vec<u8>> {
    WholeValue(B),
    JsonLines { stream: S, subject: S, bytes: B, applied_lines: usize },
}

/// The model of a payload.
pub type Payload = PendingWritePayload<Text, Seq<u8>>;

impl View for PendingWritePayload<String, Vec<u8>> {
    type V = Payload;

    open spec fn view(&self) -> Payload {
        match *self {
            PendingWritePayload::WholeValue(bytes) => PendingWritePayload::WholeValue(bytes@),
            PendingWritePayload::JsonLines { stream, subject, bytes, applied_lines } => {
                PendingWritePayload::JsonLines {
                    stream: stream@,
                    subject: subject@,
                    bytes: bytes@,
                    applied_lines,
                }
            },
        }
    }
}

/// A queued write: the paths that it makes visible, those that it removes, and what
/// it puts down.
#[derive(Clone, Debug, PartialEq, Eq)]
pub struct PendingWriteOverlay {
    pub idempotency_key: String,
    pub version: VersionStamp,
    pub visible_paths: Vec<MountPath>,
    pub deleted_paths: Vec<MountPath>,
    pub payload: PendingWritePayload,
}

/// The model of a queued write.
pub struct Fact {
    pub idempotency_key: Text,
    pub version: VersionStamp,
    pub visible: Seq<Components>,
    pub deleted: Seq<Components>,
    pub payload: Payload,
}

/// The models of paths.
pub open spec fn path_models(paths: Seq<MountPath>) -> Seq<Components> {
    paths.map_values(|path: MountPath| path@)
}

impl View for PendingWriteOverlay {
    type V = Fact;

    open spec fn view(&self) -> Fact {
        Fact {
            idempotency_key: self.idempotency_key@,
            version: self.version,
            visible: path_models(self.visible_paths@),
            deleted: path_models(self.deleted_paths@),
            payload: self.payload@,
        }
    }
}

/// A file's content and when it was written. `B` is `Vec<u8>` in executable code and
/// a sequence of bytes in contracts.
#[derive(Debug, PartialEq, Eq)]
pub struct FileSnapshot<B = Vec<u8>> {
    pub bytes: B,
    pub version: VersionStamp,
}

/// The model of a file's content.
pub type Snapshot = FileSnapshot<Seq<u8>>;

impl View for FileSnapshot<Vec<u8>> {
    type V = Snapshot;

    open spec fn view(&self) -> Snapshot {
        FileSnapshot { bytes: self.bytes@, version: self.version }
    }
}

/// Queued lines for one log.
#[derive(Debug, PartialEq, Eq)]
pub struct QueuedJsonlEntry<S = String, B = Vec<u8>> {
    pub idempotency_key: S,
    pub stream: S,
    pub subject: S,
    pub bytes: B,
    pub applied_lines: usize,
    pub version: VersionStamp,
}

/// The model of queued lines.
pub type QueuedLines = QueuedJsonlEntry<Text, Seq<u8>>;

impl View for QueuedJsonlEntry<String, Vec<u8>> {
    type V = QueuedLines;

    open spec fn view(&self) -> QueuedLines {
        QueuedJsonlEntry {
            idempotency_key: self.idempotency_key@,
            stream: self.stream@,
            subject: self.subject@,
            bytes: self.bytes@,
            applied_lines: self.applied_lines,
            version: self.version,
        }
    }
}

/// The models of queued lines.
pub open spec fn queued_models(entries: Seq<QueuedJsonlEntry>) -> Seq<QueuedLines> {
    entries.map_values(|entry: QueuedJsonlEntry| entry@)
}

/// The paths that a queued write removes and makes visible.
#[derive(Clone, Debug, PartialEq, Eq)]
pub struct QueuedOverlayChange {
    pub deleted_paths: Vec<MountPath>,
    pub visible_paths: Vec<MountPath>,
}

/// The queued writes in the order in which they were queued.
pub struct QueuedOverlayProjection {
    pub facts: Vec<PendingWriteOverlay>,
}

impl View for QueuedOverlayProjection {
    type V = Seq<Fact>;

    open spec fn view(&self) -> Seq<Fact> {
        self.facts@.map_values(|fact: PendingWriteOverlay| fact@)
    }
}

// ---------------------------------------------------------------------------
// What the queued writes show
// ---------------------------------------------------------------------------

/// The value that the queued writes give a path: that of the latest write that puts
/// down the whole value, unless a later one removes the path.
pub open spec fn whole_value(facts: Seq<Fact>, path: Components) -> Option<Snapshot>
    decreases facts.len(),
{
    if facts.len() == 0 || facts.last().deleted.contains(path) {
        None
    } else {
        match facts.last().payload {
            PendingWritePayload::WholeValue(bytes) if facts.last().visible.contains(path) => Some(
                FileSnapshot { bytes, version: facts.last().version },
            ),
            _ => whole_value(facts.drop_last(), path),
        }
    }
}

/// Whether the latest queued write that touches a path removes it.
pub open spec fn deleted(facts: Seq<Fact>, path: Components) -> bool
    decreases facts.len(),
{
    if facts.len() == 0 {
        false
    } else if facts.last().deleted.contains(path) {
        true
    } else if facts.last().visible.contains(path) {
        false
    } else {
        deleted(facts.drop_last(), path)
    }
}

/// The queued lines of one write for a path.
pub open spec fn lines_of_fact(fact: Fact, path: Components) -> Option<QueuedLines> {
    match fact.payload {
        PendingWritePayload::JsonLines { stream, subject, bytes, applied_lines } => {
            if fact.visible.contains(path) {
                Some(
                    QueuedJsonlEntry {
                        idempotency_key: fact.idempotency_key,
                        stream,
                        subject,
                        bytes,
                        applied_lines,
                        version: fact.version,
                    },
                )
            } else {
                None
            }
        },
        PendingWritePayload::WholeValue(_) => None,
    }
}

/// The queued lines for a path, in order.
pub open spec fn queued_lines(facts: Seq<Fact>, path: Components) -> Seq<QueuedLines>
    decreases facts.len(),
{
    if facts.len() == 0 {
        Seq::empty()
    } else {
        let before = queued_lines(facts.drop_last(), path);
        match lines_of_fact(facts.last(), path) {
            Some(lines) => before.push(lines),
            None => before,
        }
    }
}

/// Whether a path is one of the given ones or lies above one of them.
pub open spec fn reaches_any(paths: Seq<Components>, path: Components) -> bool {
    exists|i: int|
        0 <= i < paths.len() && ((#[trigger] paths[i]) == path || descends(paths[i], path))
}

/// The latest version among the queued writes at or below a path.
pub open spec fn queued_version(facts: Seq<Fact>, path: Components) -> Option<VersionStamp>
    decreases facts.len(),
{
    if facts.len() == 0 {
        None
    } else {
        let before = queued_version(facts.drop_last(), path);
        if reaches_any(facts.last().visible, path) {
            Some(later_stamp(before, facts.last().version))
        } else {
            before
        }
    }
}

/// The entry of a directory under which a path lies: none where it does not lie below
/// the directory.
pub open spec fn child_of(directory: Components, path: Components) -> Option<Entry> {
    if descends(path, directory) {
        Some(
            DirectoryEntry {
                name: path[directory.len() as int],
                kind: if path.len() == directory.len() + 1 {
                    EntryKind::File
                } else {
                    EntryKind::Directory
                },
            },
        )
    } else {
        None
    }
}

/// The list with the entries under which paths lie.
pub open spec fn with_children(
    entries: Seq<Entry>,
    directory: Components,
    paths: Seq<Components>,
) -> Seq<Entry>
    decreases paths.len(),
{
    if paths.len() == 0 {
        entries
    } else {
        let before = with_children(entries, directory, paths.drop_last());
        match child_of(directory, paths.last()) {
            Some(child) => with_entry(before, child),
            None => before,
        }
    }
}

/// The entries of a directory that the queued writes make visible, in the order of
/// the queue.
pub open spec fn queued_children(facts: Seq<Fact>, directory: Components) -> Seq<Entry>
    decreases facts.len(),
{
    if facts.len() == 0 {
        Seq::empty()
    } else {
        with_children(
            queued_children(facts.drop_last(), directory),
            directory,
            facts.last().visible,
        )
    }
}

/// The entries in the order of their names; entries of one name keep their order.
pub open spec fn sorted(entries: Seq<Entry>) -> Seq<Entry>
    decreases entries.len(),
{
    if entries.len() == 0 {
        entries
    } else {
        let before = sorted(entries.drop_last());
        before.insert(place_after(before, entries.last().name), entries.last())
    }
}

/// The entries of a directory that the queued writes make visible, by name.
pub open spec fn queued_entries(facts: Seq<Fact>, directory: Components) -> Seq<Entry> {
    sorted(queued_children(facts, directory))
}

/// Whether one of the paths lies below a directory.
pub open spec fn any_descends(paths: Seq<Components>, directory: Components) -> bool {
    exists|i: int| 0 <= i < paths.len() && descends(#[trigger] paths[i], directory)
}

/// Whether a queued write removes something below a directory.
pub open spec fn deletes_below(facts: Seq<Fact>, directory: Components) -> bool {
    exists|i: int| 0 <= i < facts.len() && any_descends((#[trigger] facts[i]).deleted, directory)
}

/// Whether a directory of this kind exists only as long as something lies below it.
pub open spec fn synthetic(path: JetStreamPath<Text>) -> bool {
    path is KvKey || path is Object || path is TaskNamespace || path is AgentRecord
        || path is SemanticRecord
}

// ---------------------------------------------------------------------------
// Laws
// ---------------------------------------------------------------------------

/// A path that the queue removes has no queued value, and one with a queued value is
/// not removed.
pub proof fn law_deleted_paths_have_no_value(facts: Seq<Fact>, path: Components)
    ensures
        deleted(facts, path) ==> whole_value(facts, path) is None,
        whole_value(facts, path) is Some ==> !deleted(facts, path),
    decreases facts.len(),
{
    if facts.len() > 0 {
        law_deleted_paths_have_no_value(facts.drop_last(), path);
    }
}

/// Whether no entry comes before one whose name is less.
pub open spec fn in_order(entries: Seq<Entry>) -> bool {
    forall|i: int, j: int|
        0 <= i < j < entries.len() ==> !text_less(
            (#[trigger] entries[j]).name,
            (#[trigger] entries[i]).name,
        )
}

/// The place for a name lies behind all that are not greater, and before one that is.
pub proof fn lemma_place_after(entries: Seq<Entry>, name: Text)
    ensures
        0 <= place_after(entries, name) <= entries.len(),
        forall|i: int|
            0 <= i < place_after(entries, name) ==> !text_less(name, (#[trigger] entries[i]).name),
        place_after(entries, name) < entries.len() ==> text_less(
            name,
            entries[place_after(entries, name)].name,
        ),
    decreases entries.len(),
{
    if entries.len() > 0 && !text_less(name, entries[0].name) {
        let rest = entries.drop_first();
        lemma_place_after(rest, name);
        assert forall|i: int| 0 <= i < place_after(entries, name) implies !text_less(
            name,
            (#[trigger] entries[i]).name,
        ) by {
            if i > 0 {
                assert(entries[i] == rest[i - 1]);
            }
        }
    }
}

/// Putting entries in order keeps every entry, and the result is in the order of names.
pub proof fn law_sorting_keeps_entries_and_orders_them(entries: Seq<Entry>)
    ensures
        in_order(sorted(entries)),
        sorted(entries).to_multiset() == entries.to_multiset(),
    decreases entries.len(),
{
    broadcast use vstd::seq_lib::group_to_multiset_ensures;

    if entries.len() > 0 {
        let front = entries.drop_last();
        let last = entries.last();
        let before = sorted(front);
        law_sorting_keeps_entries_and_orders_them(front);
        lemma_place_after(before, last.name);
        let at = place_after(before, last.name);
        let after = before.insert(at, last);
        assert forall|i: int, j: int| 0 <= i < j < after.len() implies !text_less(
            (#[trigger] after[j]).name,
            (#[trigger] after[i]).name,
        ) by {
            if i == at {
                let next = before[at].name;
                let other = after[j].name;
                law_text_order_is_strict_and_total(last.name, next, other);
                law_text_order_is_strict_and_total(next, other, other);
                law_text_order_is_strict_and_total(other, last.name, next);
                law_text_order_is_strict_and_total(last.name, other, other);
            }
        }
        assert(entries =~= front.push(last));
        assert(sorted(entries) == after);
    }
}

/// The last write to a path decides what the queue shows for it.
pub proof fn law_latest_write_decides(facts: Seq<Fact>, fact: Fact, path: Components)
    ensures
        fact.deleted.contains(path) ==> deleted(facts.push(fact), path) && whole_value(
            facts.push(fact),
            path,
        ) is None,
        !fact.deleted.contains(path) && fact.visible.contains(path) ==> !deleted(
            facts.push(fact),
            path,
        ),
        !fact.deleted.contains(path) && fact.visible.contains(path) ==> (
        fact.payload matches PendingWritePayload::WholeValue(bytes) ==> whole_value(
            facts.push(fact),
            path,
        ) == Some(FileSnapshot { bytes, version: fact.version })),
        !fact.deleted.contains(path) && !fact.visible.contains(path) ==> whole_value(
            facts.push(fact),
            path,
        ) == whole_value(facts, path) && deleted(facts.push(fact), path) == deleted(facts, path),
{
    assert(facts.push(fact).drop_last() =~= facts);
    assert(facts.push(fact).last() == fact);
}

// ---------------------------------------------------------------------------
// Operations
// ---------------------------------------------------------------------------

/// Whether a path is among others.
pub fn contains_path(paths: &[MountPath], path: &MountPath) -> (found: bool)
    ensures
        found == path_models(paths@).contains(path@),
{
    let ghost models = path_models(paths@);
    let mut i: usize = 0;
    while i < paths.len()
        invariant
            i <= paths.len(),
            models == path_models(paths@),
            forall|k: int| 0 <= k < i ==> models[k] != path@,
        decreases paths.len() - i,
    {
        assert(models[i as int] == paths@[i as int]@);
        if paths[i].same(path) {
            assert(models[i as int] == path@);
            return true;
        }
        i += 1;
    }
    false
}

/// A copy of a list of paths.
pub fn copy_paths(paths: &[MountPath]) -> (copy: Vec<MountPath>)
    ensures
        path_models(copy@) == path_models(paths@),
{
    let mut copy: Vec<MountPath> = Vec::new();
    let mut i: usize = 0;
    while i < paths.len()
        invariant
            i <= paths.len(),
            copy.len() == i,
            forall|k: int| 0 <= k < i ==> (#[trigger] copy[k])@ == paths[k]@,
        decreases paths.len() - i,
    {
        copy.push(paths[i].clone());
        i += 1;
    }
    assert(path_models(copy@) =~= path_models(paths@));
    copy
}

/// The entries in the order of their names.
fn sort_entries(entries: &Vec<DirectoryEntry>) -> (ordered: Vec<DirectoryEntry>)
    ensures
        listing(ordered@) == sorted(listing(entries@)),
{
    let ghost models = listing(entries@);
    let mut ordered: Vec<DirectoryEntry> = Vec::new();
    let mut i: usize = 0;
    assert(models.take(0) =~= Seq::empty());
    assert(listing(ordered@) =~= Seq::empty());
    while i < entries.len()
        invariant
            i <= entries.len(),
            models == listing(entries@),
            listing(ordered@) == sorted(models.take(i as int)),
        decreases entries.len() - i,
    {
        let entry = &entries[i];
        let ghost upto = models.take(i + 1);
        let ghost front = listing(ordered@);
        let ghost before = ordered@;
        assert(upto.drop_last() =~= models.take(i as int));
        assert(upto.last() == entry@);
        let mut at: usize = 0;
        assert(front.skip(0) =~= front);
        while at < ordered.len() && !precedes(entry.name.as_str(), ordered[at].name.as_str())
            invariant
                at <= ordered.len(),
                ordered@ == before,
                front == listing(ordered@),
                place_after(front, entry.name@) == at + place_after(
                    front.skip(at as int),
                    entry.name@,
                ),
            decreases ordered.len() - at,
        {
            assert(front.skip(at as int)[0] == ordered@[at as int]@);
            assert(front.skip(at as int).drop_first() =~= front.skip(at + 1));
            at += 1;
        }
        if at < ordered.len() {
            assert(front.skip(at as int)[0] == ordered@[at as int]@);
        }
        ordered.insert(at, entry.clone());
        assert(listing(ordered@) =~= front.insert(at as int, entry@));
        i += 1;
    }
    assert(models.take(models.len() as int) =~= models);
    ordered
}

impl QueuedOverlayProjection {
    /// The queued writes in the order in which they were queued.
    pub fn new(facts: Vec<PendingWriteOverlay>) -> (overlay: Self)
        ensures
            overlay.facts == facts,
    {
        QueuedOverlayProjection { facts }
    }

    /// The value that the queued writes give a path.
    pub fn whole_value_snapshot(&self, path: &MountPath) -> (snapshot: Option<FileSnapshot>)
        ensures
            option_view(snapshot) == whole_value(self@, path@),
    {
        let mut i: usize = self.facts.len();
        assert(self@.take(self@.len() as int) =~= self@);
        while i > 0
            invariant
                i <= self.facts.len(),
                whole_value(self@, path@) == whole_value(self@.take(i as int), path@),
            decreases i,
        {
            let ghost upto = self@.take(i as int);
            i -= 1;
            let fact = &self.facts[i];
            assert(upto.last() == fact@);
            assert(upto.drop_last() =~= self@.take(i as int));
            if contains_path(fact.deleted_paths.as_slice(), path) {
                return None;
            }
            if contains_path(fact.visible_paths.as_slice(), path) {
                if let PendingWritePayload::WholeValue(bytes) = &fact.payload {
                    return Some(
                        FileSnapshot {
                            bytes: copy_bytes(bytes.as_slice()),
                            version: fact.version,
                        },
                    );
                }
            }
        }
        None
    }

    /// The queued lines for a path, in order.
    pub fn jsonl_entries(&self, path: &MountPath) -> (entries: Vec<QueuedJsonlEntry>)
        ensures
            queued_models(entries@) == queued_lines(self@, path@),
    {
        let mut entries: Vec<QueuedJsonlEntry> = Vec::new();
        let mut i: usize = 0;
        assert(self@.take(0) =~= Seq::empty());
        assert(queued_models(entries@) =~= Seq::empty());
        while i < self.facts.len()
            invariant
                i <= self.facts.len(),
                queued_models(entries@) == queued_lines(self@.take(i as int), path@),
            decreases self.facts.len() - i,
        {
            let fact = &self.facts[i];
            let ghost upto = self@.take(i + 1);
            assert(upto.drop_last() =~= self@.take(i as int));
            assert(upto.last() == fact@);
            if contains_path(fact.visible_paths.as_slice(), path) {
                if let PendingWritePayload::JsonLines { stream, subject, bytes, applied_lines } =
                    &fact.payload {
                    let ghost before = entries@;
                    let entry = QueuedJsonlEntry {
                        idempotency_key: fact.idempotency_key.clone(),
                        stream: stream.clone(),
                        subject: subject.clone(),
                        bytes: copy_bytes(bytes.as_slice()),
                        applied_lines: *applied_lines,
                        version: fact.version,
                    };
                    entries.push(entry);
                    assert(queued_models(entries@) =~= queued_models(before).push(entry@));
                }
            }
            i += 1;
        }
        assert(self@.take(self@.len() as int) =~= self@);
        entries
    }

    /// Whether there are queued lines for a path.
    pub fn has_jsonl_entry(&self, path: &MountPath) -> (found: bool)
        ensures
            found == (queued_lines(self@, path@).len() > 0),
    {
        let entries = self.jsonl_entries(path);
        assert(queued_models(entries@).len() == entries@.len());
        entries.len() > 0
    }

    /// The latest version among the queued writes at or below a path.
    pub fn overlay_version(&self, path: &MountPath) -> (version: Option<VersionStamp>)
        ensures
            version == queued_version(self@, path@),
    {
        let mut newest: Option<VersionStamp> = None;
        let mut i: usize = 0;
        assert(self@.take(0) =~= Seq::empty());
        while i < self.facts.len()
            invariant
                i <= self.facts.len(),
                newest == queued_version(self@.take(i as int), path@),
            decreases self.facts.len() - i,
        {
            let fact = &self.facts[i];
            let ghost upto = self@.take(i + 1);
            assert(upto.drop_last() =~= self@.take(i as int));
            assert(upto.last() == fact@);
            if any_at_or_below(fact.visible_paths.as_slice(), path) {
                newest = Some(max_version_stamp(newest, fact.version));
            }
            i += 1;
        }
        assert(self@.take(self@.len() as int) =~= self@);
        newest
    }

    /// Whether the latest queued write that touches a path removes it.
    pub fn latest_delete_covers(&self, path: &MountPath) -> (covered: bool)
        ensures
            covered == deleted(self@, path@),
    {
        let mut i: usize = self.facts.len();
        assert(self@.take(self@.len() as int) =~= self@);
        while i > 0
            invariant
                i <= self.facts.len(),
                deleted(self@, path@) == deleted(self@.take(i as int), path@),
            decreases i,
        {
            let ghost upto = self@.take(i as int);
            i -= 1;
            let fact = &self.facts[i];
            assert(upto.last() == fact@);
            assert(upto.drop_last() =~= self@.take(i as int));
            if contains_path(fact.deleted_paths.as_slice(), path) {
                return true;
            }
            if contains_path(fact.visible_paths.as_slice(), path) {
                return false;
            }
        }
        false
    }

    /// The entries of a directory that the queued writes make visible, by name.
    pub fn directory_entries(&self, path: &MountPath) -> (entries: Vec<DirectoryEntry>)
        ensures
            listing(entries@) == queued_entries(self@, path@),
    {
        let mut entries: Vec<DirectoryEntry> = Vec::new();
        let mut i: usize = 0;
        assert(self@.take(0) =~= Seq::empty());
        assert(listing(entries@) =~= Seq::empty());
        while i < self.facts.len()
            invariant
                i <= self.facts.len(),
                listing(entries@) == queued_children(self@.take(i as int), path@),
            decreases self.facts.len() - i,
        {
            let fact = &self.facts[i];
            let ghost upto = self@.take(i + 1);
            assert(upto.drop_last() =~= self@.take(i as int));
            assert(upto.last() == fact@);
            insert_children(&mut entries, path, fact.visible_paths.as_slice());
            i += 1;
        }
        assert(self@.take(self@.len() as int) =~= self@);
        sort_entries(&entries)
    }

    /// The paths that each queued write removes and makes visible.
    pub fn changes(&self) -> (changes: Vec<QueuedOverlayChange>)
        ensures
            changes.len() == self@.len(),
            forall|i: int|
                0 <= i < changes.len() ==> path_models((#[trigger] changes[i]).deleted_paths@)
                    == self@[i].deleted && path_models(changes[i].visible_paths@)
                    == self@[i].visible,
    {
        let mut changes: Vec<QueuedOverlayChange> = Vec::new();
        let mut i: usize = 0;
        while i < self.facts.len()
            invariant
                i <= self.facts.len(),
                changes.len() == i,
                forall|k: int|
                    0 <= k < i ==> path_models((#[trigger] changes[k]).deleted_paths@)
                        == self@[k].deleted && path_models(changes[k].visible_paths@)
                        == self@[k].visible,
            decreases self.facts.len() - i,
        {
            let fact = &self.facts[i];
            assert(self@[i as int] == fact@);
            changes.push(
                QueuedOverlayChange {
                    deleted_paths: copy_paths(fact.deleted_paths.as_slice()),
                    visible_paths: copy_paths(fact.visible_paths.as_slice()),
                },
            );
            i += 1;
        }
        changes
    }

    /// Whether a queued write removes something below a directory.
    pub fn has_deleted_descendant(&self, path: &MountPath) -> (found: bool)
        ensures
            found == deletes_below(self@, path@),
    {
        let mut i: usize = 0;
        while i < self.facts.len()
            invariant
                i <= self.facts.len(),
                forall|k: int| 0 <= k < i ==> !any_descends((#[trigger] self@[k]).deleted, path@),
            decreases self.facts.len() - i,
        {
            let fact = &self.facts[i];
            assert(self@[i as int] == fact@);
            if any_below(fact.deleted_paths.as_slice(), path) {
                return true;
            }
            i += 1;
        }
        false
    }

    /// Whether a path that the queue removes still shows as a directory.
    pub fn exact_delete_reveals_synthetic_directory(
        parsed: &JetStreamPath,
        has_known_visible_entries: bool,
    ) -> (reveals: bool)
        ensures
            reveals == (synthetic(parsed@) && has_known_visible_entries),
    {
        queued_delete_can_empty_synthetic_directory(parsed) && has_known_visible_entries
    }

    /// Whether a directory is gone because the queue removes what was below it.
    pub fn deleted_descendant_empties_synthetic_directory(
        parsed: &JetStreamPath,
        exact_dynamic_file_exists: bool,
        has_visible_entries: bool,
    ) -> (emptied: bool)
        ensures
            emptied == (synthetic(parsed@) && !exact_dynamic_file_exists && !has_visible_entries),
    {
        queued_delete_can_empty_synthetic_directory(parsed) && !exact_dynamic_file_exists
            && !has_visible_entries
    }

    /// Whether a directory with this path is gone once nothing lies below it.
    pub fn delete_can_elide_directory_child(path: &MountPath) -> (yes: bool)
        ensures
            yes == can_vanish(path@),
    {
        match JetStreamPath::parse(path.as_str()) {
            Ok(parsed) => queued_delete_can_empty_synthetic_directory(&parsed),
            Err(_) => false,
        }
    }

    /// The entry of a directory under which a path lies.
    pub fn directory_child(directory: &MountPath, path: &MountPath) -> (child: Option<
        DirectoryEntry,
    >)
        ensures
            option_view(child) == child_of(directory@, path@),
            child matches Some(child) ==> !bad_mount_component(child.name@),
    {
        queued_directory_child(directory, path)
    }
}

/// Whether a directory with this path is gone once nothing lies below it.
pub open spec fn can_vanish(path: Components) -> bool {
    JetStreamPath::parsed(mount_text(path)) matches Ok(parsed) && synthetic(parsed)
}

/// Adds the entries under which paths lie to a list.
pub fn insert_children(
    entries: &mut Vec<DirectoryEntry>,
    directory: &MountPath,
    paths: &[MountPath],
)
    ensures
        listing(final(entries)@) == with_children(
            listing(old(entries)@),
            directory@,
            path_models(paths@),
        ),
{
    let ghost before = listing(entries@);
    let ghost models = path_models(paths@);
    let mut i: usize = 0;
    assert(models.take(0) =~= Seq::empty());
    while i < paths.len()
        invariant
            i <= paths.len(),
            models == path_models(paths@),
            listing(entries@) == with_children(before, directory@, models.take(i as int)),
        decreases paths.len() - i,
    {
        let ghost upto = models.take(i + 1);
        assert(upto.drop_last() =~= models.take(i as int));
        assert(upto.last() == paths@[i as int]@);
        if let Some(child) = queued_directory_child(directory, &paths[i]) {
            insert_directory_entry(entries, child);
        }
        i += 1;
    }
    assert(models.take(models.len() as int) =~= models);
}

fn any_at_or_below(paths: &[MountPath], path: &MountPath) -> (found: bool)
    ensures
        found == reaches_any(path_models(paths@), path@),
{
    let ghost models = path_models(paths@);
    let mut i: usize = 0;
    while i < paths.len()
        invariant
            i <= paths.len(),
            models == path_models(paths@),
            forall|k: int|
                0 <= k < i ==> !((#[trigger] models[k]) == path@ || descends(models[k], path@)),
        decreases paths.len() - i,
    {
        assert(models[i as int] == paths@[i as int]@);
        if paths[i].is_self_or_descendant_of(path) {
            return true;
        }
        i += 1;
    }
    false
}

fn any_below(paths: &[MountPath], path: &MountPath) -> (found: bool)
    ensures
        found == any_descends(path_models(paths@), path@),
{
    let ghost models = path_models(paths@);
    let mut i: usize = 0;
    while i < paths.len()
        invariant
            i <= paths.len(),
            models == path_models(paths@),
            forall|k: int| 0 <= k < i ==> !descends(#[trigger] models[k], path@),
        decreases paths.len() - i,
    {
        assert(models[i as int] == paths@[i as int]@);
        if paths[i].is_descendant_of(path) {
            return true;
        }
        i += 1;
    }
    false
}

fn queued_delete_can_empty_synthetic_directory(parsed: &JetStreamPath) -> (yes: bool)
    ensures
        yes == synthetic(parsed@),
{
    match parsed {
        JetStreamPath::KvKey { .. } => true,
        JetStreamPath::Object { .. } => true,
        JetStreamPath::TaskNamespace { .. } => true,
        JetStreamPath::AgentRecord { .. } => true,
        JetStreamPath::SemanticRecord { .. } => true,
        _ => false,
    }
}

fn queued_directory_child(directory: &MountPath, path: &MountPath) -> (child: Option<
    DirectoryEntry,
>)
    ensures
        option_view(child) == child_of(directory@, path@),
        child matches Some(child) ==> !bad_mount_component(child.name@),
{
    if !path.is_descendant_of(directory) {
        return None;
    }
    let above = directory.components();
    let components = path.components();
    assert(texts(above@).len() == above@.len());
    assert(texts(components@).len() == components@.len());
    let name = components[above.len()];
    assert(texts(components@)[above@.len() as int] == name@);
    let kind = if components.len() == above.len() + 1 {
        EntryKind::File
    } else {
        EntryKind::Directory
    };
    Some(DirectoryEntry { name: name.to_owned(), kind })
}

} // verus!
