//! Directories as the mount shows them: what the storage lists, with the queued
//! writes laid over it.

use vstd::prelude::*;

use crate::durable::{
    durable_directory_entries, durable_entries, entries_outcome, exact_dynamic_file_exists,
    exact_file,
};
use crate::entries::{
    directory_entries_contain_exact_file, insert_directory_entry, insert_directory_entry_sorted,
    lists_file, listing, remove_directory_entry, with_entry, with_entry_in_order, without_name,
    DirectoryEntry, Entry, EntryKind,
};
use crate::errno;
use crate::inquiry::{plain_outcome, Inquiry, Pause, Step, Stop, Talk};
use crate::mount_paths::{
    bad_mount_component, law_parent_and_child, mount_text, Components,
    MountPath,
};
use crate::overlay::{
    can_vanish, child_of, deletes_below, insert_children, queued_entries, synthetic,
    with_children, Fact, QueuedOverlayProjection,
};
use crate::path::JetStreamPath;
use crate::text::Text;
use crate::upkeep::{apply_pending_watch_events, drained};

verus! {

/// A step whose failure is ignored; a question is not.
pub open spec fn tolerant<T>(step: Step<T>) -> Step<Option<T>> {
    match step.0 {
        Ok(value) => (Ok(Some(value)), step.1),
        Err(Pause::Fail(_)) => (Ok(None), step.1),
        Err(Pause::Ask(request)) => (Err(Pause::Ask(request)), step.1),
    }
}

/// The length of the longest path.
pub open spec fn longest(paths: Seq<Components>) -> nat
    decreases paths.len(),
{
    if paths.len() == 0 {
        0
    } else if paths.last().len() > longest(paths.drop_last()) {
        paths.last().len()
    } else {
        longest(paths.drop_last())
    }
}

/// The length of the longest path that a queued write removes.
pub open spec fn deepest(facts: Seq<Fact>) -> nat
    decreases facts.len(),
{
    if facts.len() == 0 {
        0
    } else if longest(facts.last().deleted) > deepest(facts.drop_last()) {
        longest(facts.last().deleted)
    } else {
        deepest(facts.drop_last())
    }
}

/// How far below a directory the queued writes remove anything.
pub open spec fn depth_below(facts: Seq<Fact>, path: Components) -> nat {
    if path.len() <= deepest(facts) {
        (deepest(facts) + 1 - path.len()) as nat
    } else {
        0
    }
}

proof fn lemma_longest(paths: Seq<Components>, k: int)
    requires
        0 <= k < paths.len(),
    ensures
        paths[k].len() <= longest(paths),
    decreases paths.len(),
{
    if k < paths.len() - 1 {
        lemma_longest(paths.drop_last(), k);
        assert(paths.drop_last()[k] == paths[k]);
    }
}

proof fn lemma_deepest(facts: Seq<Fact>, f: int, k: int)
    requires
        0 <= f < facts.len(),
        0 <= k < facts[f].deleted.len(),
    ensures
        facts[f].deleted[k].len() <= deepest(facts),
    decreases facts.len(),
{
    if f < facts.len() - 1 {
        lemma_deepest(facts.drop_last(), f, k);
        assert(facts.drop_last()[f] == facts[f]);
    } else {
        lemma_longest(facts[f].deleted, k);
    }
}

/// A path below a directory that a queued write removes is nearer to that write's
/// depth than the directory.
pub proof fn lemma_child_is_deeper(facts: Seq<Fact>, f: int, k: int, path: Components)
    requires
        0 <= f < facts.len(),
        0 <= k < facts[f].deleted.len(),
        child_of(path, facts[f].deleted[k]) is Some,
    ensures
        depth_below(facts, path.push(child_of(path, facts[f].deleted[k]).unwrap().name))
            < depth_below(facts, path),
{
    lemma_deepest(facts, f, k);
}

/// A directory's entries with the queued writes from one on laid over them.
pub open spec fn overlaid_from(
    talk: Talk,
    facts: Seq<Fact>,
    f: nat,
    path: Components,
    entries: Seq<Entry>,
) -> Step<Seq<Entry>>
    decreases depth_below(facts, path), 2int, facts.len() - f,
{
    if f >= facts.len() {
        (Ok(entries), talk)
    } else {
        let (kept, talk) = deleted_from(talk, facts, f, 0, path, entries);
        match kept {
            Err(stop) => (Err(stop), talk),
            Ok(kept) => overlaid_from(
                talk,
                facts,
                f + 1,
                path,
                with_children(kept, path, facts[f as int].visible),
            ),
        }
    }
}

/// A directory's entries after the removals of one queued write, from one of them on.
/// A removed file leaves the list, unless something below it makes it a directory. A
/// directory leaves the list if it exists only through what lies below it, nothing of
/// that is left, and it is no file either.
pub open spec fn deleted_from(
    talk: Talk,
    facts: Seq<Fact>,
    f: nat,
    k: nat,
    path: Components,
    entries: Seq<Entry>,
) -> Step<Seq<Entry>>
    decreases depth_below(facts, path), 1int, facts[f as int].deleted.len() - k,
{
    if f >= facts.len() || k >= facts[f as int].deleted.len() {
        (Ok(entries), talk)
    } else {
        match child_of(path, facts[f as int].deleted[k as int]) {
            None => deleted_from(talk, facts, f, k + 1, path, entries),
            Some(child) => {
                proof {
                    lemma_child_is_deeper(facts, f as int, k as int, path);
                }
                let below = path.push(child.name);
                match child.kind {
                    EntryKind::File => {
                        let (reveals, talk) = if can_vanish(below) {
                            known_visible(talk, facts, below)
                        } else {
                            (Ok(false), talk)
                        };
                        match reveals {
                            Err(stop) => (Err(stop), talk),
                            Ok(true) => deleted_from(
                                talk,
                                facts,
                                f,
                                k + 1,
                                path,
                                with_entry_in_order(
                                    entries,
                                    DirectoryEntry { name: child.name, kind: EntryKind::Directory },
                                ),
                            ),
                            Ok(false) => deleted_from(
                                talk,
                                facts,
                                f,
                                k + 1,
                                path,
                                without_name(entries, child.name),
                            ),
                        }
                    },
                    EntryKind::Directory => {
                        let (stays, talk) = if !can_vanish(below) || lists_file(
                            entries,
                            child.name,
                        ) {
                            (Ok(true), talk)
                        } else {
                            let (file, talk) = is_exact_file(talk, below);
                            match file {
                                Err(stop) => (Err(stop), talk),
                                Ok(true) => (Ok(true), talk),
                                Ok(false) => maybe_visible(talk, facts, below),
                            }
                        };
                        match stays {
                            Err(stop) => (Err(stop), talk),
                            Ok(true) => deleted_from(talk, facts, f, k + 1, path, entries),
                            Ok(false) => deleted_from(
                                talk,
                                facts,
                                f,
                                k + 1,
                                path,
                                without_name(entries, child.name),
                            ),
                        }
                    },
                }
            },
        }
    }
}

/// Whether a directory shows anything, where a listing that fails shows nothing.
pub open spec fn known_visible(talk: Talk, facts: Seq<Fact>, path: Components) -> Step<bool>
    decreases depth_below(facts, path), 3int, 0int,
{
    let (durable, talk) = durable_at(talk, path);
    match durable {
        Err(stop) => (Err(stop), talk),
        Ok(durable) => {
            let entries = match durable {
                Some(entries) => entries,
                None => Seq::empty(),
            };
            let (shown, talk) = overlaid_from(talk, facts, 0, path, entries);
            match shown {
                Err(stop) => (Err(stop), talk),
                Ok(shown) => (Ok(shown.len() > 0), talk),
            }
        },
    }
}

/// Whether a directory may show anything, where a listing that fails may.
pub open spec fn maybe_visible(talk: Talk, facts: Seq<Fact>, path: Components) -> Step<bool>
    decreases depth_below(facts, path), 3int, 0int,
{
    let (durable, talk) = durable_at(talk, path);
    match durable {
        Err(stop) => (Err(stop), talk),
        Ok(None) => (Ok(true), talk),
        Ok(Some(entries)) => {
            let (shown, talk) = overlaid_from(talk, facts, 0, path, entries);
            match shown {
                Err(stop) => (Err(stop), talk),
                Ok(shown) => (Ok(shown.len() > 0), talk),
            }
        },
    }
}

/// The entries that the storage lists under a mount path: none where the path stands
/// for nothing or the listing fails.
pub open spec fn durable_at(talk: Talk, path: Components) -> Step<Option<Seq<Entry>>> {
    match JetStreamPath::parsed(mount_text(path)) {
        Err(_) => (Ok(None), talk),
        Ok(parsed) => tolerant(durable_entries(talk, parsed)),
    }
}

/// Whether the storage has a value under exactly a mount path: not where the path
/// stands for nothing or the question fails.
pub open spec fn is_exact_file(talk: Talk, path: Components) -> Step<bool> {
    match JetStreamPath::parsed(mount_text(path)) {
        Err(_) => (Ok(false), talk),
        Ok(parsed) => {
            let (file, talk) = tolerant(exact_file(talk, parsed));
            match file {
                Err(stop) => (Err(stop), talk),
                Ok(Some(file)) => (Ok(file), talk),
                Ok(None) => (Ok(false), talk),
            }
        },
    }
}

/// The entries that a directory has in every mount, beside those that are stored.
pub open spec fn fixed_entries(path: JetStreamPath<Text>) -> Seq<Entry> {
    if path is KvBucket {
        seq![DirectoryEntry { name: ".history"@, kind: EntryKind::Directory }]
    } else {
        Seq::empty()
    }
}

/// The list with entries added in the order of their names.
pub open spec fn with_entries_in_order(entries: Seq<Entry>, more: Seq<Entry>) -> Seq<Entry>
    decreases more.len(),
{
    if more.len() == 0 {
        entries
    } else {
        with_entry_in_order(with_entries_in_order(entries, more.drop_last()), more.last())
    }
}

/// The list with entries added at its end.
pub open spec fn with_entries(entries: Seq<Entry>, more: Seq<Entry>) -> Seq<Entry>
    decreases more.len(),
{
    if more.len() == 0 {
        entries
    } else {
        with_entry(with_entries(entries, more.drop_last()), more.last())
    }
}

/// Whether an error number says that a listing cannot be had.
pub open spec fn unavailable(number: i32) -> bool {
    number == errno::ENOENT || number == errno::EIO
}

/// A directory's entries as the mount shows them: those that are stored, those that
/// are always there, and those of the queued writes. Where the stored ones cannot be
/// had, the queued ones stand for themselves.
pub open spec fn merged(
    talk: Talk,
    facts: Seq<Fact>,
    parsed: JetStreamPath<Text>,
    path: Components,
    stored: Result<Seq<Entry>, Stop>,
) -> Step<Seq<Entry>> {
    let queued = queued_entries(facts, path);
    match stored {
        Ok(stored) => overlaid_from(
            talk,
            facts,
            0,
            path,
            with_entries(with_entries_in_order(stored, fixed_entries(parsed)), queued),
        ),
        Err(Pause::Fail(number)) if unavailable(number) && queued.len() > 0 => overlaid_from(
            talk,
            facts,
            0,
            path,
            with_entries_in_order(fixed_entries(parsed), queued),
        ),
        Err(stop) => (Err(stop), talk),
    }
}

/// The entries of the directory at a mount path. The changes that were seen are taken
/// in first.
pub open spec fn shown_entries(talk: Talk, facts: Seq<Fact>, path: Components) -> Step<Seq<Entry>> {
    let (done, talk) = drained(talk);
    match done {
        Err(stop) => (Err(stop), talk),
        Ok(()) => match JetStreamPath::parsed(mount_text(path)) {
            Err(error) => (Err(Pause::Fail(error.number().0)), talk),
            Ok(parsed) => {
                let (stored, talk) = durable_entries(talk, parsed);
                merged(talk, facts, parsed, path, stored)
            },
        },
    }
}

/// Whether a directory that exists only through what lies below it is gone because
/// the queue removes that.
pub open spec fn emptied(
    talk: Talk,
    facts: Seq<Fact>,
    parsed: JetStreamPath<Text>,
    path: Components,
) -> Step<bool> {
    if !deletes_below(facts, path) {
        (Ok(false), talk)
    } else {
        let (file, talk) = exact_file(talk, parsed);
        match file {
            Err(stop) => (Err(stop), talk),
            Ok(file) => {
                let (visible, talk) = maybe_visible(talk, facts, path);
                match visible {
                    Err(stop) => (Err(stop), talk),
                    Ok(visible) => (Ok(synthetic(parsed) && !file && !visible), talk),
                }
            },
        }
    }
}

/// Whether a path that the queue removes still shows as a directory.
pub open spec fn revealed(
    talk: Talk,
    facts: Seq<Fact>,
    parsed: JetStreamPath<Text>,
    path: Components,
) -> Step<bool> {
    let (visible, talk) = known_visible(talk, facts, path);
    match visible {
        Err(stop) => (Err(stop), talk),
        Ok(visible) => (Ok(synthetic(parsed) && visible), talk),
    }
}

// ---------------------------------------------------------------------------
// Laws
// ---------------------------------------------------------------------------

/// Without queued writes a directory shows what the storage lists, and nothing else
/// but the entries that are always there.
pub proof fn law_empty_queue_shows_the_storage(
    talk: Talk,
    parsed: JetStreamPath<Text>,
    path: Components,
    stored: Seq<Entry>,
)
    ensures
        merged(talk, Seq::empty(), parsed, path, Ok(stored)) == (
            Ok::<Seq<Entry>, Stop>(with_entries_in_order(stored, fixed_entries(parsed))),
            talk,
        ),
{
    assert(queued_entries(Seq::empty(), path) =~= Seq::empty());
}

// ---------------------------------------------------------------------------
// Listing
// ---------------------------------------------------------------------------

/// Whether an error number says that a listing cannot be had.
pub fn directory_listing_unavailable(number: i32) -> (yes: bool)
    ensures
        yes == unavailable(number),
{
    number == errno::enoent() || number == errno::eio()
}

/// The entries that a directory has in every mount.
pub fn deterministic_directory_entries(parsed: &JetStreamPath) -> (entries: Vec<DirectoryEntry>)
    ensures
        listing(entries@) == fixed_entries(parsed@),
{
    let mut entries: Vec<DirectoryEntry> = Vec::new();
    if let JetStreamPath::KvBucket { .. } = parsed {
        entries.push(
            DirectoryEntry { name: ".history".to_owned(), kind: EntryKind::Directory },
        );
    }
    assert(listing(entries@) =~= fixed_entries(parsed@));
    entries
}

fn stored_at(inquiry: &mut Inquiry, path: &MountPath) -> (result: Result<
    Option<Vec<DirectoryEntry>>,
    Pause,
>)
    ensures
        ({
            let (durable, talk) = durable_at(old(inquiry)@, path@);
            &&& final(inquiry)@ == talk
            &&& match (result, durable) {
                (Ok(Some(entries)), Ok(Some(expected))) => listing(entries@) == expected,
                (Ok(None), Ok(None)) => true,
                (Err(pause), Err(stop)) => pause@ == stop,
                _ => false,
            }
        }),
{
    match JetStreamPath::parse(path.as_str()) {
        Err(_) => Ok(None),
        Ok(parsed) => match durable_directory_entries(inquiry, &parsed) {
            Ok(entries) => Ok(Some(entries)),
            Err(Pause::Fail(_)) => Ok(None),
            Err(Pause::Ask(request)) => Err(Pause::Ask(request)),
        },
    }
}

fn queued_directory_child_has_exact_dynamic_file(inquiry: &mut Inquiry, path: &MountPath) -> (result:
    Result<bool, Pause>)
    ensures
        (plain_outcome(result), final(inquiry)@) == is_exact_file(old(inquiry)@, path@),
{
    match JetStreamPath::parse(path.as_str()) {
        Err(_) => Ok(false),
        Ok(parsed) => match exact_dynamic_file_exists(inquiry, &parsed) {
            Ok(file) => Ok(file),
            Err(Pause::Fail(_)) => Ok(false),
            Err(Pause::Ask(request)) => Err(Pause::Ask(request)),
        },
    }
}

/// Whether a directory shows anything, where a listing that fails shows nothing.
pub fn queued_directory_child_has_known_visible_entries(
    inquiry: &mut Inquiry,
    overlay: &QueuedOverlayProjection,
    path: &MountPath,
) -> (result: Result<bool, Pause>)
    ensures
        (plain_outcome(result), final(inquiry)@) == known_visible(
            old(inquiry)@,
            overlay@,
            path@,
        ),
    decreases depth_below(overlay@, path@), 1int,
{
    let mut entries = match stored_at(inquiry, path)? {
        Some(entries) => entries,
        None => {
            let none: Vec<DirectoryEntry> = Vec::new();
            assert(listing(none@) =~= Seq::empty());
            none
        },
    };
    apply_queued_overlay_to_directory(inquiry, overlay, path, &mut entries)?;
    assert(listing(entries@).len() == entries@.len());
    Ok(entries.len() > 0)
}

/// Whether a directory may show anything, where a listing that fails may.
pub fn queued_directory_child_has_visible_entries(
    inquiry: &mut Inquiry,
    overlay: &QueuedOverlayProjection,
    path: &MountPath,
) -> (result: Result<bool, Pause>)
    ensures
        (plain_outcome(result), final(inquiry)@) == maybe_visible(
            old(inquiry)@,
            overlay@,
            path@,
        ),
    decreases depth_below(overlay@, path@), 1int,
{
    let mut entries = match stored_at(inquiry, path)? {
        Some(entries) => entries,
        None => {
            return Ok(true);
        },
    };
    apply_queued_overlay_to_directory(inquiry, overlay, path, &mut entries)?;
    assert(listing(entries@).len() == entries@.len());
    Ok(entries.len() > 0)
}

/// The path of a child that a removed path lies at or below.
fn removed_child_path(path: &MountPath, name: &str) -> (child: MountPath)
    requires
        !bad_mount_component(name@),
    ensures
        child@ == path@.push(name@),
{
    let child = path.join_child(name);
    proof {
        law_parent_and_child(path@, name@);
    }
    match child {
        Ok(child) => child,
        Err(_) => MountPath::root(),
    }
}

/// Lays the queued writes over the entries of a directory.
pub fn apply_queued_overlay_to_directory(
    inquiry: &mut Inquiry,
    overlay: &QueuedOverlayProjection,
    path: &MountPath,
    entries: &mut Vec<DirectoryEntry>,
) -> (result: Result<(), Pause>)
    ensures
        ({
            let (shown, talk) = overlaid_from(
                old(inquiry)@,
                overlay@,
                0,
                path@,
                listing(old(entries)@),
            );
            &&& final(inquiry)@ == talk
            &&& match (result, shown) {
                (Ok(()), Ok(expected)) => listing(final(entries)@) == expected,
                (Err(pause), Err(stop)) => pause@ == stop,
                _ => false,
            }
        }),
    decreases depth_below(overlay@, path@), 0int,
{
    let ghost facts = overlay@;
    let ghost start = inquiry@;
    let ghost first = listing(entries@);
    let mut f: usize = 0;
    while f < overlay.facts.len()
        invariant
            f <= overlay.facts.len(),
            facts == overlay@,
            facts.len() == overlay.facts.len(),
            overlaid_from(start, facts, 0, path@, first) == overlaid_from(
                inquiry@,
                facts,
                f as nat,
                path@,
                listing(entries@),
            ),
            start == old(inquiry)@,
            first == listing(old(entries)@),
        decreases overlay.facts.len() - f,
    {
        let fact = &overlay.facts[f];
        assert(facts[f as int] == fact@);
        let ghost here = inquiry@;
        let ghost before = listing(entries@);
        let mut k: usize = 0;
        while k < fact.deleted_paths.len()
            invariant
                k <= fact.deleted_paths.len(),
                f < overlay.facts.len(),
                facts == overlay@,
                facts.len() == overlay.facts.len(),
                facts[f as int] == fact@,
                facts[f as int].deleted.len() == fact.deleted_paths.len(),
                start == old(inquiry)@,
                first == listing(old(entries)@),
                overlaid_from(start, facts, 0, path@, first) == overlaid_from(
                    here,
                    facts,
                    f as nat,
                    path@,
                    before,
                ),
                deleted_from(here, facts, f as nat, 0, path@, before) == deleted_from(
                    inquiry@,
                    facts,
                    f as nat,
                    k as nat,
                    path@,
                    listing(entries@),
                ),
            decreases fact.deleted_paths.len() - k,
        {
            let removed = &fact.deleted_paths[k];
            assert(facts[f as int].deleted[k as int] == removed@);
            if let Some(child) = QueuedOverlayProjection::directory_child(path, removed) {
                proof {
                    lemma_child_is_deeper(facts, f as int, k as int, path@);
                }
                let below = removed_child_path(path, child.name.as_str());
                match child.kind {
                    EntryKind::File => {
                        let reveals = QueuedOverlayProjection::delete_can_elide_directory_child(
                            &below,
                        ) && queued_directory_child_has_known_visible_entries(
                            inquiry,
                            overlay,
                            &below,
                        )?;
                        if reveals {
                            insert_directory_entry_sorted(
                                entries,
                                DirectoryEntry { name: child.name, kind: EntryKind::Directory },
                            );
                        } else {
                            remove_directory_entry(entries, child.name.as_str());
                        }
                    },
                    EntryKind::Directory => {
                        let stays = if !QueuedOverlayProjection::delete_can_elide_directory_child(
                            &below,
                        ) || directory_entries_contain_exact_file(
                            entries.as_slice(),
                            child.name.as_str(),
                        ) {
                            true
                        } else if queued_directory_child_has_exact_dynamic_file(inquiry, &below)? {
                            true
                        } else {
                            queued_directory_child_has_visible_entries(inquiry, overlay, &below)?
                        };
                        if !stays {
                            remove_directory_entry(entries, child.name.as_str());
                        }
                    },
                }
            }
            k += 1;
        }
        insert_children(entries, path, fact.visible_paths.as_slice());
        f += 1;
    }
    Ok(())
}

fn add_entries_in_order(entries: &mut Vec<DirectoryEntry>, more: Vec<DirectoryEntry>)
    ensures
        listing(final(entries)@) == with_entries_in_order(
            listing(old(entries)@),
            listing(more@),
        ),
{
    let ghost before = listing(entries@);
    let ghost models = listing(more@);
    let mut i: usize = 0;
    assert(models.take(0) =~= Seq::empty());
    while i < more.len()
        invariant
            i <= more.len(),
            models == listing(more@),
            listing(entries@) == with_entries_in_order(before, models.take(i as int)),
        decreases more.len() - i,
    {
        let ghost upto = models.take(i + 1);
        assert(upto.drop_last() =~= models.take(i as int));
        assert(upto.last() == more@[i as int]@);
        insert_directory_entry_sorted(entries, more[i].clone());
        i += 1;
    }
    assert(models.take(models.len() as int) =~= models);
}

fn add_entries(entries: &mut Vec<DirectoryEntry>, more: Vec<DirectoryEntry>)
    ensures
        listing(final(entries)@) == with_entries(listing(old(entries)@), listing(more@)),
{
    let ghost before = listing(entries@);
    let ghost models = listing(more@);
    let mut i: usize = 0;
    assert(models.take(0) =~= Seq::empty());
    while i < more.len()
        invariant
            i <= more.len(),
            models == listing(more@),
            listing(entries@) == with_entries(before, models.take(i as int)),
        decreases more.len() - i,
    {
        let ghost upto = models.take(i + 1);
        assert(upto.drop_last() =~= models.take(i as int));
        assert(upto.last() == more@[i as int]@);
        insert_directory_entry(entries, more[i].clone());
        i += 1;
    }
    assert(models.take(models.len() as int) =~= models);
}

/// A directory's entries as the mount shows them.
pub fn merge_queued_directory_entries(
    inquiry: &mut Inquiry,
    overlay: &QueuedOverlayProjection,
    parsed: &JetStreamPath,
    path: &MountPath,
    stored: Result<Vec<DirectoryEntry>, Pause>,
) -> (result: Result<Vec<DirectoryEntry>, Pause>)
    ensures
        (entries_outcome(result), final(inquiry)@) == merged(
            old(inquiry)@,
            overlay@,
            parsed@,
            path@,
            entries_outcome(stored),
        ),
{
    let local = deterministic_directory_entries(parsed);
    let queued = overlay.directory_entries(path);
    assert(listing(queued@).len() == queued@.len());
    match stored {
        Ok(stored) => {
            let mut entries = stored;
            add_entries_in_order(&mut entries, local);
            add_entries(&mut entries, queued);
            apply_queued_overlay_to_directory(inquiry, overlay, path, &mut entries)?;
            Ok(entries)
        },
        Err(Pause::Fail(number)) => {
            if !directory_listing_unavailable(number) || queued.len() == 0 {
                return Err(Pause::Fail(number));
            }
            let mut entries = local;
            add_entries_in_order(&mut entries, queued);
            apply_queued_overlay_to_directory(inquiry, overlay, path, &mut entries)?;
            Ok(entries)
        },
        Err(pause) => Err(pause),
    }
}

/// The entries of the directory at a mount path.
pub fn directory_entries(
    inquiry: &mut Inquiry,
    overlay: &QueuedOverlayProjection,
    path: &MountPath,
) -> (result: Result<Vec<DirectoryEntry>, Pause>)
    ensures
        (entries_outcome(result), final(inquiry)@) == shown_entries(
            old(inquiry)@,
            overlay@,
            path@,
        ),
{
    apply_pending_watch_events(inquiry)?;
    let parsed = match JetStreamPath::parse(path.as_str()) {
        Ok(parsed) => parsed,
        Err(error) => {
            return Err(Pause::Fail(error.errno().get()));
        },
    };
    let stored = durable_directory_entries(inquiry, &parsed);
    merge_queued_directory_entries(inquiry, overlay, &parsed, path, stored)
}

/// Whether a directory is gone because the queue removes what was below it.
pub fn queued_deleted_descendant_empties_synthetic_directory(
    inquiry: &mut Inquiry,
    overlay: &QueuedOverlayProjection,
    path: &MountPath,
    parsed: &JetStreamPath,
) -> (result: Result<bool, Pause>)
    ensures
        (plain_outcome(result), final(inquiry)@) == emptied(
            old(inquiry)@,
            overlay@,
            parsed@,
            path@,
        ),
{
    if !overlay.has_deleted_descendant(path) {
        return Ok(false);
    }
    let file = exact_dynamic_file_exists(inquiry, parsed)?;
    let visible = queued_directory_child_has_visible_entries(inquiry, overlay, path)?;
    Ok(
        QueuedOverlayProjection::deleted_descendant_empties_synthetic_directory(
            parsed,
            file,
            visible,
        ),
    )
}

/// Whether a path that the queue removes still shows as a directory.
pub fn queued_exact_delete_reveals_synthetic_directory(
    inquiry: &mut Inquiry,
    overlay: &QueuedOverlayProjection,
    path: &MountPath,
    parsed: &JetStreamPath,
) -> (result: Result<bool, Pause>)
    ensures
        (plain_outcome(result), final(inquiry)@) == revealed(
            old(inquiry)@,
            overlay@,
            parsed@,
            path@,
        ),
{
    let visible = queued_directory_child_has_known_visible_entries(inquiry, overlay, path)?;
    Ok(QueuedOverlayProjection::exact_delete_reveals_synthetic_directory(parsed, visible))
}

} // verus!
