//! What the kernel is told: attributes, listings and refusals say what the mount has, and
//! paths become stale and fresh as they should.

use vstd::prelude::*;

use crate::adapter::{
    attr_change, children_told, cut_attr, directory_told, inode_kind, inode_of,
    law_listings_keep_names_and_kinds, options_for, or_placeholder, parent_inode, shown_attr,
    stale_once_told, told, told_attr, with_parent, ReplyEntry, ReplyRow, SetattrMetadataFields,
    SetattrStep,
};
use crate::affected::stale_for_path;
use crate::attr::{FileAttr, FileType, StableOwner};
use crate::documents::{
    cache_fields, capability_fields, error_lines, metadata_document, object_rendering,
    status_fields, FieldModel, FieldValue, MountStatus,
};
use crate::entries::{sequence_of, DirectoryEntry, Entry, EntryKind};
use crate::errno;
use crate::handles::{created_attr, Session};
use crate::inquiry::{Pause, Stop, Talk};
use crate::keys::rename_material;
use crate::kinds::{HandleMode, RuntimeAttr};
use crate::mount_paths::{child_path, descends, mount_text, parent_of, Components};
use crate::numbers::{decimal, law_number_round_trip};
use crate::overlay::Fact;
use crate::path::{JetStreamPath, MetadataFile};
use crate::path_cache::{
    consistent, ensured, law_inodes_are_stable, law_inodes_stay_unique, path_of, row_at, Row,
    Table, ROOT_INO,
};
use crate::stale::{known, locally_stale, stale_after, InvalidationAction, InvalidationScope};
use crate::text::{join, Text};
use crate::upkeep::gate_passed;
use crate::versions::{Time, VersionStamp};

verus! {

// ---------------------------------------------------------------------------
// Requests
// ---------------------------------------------------------------------------

/// A change of attributes is refused where it is about anything but the size, or sets a
/// size other than nothing. What is cut to nothing is the open file where one is named,
/// and otherwise the path. Without a change the attributes are only told.
pub proof fn law_files_can_only_be_cut_to_nothing(
    fields: SetattrMetadataFields,
    size: Option<u64>,
    fh: Option<u64>,
)
    ensures
        ({
            let step = attr_change(fields, size, fh);
            let nothing_else = fields == (SetattrMetadataFields {
                mode: false,
                uid: false,
                gid: false,
                atime: false,
                mtime: false,
                ctime: false,
                crtime: false,
                chgtime: false,
                bkuptime: false,
                flags: false,
            });
            &&& step is Refuse <==> !nothing_else || (size matches Some(size) && size > 0)
            &&& step is Refuse ==> step == SetattrStep::Refuse(errno::ENOTSUP)
            &&& step is Report <==> nothing_else && size is None
            &&& step is TruncatePath <==> nothing_else && size == Some(0u64) && fh is None
            &&& forall|n: u64|
                step == SetattrStep::TruncateHandle(n) <==> nothing_else && size == Some(0u64) && fh
                    == Some(n)
        }),
{
}

/// A file that is made is opened to be written, and never cut. Any other is opened to be
/// written exactly where its access mode says so, and cut exactly where it is written and
/// its flags say so.
pub proof fn law_files_are_opened_as_the_flags_say(flags: i32, create: bool)
    ensures
        ({
            let options = options_for(flags, create);
            &&& options.create == create
            &&& create ==> options.writable && !options.truncate
            &&& !create ==> {
                &&& options.writable <==> flags & 3 != 0
                &&& options.truncate <==> flags & 3 != 0 && flags & 0o1000 != 0
            }
        }),
{
}

// ---------------------------------------------------------------------------
// Attributes
// ---------------------------------------------------------------------------

/// The attributes of a path show its kind, its inode and its version; the permission bits
/// are the given ones, or those of every file or directory.
pub proof fn law_shown_attributes_are_those_of_the_path(
    table: Table,
    path: Components,
    attr: RuntimeAttr,
    perm: Option<u16>,
    owner: StableOwner,
)
    ensures
        ({
            let shown = shown_attr(table, path, attr, perm, owner);
            &&& shown.kind == FileType::Directory <==> attr.kind == EntryKind::Directory
            &&& row_at(table.rows, path) matches Some(row) ==> shown.ino == row.ino
            &&& row_at(table.rows, path) is None ==> shown.ino == table.next
            &&& shown.size == attr.size
            &&& shown.mtime == attr.version.modified && shown.crtime == attr.version.created
            &&& perm matches Some(perm) ==> shown.perm == perm
            &&& perm is None && attr.kind == EntryKind::Directory ==> shown.perm == 0o755
            &&& perm is None && attr.kind == EntryKind::File ==> shown.perm == 0o644
            &&& shown.nlink == if attr.kind == EntryKind::Directory {
                2u32
            } else {
                1u32
            }
            &&& shown.uid == owner.uid && shown.gid == owner.gid
            &&& shown.rdev == 0 && shown.blksize == 512 && shown.flags == 0
        }),
{
}

/// A path whose attributes were told has the inode that was told, and is fresh. Where they
/// could not be told, no inode is given out.
pub proof fn law_told_paths_have_their_inode(
    table: Table,
    stale: Set<Components>,
    path: Components,
    attr: Result<RuntimeAttr, Stop>,
    perm: Option<u16>,
    owner: StableOwner,
    fresh: bool,
    other: Components,
)
    requires
        consistent(table),
        row_at(table.rows, path) is None ==> table.next < u64::MAX,
    ensures
        ({
            let after = told(table, path, attr);
            match attr {
                Ok(attr) => {
                    &&& told_attr(table, path, Ok(attr), perm, owner) matches Ok(shown)
                        && row_at(after.rows, path) matches Some(row) && row.ino == shown.ino
                        && row.kind == shown.kind && path_of(after.rows, shown.ino) == Some(path)
                    &&& !stale_once_told(stale, path, Ok(attr), fresh).contains(path)
                },
                Err(stop) => {
                    &&& told_attr(table, path, Err(stop), perm, owner) == Err::<FileAttr, Stop>(
                        stop,
                    )
                    &&& after == table
                    &&& stop is Ask ==> stale_once_told(stale, path, Err(stop), fresh) == stale
                },
            }
        }),
        other != path ==> stale_once_told(stale, path, attr, fresh).contains(other)
            == stale.contains(other),
{
    if let Ok(attr) = attr {
        let kind = inode_kind(attr.kind);
        law_inodes_are_stable(table, path, kind, kind, other);
    }
}

/// Where there is nothing yet, a file of a given size stands for it, dated by the mount;
/// everything else is told as it is.
pub proof fn law_placeholders_stand_for_nothing_only(
    attr: Result<RuntimeAttr, Stop>,
    mounted_at: Time,
    size: u64,
)
    ensures
        ({
            let shown = or_placeholder(attr, mounted_at, size);
            &&& attr == Err::<RuntimeAttr, Stop>(Pause::Fail(errno::ENOENT)) ==> (
            shown matches Ok(file) && file.kind == EntryKind::File && file.size == size
                && file.version == VersionStamp::of(mounted_at))
            &&& attr != Err::<RuntimeAttr, Stop>(Pause::Fail(errno::ENOENT)) ==> shown == attr
        }),
{
}

/// An open file that is cut is told to be empty, and is: it keeps its kind and version, and
/// is to be committed. Where it is no file that can be cut, nothing is told.
pub proof fn law_cut_files_are_told_empty(
    session: Session,
    talk: Talk,
    facts: Seq<Fact>,
    status: MountStatus,
    mounted_at: Time,
    stale: Set<Components>,
    rows: Seq<Row>,
    fh: u64,
    path: Components,
)
    ensures
        ({
            let ((before, asked), _) = created_attr(
                session,
                talk,
                facts,
                status,
                mounted_at,
                stale,
                rows,
                fh,
                path,
            );
            let (((result, _), _), after) = cut_attr(
                session,
                talk,
                facts,
                status,
                mounted_at,
                stale,
                rows,
                fh,
                path,
            );
            &&& before matches Err(stop) ==> result == Err::<RuntimeAttr, Stop>(stop) && after
                == session
            &&& result matches Ok(attr) ==> {
                &&& before matches Ok(known) && attr.kind == known.kind && attr.version
                    == known.version
                &&& attr.size == 0
                &&& gate_passed(asked).0 is Ok
                &&& after.files.dom().contains(fh) && after.files[fh].buffer.len() == 0
                &&& after.files[fh].dirty && !after.files[fh].committed
                &&& session.files[fh].writable && session.files[fh].mode == HandleMode::WholeValue
            }
            &&& before is Ok && gate_passed(asked).0 is Ok && session.files[fh].writable
                && session.files[fh].mode == HandleMode::WholeValue ==> result is Ok
        }),
{
}

// ---------------------------------------------------------------------------
// Listings
// ---------------------------------------------------------------------------

/// A listing begins with the directory itself and the directory that it lies in; the root
/// lies in itself.
pub proof fn law_listings_begin_with_itself_and_above(
    table: Table,
    stale: Set<Components>,
    path: Components,
    ino: u64,
    entries: Seq<Entry>,
)
    ensures
        directory_told(table, stale, path, ino, entries).rows matches Ok(rows) ==> {
            &&& rows.len() == entries.len() + 2
            &&& rows[0] == (ReplyEntry { ino, kind: FileType::Directory, name: "."@ })
            &&& rows[1].kind == FileType::Directory && rows[1].name == ".."@
            &&& path.len() == 0 ==> rows[1].ino == ROOT_INO
            &&& path.len() > 0 ==> (row_at(table.rows, parent_of(path)) matches Some(row)
                ==> rows[1].ino == row.ino)
            &&& forall|i: int|
                #![trigger entries[i]]
                0 <= i < entries.len() ==> rows[i + 2].name == entries[i].name && rows[i + 2].kind
                    == inode_kind(entries[i].kind)
        },
{
    let first: Seq<ReplyRow> = seq![
        ReplyEntry { ino, kind: FileType::Directory, name: "."@ },
        ReplyEntry {
            ino: parent_inode(table, path),
            kind: FileType::Directory,
            name: ".."@,
        },
    ];
    let fresh = if path.len() == 0 {
        stale
    } else {
        stale.remove(parent_of(path))
    };
    law_listings_keep_names_and_kinds(
        with_parent(table, path),
        fresh,
        path,
        entries,
        first,
    );
    if let Ok(rows) = directory_told(table, stale, path, ino, entries).rows {
        assert(rows[0] == first[0] && rows[1] == first[1]);
        assert forall|i: int|
            #![trigger entries[i]]
            0 <= i < entries.len() implies rows[i + 2].name == entries[i].name && rows[i + 2].kind
            == inode_kind(entries[i].kind) by {
            assert(rows[first.len() + i].name == entries[i].name);
        }
    }
}

/// Inodes that were there before a listing stay with their paths.
proof fn lemma_listing_keeps_inodes(
    table: Table,
    stale: Set<Components>,
    path: Components,
    entries: Seq<Entry>,
    rows: Seq<ReplyRow>,
    other: Components,
)
    requires
        consistent(table),
        table.next + entries.len() <= u64::MAX,
    ensures
        ({
            let after = children_told(table, stale, path, entries, rows).table;
            row_at(table.rows, other) matches Some(row) ==> (row_at(after.rows, other) matches Some(
                now,
            ) && now.ino == row.ino)
        }),
    decreases entries.len(),
{
    if entries.len() > 0 {
        if let Ok(child) = child_path(path, entries[0].name) {
            let kind = inode_kind(entries[0].kind);
            let more = rows.push(
                ReplyEntry { ino: inode_of(table, child), kind, name: entries[0].name },
            );
            law_inodes_stay_unique(table, child, kind);
            law_inodes_are_stable(table, child, kind, kind, other);
            lemma_listing_keeps_inodes(
                ensured(table, child, kind),
                stale.remove(child),
                path,
                entries.drop_first(),
                more,
                other,
            );
        }
    }
}

/// Every entry of a listing is told with the inode that its path has then, and its path is
/// fresh.
pub proof fn law_listed_children_have_their_inodes(
    table: Table,
    stale: Set<Components>,
    path: Components,
    entries: Seq<Entry>,
    rows: Seq<ReplyRow>,
    i: int,
)
    requires
        consistent(table),
        table.next + entries.len() <= u64::MAX,
        0 <= i < entries.len(),
    ensures
        ({
            let listed = children_told(table, stale, path, entries, rows);
            listed.rows matches Ok(all) ==> (child_path(path, entries[i].name) matches Ok(child) && {
                &&& row_at(listed.table.rows, child) matches Some(row) && row.ino == all[rows.len()
                    + i].ino
                &&& !listed.stale.contains(child)
            })
        }),
    decreases entries.len(),
{
    if let Ok(child) = child_path(path, entries[0].name) {
        let kind = inode_kind(entries[0].kind);
        let more = rows.push(
            ReplyEntry { ino: inode_of(table, child), kind, name: entries[0].name },
        );
        let rest = entries.drop_first();
        let next = ensured(table, child, kind);
        law_inodes_stay_unique(table, child, kind);
        if i > 0 {
            law_listed_children_have_their_inodes(
                next,
                stale.remove(child),
                path,
                rest,
                more,
                i - 1,
            );
        } else {
            law_inodes_are_stable(table, child, kind, kind, child);
            lemma_listing_keeps_inodes(next, stale.remove(child), path, rest, more, child);
            law_listings_keep_names_and_kinds(
                next,
                stale.remove(child),
                path,
                rest,
                more,
            );
            lemma_listing_only_refreshes(next, stale.remove(child), path, rest, more, child);
            if let Ok(all) = children_told(table, stale, path, entries, rows).rows {
                assert(all[rows.len() as int] == more[rows.len() as int]);
            }
        }
    }
}

/// A listing makes no path stale.
proof fn lemma_listing_only_refreshes(
    table: Table,
    stale: Set<Components>,
    path: Components,
    entries: Seq<Entry>,
    rows: Seq<ReplyRow>,
    other: Components,
)
    ensures
        children_told(table, stale, path, entries, rows).stale.contains(other) ==> stale.contains(
            other,
        ),
    decreases entries.len(),
{
    if entries.len() > 0 {
        if let Ok(child) = child_path(path, entries[0].name) {
            let kind = inode_kind(entries[0].kind);
            lemma_listing_only_refreshes(
                ensured(table, child, kind),
                stale.remove(child),
                path,
                entries.drop_first(),
                rows.push(ReplyEntry { ino: inode_of(table, child), kind, name: entries[0].name }),
                other,
            );
        }
    }
}

/// A path that no entry of a listing stands for is as stale as it was.
pub proof fn law_listings_leave_other_paths_as_they_are(
    table: Table,
    stale: Set<Components>,
    path: Components,
    entries: Seq<Entry>,
    rows: Seq<ReplyRow>,
    other: Components,
)
    requires
        forall|i: int|
            #![trigger entries[i]]
            0 <= i < entries.len() ==> !(child_path(path, entries[i].name) matches Ok(child)
                && child == other),
    ensures
        children_told(table, stale, path, entries, rows).stale.contains(other) == stale.contains(
            other,
        ),
    decreases entries.len(),
{
    if entries.len() > 0 {
        assert(entries[0] == entries[0int]);
        if let Ok(child) = child_path(path, entries[0].name) {
            let kind = inode_kind(entries[0].kind);
            let rest = entries.drop_first();
            assert forall|i: int|
                #![trigger rest[i]]
                0 <= i < rest.len() implies !(child_path(path, rest[i].name) matches Ok(child)
                && child == other) by {
                assert(rest[i] == entries[i + 1]);
            }
            law_listings_leave_other_paths_as_they_are(
                ensured(table, child, kind),
                stale.remove(child),
                path,
                rest,
                rows.push(ReplyEntry { ino: inode_of(table, child), kind, name: entries[0].name }),
                other,
            );
        }
    }
}

// ---------------------------------------------------------------------------
// Stale paths
// ---------------------------------------------------------------------------

/// An invalidation makes stale, of the paths that have an inode, the path itself, the path
/// and all below it, or all, as far as it reaches; never the root, and no other path.
pub proof fn law_invalidations_reach_as_far_as_they_say(
    stale: Set<Components>,
    rows: Seq<Row>,
    action: InvalidationAction,
    path: Components,
)
    ensures
        ({
            let after = stale_after(stale, rows, seq![action]);
            let has_inode = row_at(rows, path) is Some;
            let touched = match action.scope {
                InvalidationScope::ExactEntry => path == action.path@,
                InvalidationScope::Subtree => path == action.path@ || descends(path, action.path@),
                InvalidationScope::All => true,
            };
            after.contains(path) <==> stale.contains(path) || (has_inode && path.len() > 0
                && touched)
        }),
{
    let actions = seq![action];
    assert(actions.drop_last() =~= Seq::empty());
    reveal_with_fuel(stale_after, 2);
    lemma_known(rows, path);
}

proof fn lemma_known(rows: Seq<Row>, path: Components)
    ensures
        known(rows, path) <==> row_at(rows, path) is Some,
    decreases rows.len(),
{
    if rows.len() > 0 {
        let rest = rows.drop_first();
        lemma_known(rest, path);
        if known(rows, path) && rows[0].path != path {
            let i = choose|i: int| 0 <= i < rows.len() && (#[trigger] rows[i]).path == path;
            assert(rest[i - 1].path == path);
        }
        if known(rest, path) {
            let i = choose|i: int| 0 <= i < rest.len() && (#[trigger] rest[i]).path == path;
            assert(rows[i + 1].path == path);
        }
        assert(rows[0] == rows[0int]);
    }
}

/// Invalidations one after another make stale what each of them makes stale.
pub proof fn law_invalidations_add_up(
    stale: Set<Components>,
    rows: Seq<Row>,
    first: Seq<InvalidationAction>,
    second: Seq<InvalidationAction>,
)
    ensures
        stale_after(stale, rows, first + second) == stale_after(
            stale_after(stale, rows, first),
            rows,
            second,
        ),
    decreases second.len(),
{
    let all = first + second;
    if second.len() == 0 {
        assert(all =~= first);
    } else {
        assert(all.drop_last() =~= first + second.drop_last());
        law_invalidations_add_up(stale, rows, first, second.drop_last());
    }
}

/// A change of what a path shows makes stale every path that the change is known to touch,
/// in their order; where that cannot be told, it is the path alone.
pub proof fn law_local_changes_reach_the_affected_paths(path: Components)
    ensures
        match JetStreamPath::parsed(mount_text(path)) {
            Ok(parsed) => match stale_for_path(parsed) {
                Ok(paths) => {
                    &&& locally_stale(path).len() == paths.len()
                    &&& forall|i: int|
                        0 <= i < paths.len() ==> #[trigger] locally_stale(path)[i] == mount_text(
                            paths[i].path,
                        )
                },
                Err(_) => locally_stale(path) == seq![mount_text(path)],
            },
            Err(_) => locally_stale(path) == seq![mount_text(path)],
        },
{
}

// ---------------------------------------------------------------------------
// The mount's own files
// ---------------------------------------------------------------------------

/// Whether fields say something of a name.
pub open spec fn says(fields: Seq<(Text, FieldModel)>, name: Text, value: FieldModel) -> bool {
    exists|i: int| 0 <= i < fields.len() && #[trigger] fields[i] == (name, value)
}

/// The mount's own files say what the mount is at: whether it takes writes, how many wait
/// in the queue, how many paths and files it knows, and which errors it keeps.
pub proof fn law_own_files_say_what_the_mount_is_at(
    status: MountStatus,
    errors: Seq<Text>,
)
    ensures
        ({
            let fields = status_fields(status);
            &&& fields.len() == 4
            &&& says(fields, "mount_name"@, FieldValue::Text(status.mount_name@))
            &&& says(fields, "queue_pending"@, FieldValue::Number(status.queue_pending))
            &&& says(fields, "writes_blocked"@, FieldValue::Flag(status.writes_blocked))
            &&& status.writes_blocked ==> says(fields, "state"@, FieldValue::Text("read_only"@))
            &&& !status.writes_blocked ==> says(fields, "state"@, FieldValue::Text("mounted"@))
        }),
        ({
            let fields = cache_fields(status);
            &&& fields.len() == 3
            &&& says(fields, "path_entries"@, FieldValue::Number(status.path_entries))
            &&& says(fields, "entries"@, FieldValue::Number(status.cached_files))
            &&& says(fields, "generation"@, FieldValue::Number(status.cache_generation))
        }),
        metadata_document(status, errors, MetadataFile::Status) == vstd::utf8::encode_utf8(
            object_rendering(status_fields(status)),
        ),
        metadata_document(status, errors, MetadataFile::Cache) == vstd::utf8::encode_utf8(
            object_rendering(cache_fields(status)),
        ),
        metadata_document(status, errors, MetadataFile::Queue) == vstd::utf8::encode_utf8(
            status.queue_document@,
        ),
        metadata_document(status, errors, MetadataFile::Capabilities) == vstd::utf8::encode_utf8(
            object_rendering(capability_fields()),
        ),
        metadata_document(status, errors, MetadataFile::Errors) == vstd::utf8::encode_utf8(
            join(error_lines(errors), '\n'),
        ),
        error_lines(errors).len() == errors.len(),
        forall|i: int|
            0 <= i < errors.len() ==> #[trigger] error_lines(errors)[i] == object_rendering(
                seq![("error"@, FieldValue::Text(errors[i]))],
            ),
{
    let status_list = status_fields(status);
    assert(status_list[0] == status_list[0int] && status_list[1] == status_list[1int]
        && status_list[2] == status_list[2int] && status_list[3] == status_list[3int]);
    let cache_list = cache_fields(status);
    assert(cache_list[0] == cache_list[0int] && cache_list[1] == cache_list[1int] && cache_list[2]
        == cache_list[2int]);
}

// ---------------------------------------------------------------------------
// Numbers in names
// ---------------------------------------------------------------------------

/// The file of a message is known by its number: every number gives a name that leads back
/// to it, and a directory never does.
pub proof fn law_message_files_are_numbered(sequence: u64, entry: Entry)
    ensures
        sequence_of(
            DirectoryEntry { name: decimal(sequence as nat) + ".json"@, kind: EntryKind::File },
        ) == Some(sequence),
        entry.kind == EntryKind::Directory ==> sequence_of(entry) is None,
{
    let stem = decimal(sequence as nat);
    let name = stem + ".json"@;
    assert(name.subrange(name.len() - ".json"@.len(), name.len() as int) =~= ".json"@);
    assert(name.take(name.len() - ".json"@.len()) =~= stem);
    law_number_round_trip(sequence);
}

/// What the key of a move is made of ends in what is moved: other bytes give other
/// material.
pub proof fn law_moves_of_other_content_have_other_keys(
    from: Text,
    generation: u64,
    bytes: Seq<u8>,
    more: Seq<u8>,
)
    ensures
        bytes != more ==> rename_material(from, generation, bytes) != rename_material(
            from,
            generation,
            more,
        ),
        rename_material(from, generation, bytes).len() >= bytes.len(),
        rename_material(from, generation, bytes).skip(
            rename_material(from, generation, bytes).len() - bytes.len(),
        ) == bytes,
{
    let head = vstd::utf8::encode_utf8(from) + seq![0u8] + vstd::utf8::encode_utf8(
        decimal(generation as nat),
    ) + seq![0u8];
    let one = rename_material(from, generation, bytes);
    let two = rename_material(from, generation, more);
    assert(one =~= head + bytes);
    assert(two =~= head + more);
    assert(one.skip(head.len() as int) =~= bytes);
    assert(two.skip(head.len() as int) =~= more);
}

} // verus!
