//! What the kernel is told: attributes with inodes, directory listings, windows into
//! files, and the meaning of flags.

use vstd::prelude::*;

use crate::attr::{
    blocks_for, build_attr, FileAttr, FileType, StableOwner, StableTimestamps,
};
use crate::documents::MountStatus;
use crate::entries::{listing, DirectoryEntry, Entry, EntryKind};
use crate::errno;
use crate::files::MountView;
use crate::handles::{
    created_attr, truncate_staged, Handles, RuntimeHandleId, RuntimeOpenOptions, Session,
};
use crate::inquiry::{plain_outcome, Inquiry, Pause, Step, Stop, Talk};
use crate::kinds::{attr, attr_of, refreshed, settled, RuntimeAttr};
use crate::mount_paths::{child_path, parent_of, Components, MountPath};
use crate::overlay::Fact;
use crate::path_cache::{ensured, path_of, row_at, PathCache, Row, Table, ROOT_INO};
use crate::stale::PathSet;
use crate::text::{concat2, concat3, Text};
use crate::versions::{Time, VersionStamp};

verus! {

/// The permission bits of directories where none are asked for.
pub const DIRECTORY_PERM: u16 = 0o755;

/// The permission bits of files where none are asked for.
pub const FILE_PERM: u16 = 0o644;

// ---------------------------------------------------------------------------
// Flags
// ---------------------------------------------------------------------------

/// Which attributes besides the size are to be changed.
#[derive(Clone, Copy, Debug, PartialEq, Eq, Structural)]
pub struct SetattrMetadataFields {
    pub mode: bool,
    pub uid: bool,
    pub gid: bool,
    pub atime: bool,
    pub mtime: bool,
    pub ctime: bool,
    pub crtime: bool,
    pub chgtime: bool,
    pub bkuptime: bool,
    pub flags: bool,
}

impl Default for SetattrMetadataFields {
    fn default() -> (fields: Self)
        ensures
            !fields.any(),
    {
        SetattrMetadataFields {
            mode: false,
            uid: false,
            gid: false,
            atime: false,
            mtime: false,
            ctime: false,
            crtime: false,
            chgtime: false,
            bkuptime: false,
            flags: false,
        }
    }
}

impl SetattrMetadataFields {
    /// Whether any attribute besides the size is to be changed.
    pub open spec fn any(self) -> bool {
        self.mode || self.uid || self.gid || self.atime || self.mtime || self.ctime || self.crtime
            || self.chgtime || self.bkuptime || self.flags
    }

    /// Whether any attribute besides the size is to be changed.
    pub fn requested(self) -> (yes: bool)
        ensures
            yes == self.any(),
    {
        self.mode || self.uid || self.gid || self.atime || self.mtime || self.ctime || self.crtime
            || self.chgtime || self.bkuptime || self.flags
    }
}

/// What a change of attributes comes to.
#[derive(Clone, Copy, Debug, PartialEq, Eq, Structural)]
pub enum SetattrStep {
    Refuse(i32),
    TruncateHandle(u64),
    TruncatePath,
    Report,
}

/// What a change of attributes comes to: files can only be cut to nothing, and no other
/// attribute can be changed.
pub open spec fn attr_change(
    fields: SetattrMetadataFields,
    size: Option<u64>,
    fh: Option<u64>,
) -> SetattrStep {
    if fields.any() {
        SetattrStep::Refuse(errno::ENOTSUP)
    } else {
        match (size, fh) {
            (None, _) => SetattrStep::Report,
            (Some(size), _) if size != 0 => SetattrStep::Refuse(errno::ENOTSUP),
            (Some(_), Some(fh)) => SetattrStep::TruncateHandle(fh),
            (Some(_), None) => SetattrStep::TruncatePath,
        }
    }
}

/// What a change of attributes comes to.
pub fn setattr_step(fields: SetattrMetadataFields, size: Option<u64>, fh: Option<u64>) -> (step:
    SetattrStep)
    ensures
        step == attr_change(fields, size, fh),
{
    if fields.requested() {
        return SetattrStep::Refuse(errno::enotsup());
    }
    match size {
        None => SetattrStep::Report,
        Some(size) => {
            if size != 0 {
                return SetattrStep::Refuse(errno::enotsup());
            }
            match fh {
                Some(fh) => SetattrStep::TruncateHandle(fh),
                None => SetattrStep::TruncatePath,
            }
        },
    }
}

/// How a file is to be opened, from the flags that the kernel passes.
pub open spec fn options_for(flags: i32, create: bool) -> RuntimeOpenOptions {
    let writable = create || flags & errno::O_ACCMODE != errno::O_RDONLY;
    RuntimeOpenOptions {
        writable,
        truncate: !create && writable && flags & errno::O_TRUNC != 0,
        create,
    }
}

/// How a file is to be opened, from the flags that the kernel passes.
pub fn runtime_open_options_from_flags(flags: i32, create: bool) -> (options: RuntimeOpenOptions)
    ensures
        options == options_for(flags, create),
{
    let writable = create || flags & errno::o_accmode() != errno::o_rdonly();
    RuntimeOpenOptions {
        writable,
        truncate: !create && writable && flags & errno::o_trunc() != 0,
        create,
    }
}

/// The flags that an opened file is reported with: none, whatever was asked for.
pub fn fuse_open_reply_flags(_request_flags: i32) -> (flags: u32)
    ensures
        flags == 0,
{
    0
}

/// The permission bits of a mode.
pub fn permission_bits(mode: u32) -> (perm: u16)
    ensures
        perm == mode & 0o7777,
{
    assert(mode & 0o7777 <= 0o7777) by (bit_vector);
    (mode & 0o7777) as u16
}

// ---------------------------------------------------------------------------
// Windows
// ---------------------------------------------------------------------------

/// The part of a file that a read asks for, as far as the file goes.
pub open spec fn window(bytes: Seq<u8>, start: nat, size: nat) -> Seq<u8> {
    if start >= bytes.len() {
        Seq::empty()
    } else if start + size <= bytes.len() {
        bytes.subrange(start as int, (start + size) as int)
    } else {
        bytes.skip(start as int)
    }
}

/// The part of a file that a read asks for; `EINVAL` where it begins before the file.
pub fn read_window<'a>(bytes: &'a [u8], offset: i64, size: u32) -> (result: Result<&'a [u8], i32>)
    ensures
        match result {
            Ok(data) => offset >= 0 && data@ == window(bytes@, offset as usize as nat, size as nat),
            Err(number) => offset < 0 && number == errno::EINVAL,
        },
{
    if offset < 0 {
        return Err(errno::einval());
    }
    let start = offset as usize;
    let len = bytes.len();
    if start >= len {
        let nothing = vstd::slice::slice_subrange(bytes, 0, 0);
        assert(nothing@ =~= Seq::empty());
        return Ok(nothing);
    }
    let left = len - start;
    let wanted = size as u64;
    let end = if wanted <= left as u64 {
        start + size as usize
    } else {
        len
    };
    let data = vstd::slice::slice_subrange(bytes, start, end);
    assert(data@ =~= window(bytes@, start as nat, size as nat));
    Ok(data)
}

/// Reading a file window by window gives the whole file.
pub proof fn law_windows_cover_the_file(bytes: Seq<u8>, start: nat, first: nat, second: nat)
    ensures
        window(bytes, start, first) + window(bytes, start + first, second) == window(
            bytes,
            start,
            first + second,
        ),
        window(bytes, 0, bytes.len()) == bytes,
{
    assert(window(bytes, start, first) + window(bytes, start + first, second) =~= window(
        bytes,
        start,
        first + second,
    ));
    assert(window(bytes, 0, bytes.len()) =~= bytes);
}

/// Where a listing goes on.
pub fn listing_start(offset: i64) -> (start: usize)
    ensures
        start == if offset < 0 {
            0usize
        } else {
            offset as usize
        },
{
    if offset < 0 {
        0
    } else {
        offset as usize
    }
}

// ---------------------------------------------------------------------------
// Inodes and attributes
// ---------------------------------------------------------------------------

/// The kind of an inode for the kind of an entry.
pub open spec fn inode_kind(kind: EntryKind) -> FileType {
    match kind {
        EntryKind::Directory => FileType::Directory,
        EntryKind::File => FileType::RegularFile,
    }
}

/// The kind of an inode for the kind of an entry.
pub fn file_type_from_runtime(kind: EntryKind) -> (file_type: FileType)
    ensures
        file_type == inode_kind(kind),
{
    match kind {
        EntryKind::Directory => FileType::Directory,
        EntryKind::File => FileType::RegularFile,
    }
}

/// The inode that a path has or would get.
pub open spec fn inode_of(table: Table, path: Components) -> u64 {
    match row_at(table.rows, path) {
        Some(row) => row.ino,
        None => table.next,
    }
}

/// Whether there is an inode for a path, or one left for it.
pub open spec fn has_inode(table: Table, path: Components) -> bool {
    row_at(table.rows, path) is None ==> table.next < u64::MAX
}

/// The attributes of an inode.
pub open spec fn inode_attr(
    ino: u64,
    kind: FileType,
    perm: u16,
    owner: StableOwner,
    version: VersionStamp,
    size: u64,
) -> FileAttr {
    FileAttr {
        ino,
        size,
        blocks: blocks_for(size) as u64,
        atime: version.modified,
        mtime: version.modified,
        ctime: version.modified,
        crtime: version.created,
        kind,
        perm,
        nlink: if kind == FileType::Directory {
            2
        } else {
            1
        },
        uid: owner.uid,
        gid: owner.gid,
        rdev: 0,
        blksize: 512,
        flags: 0,
    }
}

/// The permission bits that a file is reported with.
pub open spec fn shown_perm(kind: FileType, perm: Option<u16>) -> u16 {
    match perm {
        Some(perm) => perm,
        None => if kind == FileType::Directory {
            DIRECTORY_PERM
        } else {
            FILE_PERM
        },
    }
}

/// The attributes of a path as the kernel is told.
pub open spec fn shown_attr(
    table: Table,
    path: Components,
    attr: RuntimeAttr,
    perm: Option<u16>,
    owner: StableOwner,
) -> FileAttr {
    let kind = inode_kind(attr.kind);
    inode_attr(
        inode_of(table, path),
        kind,
        shown_perm(kind, perm),
        owner,
        attr.version,
        attr.size,
    )
}

/// Every file has the same owner and consistent times: nothing was changed after it was
/// last modified, and a directory has two links.
pub proof fn law_attributes_are_stable(
    table: Table,
    path: Components,
    attr: RuntimeAttr,
    perm: Option<u16>,
    owner: StableOwner,
)
    ensures
        ({
            let shown = shown_attr(table, path, attr, perm, owner);
            &&& shown.uid == owner.uid && shown.gid == owner.gid
            &&& shown.mtime == attr.version.modified && shown.atime == shown.mtime && shown.ctime
                == shown.mtime
            &&& shown.size == attr.size && shown.blocks * 512 >= attr.size && (shown.blocks - 1)
                * 512 < attr.size
            &&& shown.ino == inode_of(table, path)
        }),
{
}

/// Gives a path an inode; a path with a fresh inode is no longer stale.
pub fn allocate_for_path(
    paths: &mut PathCache,
    stale: &mut PathSet,
    path: &MountPath,
    kind: FileType,
) -> (ino: u64)
    requires
        has_inode(old(paths)@, path@),
    ensures
        final(paths)@ == ensured(old(paths)@, path@, kind),
        final(stale)@ == old(stale)@.remove(path@),
        ino == inode_of(old(paths)@, path@),
{
    stale.remove(path);
    paths.ensure(path, kind)
}

/// The path of an inode; `ENOENT` where it has none.
pub fn path_for_ino(paths: &PathCache, ino: u64) -> (result: Result<MountPath, i32>)
    ensures
        match result {
            Ok(path) => path_of(paths@.rows, ino) == Some(path@),
            Err(number) => path_of(paths@.rows, ino) is None && number == errno::ENOENT,
        },
{
    match paths.path(ino) {
        Some(path) => Ok(path.clone()),
        None => Err(errno::enoent()),
    }
}

/// The inode of the directory that a path lies in; the root lies in itself.
pub fn parent_ino_for_path(paths: &mut PathCache, stale: &mut PathSet, path: &MountPath) -> (ino:
    u64)
    requires
        has_inode(old(paths)@, parent_of(path@)),
    ensures
        path@.len() == 0 ==> {
            &&& ino == ROOT_INO
            &&& final(paths)@ == old(paths)@
            &&& final(stale)@ == old(stale)@
        },
        path@.len() > 0 ==> {
            &&& ino == inode_of(old(paths)@, parent_of(path@))
            &&& final(paths)@ == ensured(old(paths)@, parent_of(path@), FileType::Directory)
            &&& final(stale)@ == old(stale)@.remove(parent_of(path@))
        },
{
    if path.is_root() {
        return ROOT_INO;
    }
    let parent = path.parent();
    allocate_for_path(paths, stale, &parent, FileType::Directory)
}

/// The attributes of a path as the kernel is told; the path gets its inode.
pub fn file_attr_from_runtime(
    paths: &mut PathCache,
    stale: &mut PathSet,
    owner: StableOwner,
    path: &MountPath,
    attr: RuntimeAttr,
    perm: Option<u16>,
) -> (shown: FileAttr)
    requires
        has_inode(old(paths)@, path@),
    ensures
        shown == shown_attr(old(paths)@, path@, attr, perm, owner),
        final(paths)@ == ensured(old(paths)@, path@, inode_kind(attr.kind)),
        final(stale)@ == old(stale)@.remove(path@),
{
    let kind = file_type_from_runtime(attr.kind);
    let ino = allocate_for_path(paths, stale, path, kind);
    let perm = match perm {
        Some(perm) => perm,
        None => match kind {
            FileType::Directory => DIRECTORY_PERM,
            FileType::RegularFile => FILE_PERM,
        },
    };
    build_attr(ino, kind, perm, owner, StableTimestamps::from_version(attr.version), attr.size)
}


// ---------------------------------------------------------------------------
// Replies
// ---------------------------------------------------------------------------

/// The inodes after the attributes of a path were told.
pub open spec fn told(table: Table, path: Components, attr: Result<RuntimeAttr, Stop>) -> Table {
    match attr {
        Ok(attr) => ensured(table, path, inode_kind(attr.kind)),
        Err(_) => table,
    }
}

/// The stale paths after the attributes of a path were told.
pub open spec fn stale_once_told(
    stale: Set<Components>,
    path: Components,
    attr: Result<RuntimeAttr, Stop>,
    fresh: bool,
) -> Set<Components> {
    refreshed(stale, path, attr is Ok || (fresh && settled(attr)))
}

/// Attributes of a path as the kernel is told, or what stands in their way.
pub open spec fn told_attr(
    table: Table,
    path: Components,
    attr: Result<RuntimeAttr, Stop>,
    perm: Option<u16>,
    owner: StableOwner,
) -> Result<FileAttr, Stop> {
    match attr {
        Ok(attr) => Ok(shown_attr(table, path, attr, perm, owner)),
        Err(stop) => Err(stop),
    }
}

/// The attributes of a path.
pub fn attr_for_path(
    inquiry: &mut Inquiry,
    view: &MountView,
    paths: &mut PathCache,
    stale: &mut PathSet,
    owner: StableOwner,
    path: &MountPath,
) -> (result: Result<FileAttr, Pause>)
    requires
        has_inode(old(paths)@, path@),
    ensures
        ({
            let ((attr, talk), fresh) = attr_of(
                old(inquiry)@,
                view.overlay@,
                view.status,
                view.mounted_at,
                old(stale)@,
                old(paths)@.rows,
                path@,
            );
            &&& final(inquiry)@ == talk
            &&& plain_outcome(result) == told_attr(old(paths)@, path@, attr, None, owner)
            &&& final(paths)@ == told(old(paths)@, path@, attr)
            &&& final(stale)@ == stale_once_told(old(stale)@, path@, attr, fresh)
        }),
{
    let ghost before = stale@;
    match attr(inquiry, view, stale, paths, path) {
        Ok(attr) => {
            let shown = file_attr_from_runtime(paths, stale, owner, path, attr, None);
            assert(stale@ =~= before.remove(path@));
            Ok(shown)
        },
        Err(pause) => Err(pause),
    }
}

/// The attributes of a file that stands in for one that is not there.
pub open spec fn placeholder(mounted_at: Time, size: u64) -> RuntimeAttr {
    RuntimeAttr { kind: EntryKind::File, size, version: VersionStamp::of(mounted_at) }
}

/// Attributes, or those of a placeholder where there is nothing.
pub open spec fn or_placeholder(
    attr: Result<RuntimeAttr, Stop>,
    mounted_at: Time,
    size: u64,
) -> Result<RuntimeAttr, Stop> {
    match attr {
        Err(Pause::Fail(number)) if number == errno::ENOENT => Ok(placeholder(mounted_at, size)),
        _ => attr,
    }
}

/// The attributes of a file that was just made, or of a placeholder where there is
/// nothing yet.
pub fn regular_file_reply_attr(
    inquiry: &mut Inquiry,
    view: &MountView,
    paths: &mut PathCache,
    stale: &mut PathSet,
    owner: StableOwner,
    path: &MountPath,
    perm: u16,
    fallback_size: u64,
) -> (result: Result<FileAttr, Pause>)
    requires
        has_inode(old(paths)@, path@),
    ensures
        ({
            let ((attr, talk), fresh) = attr_of(
                old(inquiry)@,
                view.overlay@,
                view.status,
                view.mounted_at,
                old(stale)@,
                old(paths)@.rows,
                path@,
            );
            let attr = or_placeholder(attr, view.mounted_at, fallback_size);
            &&& final(inquiry)@ == talk
            &&& plain_outcome(result) == told_attr(old(paths)@, path@, attr, Some(perm), owner)
            &&& final(paths)@ == told(old(paths)@, path@, attr)
            &&& final(stale)@ == stale_once_told(old(stale)@, path@, attr, fresh)
        }),
{
    let ghost before = stale@;
    let found = match attr(inquiry, view, stale, paths, path) {
        Ok(attr) => attr,
        Err(Pause::Fail(number)) => {
            if number != errno::enoent() {
                return Err(Pause::Fail(number));
            }
            RuntimeAttr {
                kind: EntryKind::File,
                size: fallback_size,
                version: VersionStamp::at(view.mounted_at),
            }
        },
        Err(pause) => {
            return Err(pause);
        },
    };
    let shown = file_attr_from_runtime(paths, stale, owner, path, found, Some(perm));
    assert(stale@ =~= before.remove(path@));
    Ok(shown)
}

/// The attributes of a file that was just created.
pub fn create_reply_attr(
    handles: &Handles,
    inquiry: &mut Inquiry,
    view: &MountView,
    paths: &mut PathCache,
    stale: &mut PathSet,
    owner: StableOwner,
    handle: RuntimeHandleId,
    path: &MountPath,
    perm: u16,
) -> (result: Result<FileAttr, Pause>)
    requires
        has_inode(old(paths)@, path@),
    ensures
        ({
            let ((attr, talk), fresh) = created_attr(
                handles@,
                old(inquiry)@,
                view.overlay@,
                view.status,
                view.mounted_at,
                old(stale)@,
                old(paths)@.rows,
                handle.0,
                path@,
            );
            &&& final(inquiry)@ == talk
            &&& plain_outcome(result) == told_attr(old(paths)@, path@, attr, Some(perm), owner)
            &&& final(paths)@ == told(old(paths)@, path@, attr)
            &&& final(stale)@ == stale_once_told(old(stale)@, path@, attr, fresh)
        }),
{
    let ghost before = stale@;
    match handles.created_handle_attr(inquiry, view, stale, paths, handle, path) {
        Ok(attr) => {
            let shown = file_attr_from_runtime(paths, stale, owner, path, attr, Some(perm));
            assert(stale@ =~= before.remove(path@));
            Ok(shown)
        },
        Err(pause) => Err(pause),
    }
}

/// The attributes of a file before and after it was cut to nothing through an open file:
/// they are told only where both succeed.
pub open spec fn cut_attr(
    session: Session,
    talk: Talk,
    facts: Seq<Fact>,
    status: MountStatus,
    mounted_at: Time,
    stale: Set<Components>,
    rows: Seq<Row>,
    fh: u64,
    path: Components,
) -> ((Step<RuntimeAttr>, bool), Session) {
    let ((attr, talk), fresh) = created_attr(
        session,
        talk,
        facts,
        status,
        mounted_at,
        stale,
        rows,
        fh,
        path,
    );
    match attr {
        Err(stop) => (((Err(stop), talk), fresh), session),
        Ok(attr) => {
            let ((done, talk), after) = truncate_staged(session, talk, fh);
            match done {
                Err(stop) => (((Err(stop), talk), fresh), after),
                Ok(()) => (((Ok(RuntimeAttr { size: 0, ..attr }), talk), fresh), after),
            }
        },
    }
}

/// Cuts an open file to nothing and tells its attributes.
pub fn truncate_handle_reply_attr(
    handles: &mut Handles,
    inquiry: &mut Inquiry,
    view: &MountView,
    paths: &mut PathCache,
    stale: &mut PathSet,
    owner: StableOwner,
    handle: RuntimeHandleId,
    path: &MountPath,
) -> (result: Result<FileAttr, Pause>)
    requires
        has_inode(old(paths)@, path@),
    ensures
        ({
            let (((attr, talk), fresh), session) = cut_attr(
                old(handles)@,
                old(inquiry)@,
                view.overlay@,
                view.status,
                view.mounted_at,
                old(stale)@,
                old(paths)@.rows,
                handle.0,
                path@,
            );
            &&& final(inquiry)@ == talk
            &&& final(handles)@ == session
            &&& plain_outcome(result) == told_attr(old(paths)@, path@, attr, None, owner)
            &&& final(paths)@ == told(old(paths)@, path@, attr)
            &&& final(stale)@ == stale_once_told(old(stale)@, path@, attr, fresh)
        }),
{
    let ghost before = stale@;
    let mut known = stale.copy();
    let found = match handles.created_handle_attr(inquiry, view, &mut known, paths, handle, path) {
        Ok(attr) => attr,
        Err(pause) => {
            *stale = known;
            return Err(pause);
        },
    };
    match handles.stage_truncate(inquiry, handle) {
        Ok(()) => {},
        Err(Pause::Fail(number)) => {
            *stale = known;
            return Err(Pause::Fail(number));
        },
        Err(pause) => {
            return Err(pause);
        },
    }
    let cut = RuntimeAttr { kind: found.kind, size: 0, version: found.version };
    let shown = file_attr_from_runtime(paths, stale, owner, path, cut, None);
    assert(stale@ =~= before.remove(path@));
    Ok(shown)
}

/// The attributes of a directory that was just made; it gets its inode.
pub fn mkdir_reply_attr(
    paths: &mut PathCache,
    stale: &mut PathSet,
    owner: StableOwner,
    mounted_at: Time,
    path: &MountPath,
    perm: u16,
) -> (shown: FileAttr)
    requires
        has_inode(old(paths)@, path@),
    ensures
        shown == inode_attr(
            inode_of(old(paths)@, path@),
            FileType::Directory,
            perm,
            owner,
            VersionStamp::of(mounted_at),
            0,
        ),
        final(paths)@ == ensured(old(paths)@, path@, FileType::Directory),
        final(stale)@ == old(stale)@.remove(path@),
{
    let ino = allocate_for_path(paths, stale, path, FileType::Directory);
    let version = VersionStamp::at(mounted_at);
    let timestamps = StableTimestamps::from_version(version);
    build_attr(ino, FileType::Directory, perm, owner, timestamps, 0)
}


// ---------------------------------------------------------------------------
// Listings
// ---------------------------------------------------------------------------

/// An entry of a directory as the kernel is told.
#[derive(Clone, Debug, PartialEq, Eq)]
pub struct ReplyEntry<S = String> {
    pub ino: u64,
    pub kind: FileType,
    pub name: S,
}

/// The model of an entry as the kernel is told.
pub type ReplyRow = ReplyEntry<Text>;

impl View for ReplyEntry<String> {
    type V = ReplyRow;

    open spec fn view(&self) -> ReplyRow {
        ReplyEntry { ino: self.ino, kind: self.kind, name: self.name@ }
    }
}

/// The models of entries as the kernel is told.
pub open spec fn reply_models(entries: Seq<ReplyEntry>) -> Seq<ReplyRow> {
    entries.map_values(|entry: ReplyEntry| entry@)
}

/// Why a directory cannot be listed: what there is to complain about, and the error
/// number.
#[derive(Clone, Debug, PartialEq, Eq)]
pub struct ListingFailure<S = String> {
    pub complaint: S,
    pub number: i32,
}

impl View for ListingFailure<String> {
    type V = ListingFailure<Text>;

    open spec fn view(&self) -> ListingFailure<Text> {
        ListingFailure { complaint: self.complaint@, number: self.number }
    }
}

/// A listing with what it did to the inodes and the stale paths.
pub struct Listed {
    pub rows: Result<Seq<ReplyRow>, ListingFailure<Text>>,
    pub table: Table,
    pub stale: Set<Components>,
}

/// The entries of a directory as the kernel is told: each gets its inode. A name that
/// gives no path ends the listing.
pub open spec fn children_told(
    table: Table,
    stale: Set<Components>,
    path: Components,
    entries: Seq<Entry>,
    rows: Seq<ReplyRow>,
) -> Listed
    decreases entries.len(),
{
    if entries.len() == 0 {
        Listed { rows: Ok(rows), table, stale }
    } else {
        let name = entries[0].name;
        match child_path(path, name) {
            Err(error) => Listed {
                rows: Err(
                    ListingFailure {
                        complaint: "invalid directory child "@ + name + ": "@ + error.sentence(),
                        number: error.number().0,
                    },
                ),
                table,
                stale,
            },
            Ok(child) => {
                let kind = inode_kind(entries[0].kind);
                children_told(
                    ensured(table, child, kind),
                    stale.remove(child),
                    path,
                    entries.drop_first(),
                    rows.push(ReplyEntry { ino: inode_of(table, child), kind, name }),
                )
            },
        }
    }
}

/// The inodes once the directory that a path lies in has one.
pub open spec fn with_parent(table: Table, path: Components) -> Table {
    if path.len() == 0 {
        table
    } else {
        ensured(table, parent_of(path), FileType::Directory)
    }
}

/// The inode of the directory that a path lies in.
pub open spec fn parent_inode(table: Table, path: Components) -> u64 {
    if path.len() == 0 {
        ROOT_INO
    } else {
        inode_of(table, parent_of(path))
    }
}

/// The listing of a directory: itself, the directory that it lies in, and its entries.
pub open spec fn directory_told(
    table: Table,
    stale: Set<Components>,
    path: Components,
    ino: u64,
    entries: Seq<Entry>,
) -> Listed {
    children_told(
        with_parent(table, path),
        if path.len() == 0 {
            stale
        } else {
            stale.remove(parent_of(path))
        },
        path,
        entries,
        seq![
            ReplyEntry { ino, kind: FileType::Directory, name: "."@ },
            ReplyEntry {
                ino: parent_inode(table, path),
                kind: FileType::Directory,
                name: ".."@,
            },
        ],
    )
}

/// A listing tells all entries in their order, with their names and kinds, behind those
/// that came before.
pub proof fn law_listings_keep_names_and_kinds(
    table: Table,
    stale: Set<Components>,
    path: Components,
    entries: Seq<Entry>,
    rows: Seq<ReplyRow>,
)
    ensures
        children_told(table, stale, path, entries, rows).rows matches Ok(all) ==> {
            &&& all.len() == rows.len() + entries.len()
            &&& forall|i: int| 0 <= i < rows.len() ==> #[trigger] all[i] == rows[i]
            &&& forall|i: int|
                #![trigger all[rows.len() + i]]
                0 <= i < entries.len() ==> all[rows.len() + i].name == entries[i].name && all[
                rows.len() + i].kind == inode_kind(entries[i].kind)
        },
    decreases entries.len(),
{
    if entries.len() > 0 {
        if let Ok(child) = child_path(path, entries[0].name) {
            let kind = inode_kind(entries[0].kind);
            let more = rows.push(
                ReplyEntry { ino: inode_of(table, child), kind, name: entries[0].name },
            );
            let rest = entries.drop_first();
            law_listings_keep_names_and_kinds(
                ensured(table, child, kind),
                stale.remove(child),
                path,
                rest,
                more,
            );
            if let Ok(all) = children_told(table, stale, path, entries, rows).rows {
                assert forall|i: int| 0 <= i < rows.len() implies #[trigger] all[i] == rows[i] by {
                    assert(all[i] == more[i]);
                }
                assert forall|i: int|
                    #![trigger all[rows.len() + i]]
                    0 <= i < entries.len() implies all[rows.len() + i].name == entries[i].name
                    && all[rows.len() + i].kind == inode_kind(entries[i].kind) by {
                    if i == 0 {
                        assert(all[rows.len() as int] == more[rows.len() as int]);
                    } else {
                        assert(all[more.len() + (i - 1)].name == rest[i - 1].name);
                    }
                }
            }
        }
    }
}

/// The entries of a directory as the kernel is told. There have to be inodes left for
/// them.
pub fn directory_reply_entries(
    paths: &mut PathCache,
    stale: &mut PathSet,
    path: &MountPath,
    ino: u64,
    entries: Vec<DirectoryEntry>,
) -> (result: Result<Vec<ReplyEntry>, ListingFailure>)
    requires
        old(paths)@.next + entries@.len() + 1 <= u64::MAX,
    ensures
        ({
            let told = directory_told(old(paths)@, old(stale)@, path@, ino, listing(entries@));
            &&& final(paths)@ == told.table
            &&& final(stale)@ == told.stale
            &&& match (result, told.rows) {
                (Ok(entries), Ok(rows)) => reply_models(entries@) == rows,
                (Err(failure), Err(expected)) => failure@ == expected,
                _ => false,
            }
        }),
{
    let ghost start_table = paths@;
    let ghost start_stale = stale@;
    let ghost models = listing(entries@);
    let parent = parent_ino_for_path(paths, stale, path);
    let mut replies: Vec<ReplyEntry> = Vec::new();
    replies.push(ReplyEntry { ino, kind: FileType::Directory, name: ".".to_owned() });
    replies.push(ReplyEntry { ino: parent, kind: FileType::Directory, name: "..".to_owned() });
    let ghost told = directory_told(start_table, start_stale, path@, ino, models);
    assert(reply_models(replies@) =~= seq![
        ReplyEntry { ino, kind: FileType::Directory, name: "."@ },
        ReplyEntry {
            ino: parent_inode(start_table, path@),
            kind: FileType::Directory,
            name: ".."@,
        },
    ]);
    let mut i: usize = 0;
    assert(models.skip(0) =~= models);
    while i < entries.len()
        invariant
            i <= entries.len(),
            models == listing(entries@),
            paths@.next + (entries.len() - i) <= u64::MAX,
            told == directory_told(old(paths)@, old(stale)@, path@, ino, models),
            told == children_told(
                paths@,
                stale@,
                path@,
                models.skip(i as int),
                reply_models(replies@),
            ),
        decreases entries.len() - i,
    {
        let entry = &entries[i];
        assert(models.skip(i as int)[0] == entry@);
        assert(models.skip(i as int).drop_first() =~= models.skip(i + 1));
        let child = match path.join_child(entry.name.as_str()) {
            Ok(child) => child,
            Err(error) => {
                let sentence = error.to_string();
                let place = concat3("invalid directory child ", entry.name.as_str(), ": ");
                return Err(
                    ListingFailure {
                        complaint: concat2(place.as_str(), sentence.as_str()),
                        number: error.errno().get(),
                    },
                );
            },
        };
        let kind = file_type_from_runtime(entry.kind);
        let child_ino = allocate_for_path(paths, stale, &child, kind);
        let ghost before = replies@;
        replies.push(ReplyEntry { ino: child_ino, kind, name: entry.name.clone() });
        assert(reply_models(replies@) =~= reply_models(before).push(replies@.last()@));
        i += 1;
    }
    assert(models.skip(models.len() as int) =~= Seq::empty());
    Ok(replies)
}

} // verus!
