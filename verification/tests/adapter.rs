//! What the kernel is told.

use eventfs::adapter::{
    allocate_for_path, directory_reply_entries, file_attr_from_runtime, file_type_from_runtime,
    fuse_open_reply_flags, listing_start, mkdir_reply_attr, parent_ino_for_path, path_for_ino,
    permission_bits, read_window, runtime_open_options_from_flags, setattr_step,
    SetattrMetadataFields, SetattrStep,
};
use eventfs::attr::{build_attr, FileType, StableOwner, StableTimestamps};
use eventfs::entries::{DirectoryEntry, EntryKind};
use eventfs::handles::RuntimeOpenOptions;
use eventfs::kinds::{projection_kind_from_file_type, RuntimeAttr};
use eventfs::path_cache::{PathCache, ROOT_INO};
use eventfs::stale::PathSet;
use eventfs::versions::VersionStamp;
use eventfs::MountPath;

const OWNER: StableOwner = StableOwner { uid: 501, gid: 20 };

fn mp(path: &str) -> MountPath {
    MountPath::new(path).unwrap()
}

fn version() -> VersionStamp {
    VersionStamp {
        modified: 9,
        created: 4,
    }
}

#[test]
fn files_are_cut_to_nothing_or_not_changed() {
    let none = SetattrMetadataFields::default();
    assert!(!none.requested());
    assert_eq!(setattr_step(none, None, None), SetattrStep::Report);
    assert_eq!(setattr_step(none, None, Some(3)), SetattrStep::Report);
    assert_eq!(setattr_step(none, Some(0), None), SetattrStep::TruncatePath);
    assert_eq!(
        setattr_step(none, Some(0), Some(3)),
        SetattrStep::TruncateHandle(3)
    );
    assert_eq!(
        setattr_step(none, Some(1), Some(3)),
        SetattrStep::Refuse(libc::ENOTSUP)
    );
    let mode = SetattrMetadataFields { mode: true, ..none };
    assert_eq!(
        setattr_step(mode, Some(0), Some(3)),
        SetattrStep::Refuse(libc::ENOTSUP)
    );
}

#[test]
fn every_attribute_counts_as_a_change() {
    let none = SetattrMetadataFields::default();
    for fields in [
        SetattrMetadataFields { mode: true, ..none },
        SetattrMetadataFields { uid: true, ..none },
        SetattrMetadataFields { gid: true, ..none },
        SetattrMetadataFields { atime: true, ..none },
        SetattrMetadataFields { mtime: true, ..none },
        SetattrMetadataFields { ctime: true, ..none },
        SetattrMetadataFields { crtime: true, ..none },
        SetattrMetadataFields { chgtime: true, ..none },
        SetattrMetadataFields { bkuptime: true, ..none },
        SetattrMetadataFields { flags: true, ..none },
    ] {
        assert!(fields.requested());
        assert_eq!(
            setattr_step(fields, None, None),
            SetattrStep::Refuse(libc::ENOTSUP)
        );
    }
}

#[test]
fn open_flags_tell_how_a_file_is_opened() {
    let options = |writable, truncate, create| RuntimeOpenOptions {
        writable,
        truncate,
        create,
    };
    for (flags, create, expected) in [
        (libc::O_RDONLY, false, options(false, false, false)),
        (libc::O_WRONLY, false, options(true, false, false)),
        (libc::O_RDWR, false, options(true, false, false)),
        (libc::O_WRONLY | libc::O_TRUNC, false, options(true, true, false)),
        (libc::O_RDONLY | libc::O_TRUNC, false, options(false, false, false)),
        (libc::O_RDONLY, true, options(true, false, true)),
        (libc::O_RDWR | libc::O_TRUNC, true, options(true, false, true)),
        (libc::O_RDWR | libc::O_APPEND, false, options(true, false, false)),
    ] {
        assert_eq!(runtime_open_options_from_flags(flags, create), expected);
    }
    assert_eq!(fuse_open_reply_flags(libc::O_DIRECT), 0);
}

#[test]
fn permission_bits_are_the_low_twelve() {
    assert_eq!(permission_bits(0o100644), 0o644);
    assert_eq!(permission_bits(0o107777), 0o7777);
    assert_eq!(permission_bits(u32::MAX), 0o7777);
}

#[test]
fn windows_end_with_the_file() {
    let bytes = b"0123456789";
    assert_eq!(read_window(bytes, 0, 4), Ok(&b"0123"[..]));
    assert_eq!(read_window(bytes, 8, 4), Ok(&b"89"[..]));
    assert_eq!(read_window(bytes, 10, 4), Ok(&b""[..]));
    assert_eq!(read_window(bytes, i64::MAX, 4), Ok(&b""[..]));
    assert_eq!(read_window(bytes, 3, 0), Ok(&b""[..]));
    assert_eq!(read_window(bytes, 1, u32::MAX), Ok(&b"123456789"[..]));
    assert_eq!(read_window(bytes, -1, 4), Err(libc::EINVAL));
}

#[test]
fn windows_one_after_another_are_the_file() {
    let bytes = b"0123456789";
    let mut whole = Vec::new();
    let mut offset = 0;
    while offset < 12 {
        whole.extend_from_slice(read_window(bytes, offset, 3).unwrap());
        offset += 3;
    }
    assert_eq!(whole, bytes.to_vec());
}

#[test]
fn listings_go_on_where_they_stopped() {
    assert_eq!(listing_start(0), 0);
    assert_eq!(listing_start(7), 7);
    assert_eq!(listing_start(-3), 0);
}

#[test]
fn sizes_are_counted_in_blocks() {
    let blocks = |size| {
        build_attr(
            2,
            FileType::RegularFile,
            0o644,
            OWNER,
            StableTimestamps::from_version(version()),
            size,
        )
        .blocks
    };
    assert_eq!(blocks(0), 0);
    assert_eq!(blocks(1), 1);
    assert_eq!(blocks(512), 1);
    assert_eq!(blocks(513), 2);
    assert_eq!(blocks(u64::MAX), 1 << 55);
}

#[test]
fn attributes_have_one_owner_and_the_times_of_the_version() {
    let mut paths = PathCache::new();
    let mut stale = PathSet::new();
    stale.insert(&mp("/kv/a"));
    let attr = file_attr_from_runtime(
        &mut paths,
        &mut stale,
        OWNER,
        &mp("/kv/a"),
        RuntimeAttr {
            kind: EntryKind::File,
            version: version(),
            size: 600,
        },
        None,
    );
    assert_eq!((attr.uid, attr.gid), (501, 20));
    assert_eq!((attr.atime, attr.mtime, attr.ctime, attr.crtime), (9, 9, 9, 4));
    assert_eq!((attr.size, attr.blocks, attr.blksize), (600, 2, 512));
    assert_eq!((attr.perm, attr.nlink, attr.rdev, attr.flags), (0o644, 1, 0, 0));
    assert_eq!(attr.kind, FileType::RegularFile);
    assert!(stale.is_empty());
    assert_eq!(path_for_ino(&paths, attr.ino), Ok(mp("/kv/a")));

    let directory = mkdir_reply_attr(&mut paths, &mut stale, OWNER, 33, &mp("/kv"), 0o700);
    assert_eq!(directory.kind, FileType::Directory);
    assert_eq!((directory.perm, directory.nlink), (0o700, 2));
    assert_eq!((directory.mtime, directory.crtime, directory.size), (33, 33, 0));
}

#[test]
fn inodes_are_kept_and_unknown_ones_are_not_found() {
    let mut paths = PathCache::new();
    let mut stale = PathSet::new();
    let ino = allocate_for_path(&mut paths, &mut stale, &mp("/kv"), FileType::Directory);
    let again = allocate_for_path(&mut paths, &mut stale, &mp("/kv"), FileType::Directory);
    assert_eq!(ino, again);
    assert_ne!(ino, ROOT_INO);
    assert_eq!(path_for_ino(&paths, ROOT_INO), Ok(MountPath::root()));
    assert_eq!(path_for_ino(&paths, 999), Err(libc::ENOENT));
    assert_eq!(
        parent_ino_for_path(&mut paths, &mut stale, &MountPath::root()),
        ROOT_INO
    );
    assert_eq!(
        parent_ino_for_path(&mut paths, &mut stale, &mp("/kv/a")),
        ino
    );
}

#[test]
fn kinds_of_entries_and_inodes_correspond() {
    for kind in [EntryKind::Directory, EntryKind::File] {
        assert_eq!(
            projection_kind_from_file_type(file_type_from_runtime(kind)),
            kind
        );
    }
}

#[test]
fn listings_begin_with_the_directory_and_its_parent() {
    let mut paths = PathCache::new();
    let mut stale = PathSet::new();
    let ino = allocate_for_path(&mut paths, &mut stale, &mp("/kv/a"), FileType::Directory);
    let rows = directory_reply_entries(
        &mut paths,
        &mut stale,
        &mp("/kv/a"),
        ino,
        vec![
            DirectoryEntry {
                name: "z.json".into(),
                kind: EntryKind::File,
            },
            DirectoryEntry {
                name: "dir".into(),
                kind: EntryKind::Directory,
            },
        ],
    )
    .unwrap();
    let told: Vec<(&str, FileType)> = rows
        .iter()
        .map(|row| (row.name.as_str(), row.kind))
        .collect();
    assert_eq!(
        told,
        [
            (".", FileType::Directory),
            ("..", FileType::Directory),
            ("z.json", FileType::RegularFile),
            ("dir", FileType::Directory),
        ]
    );
    assert_eq!(rows[0].ino, ino);
    assert_eq!(path_for_ino(&paths, rows[1].ino), Ok(mp("/kv")));
    assert_eq!(path_for_ino(&paths, rows[2].ino), Ok(mp("/kv/a/z.json")));
    assert_eq!(path_for_ino(&paths, rows[3].ino), Ok(mp("/kv/a/dir")));
}

#[test]
fn names_that_are_no_children_spoil_a_listing() {
    let mut paths = PathCache::new();
    let mut stale = PathSet::new();
    let failure = directory_reply_entries(
        &mut paths,
        &mut stale,
        &mp("/kv"),
        ROOT_INO,
        vec![DirectoryEntry {
            name: "..".into(),
            kind: EntryKind::File,
        }],
    )
    .unwrap_err();
    assert_eq!(failure.number, libc::EINVAL);
    assert!(
        failure.complaint.starts_with("invalid directory child ..: "),
        "{}",
        failure.complaint
    );
}
