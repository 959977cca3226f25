//! The attributes that files and directories are reported with.

use vstd::prelude::*;

use crate::versions::{Time, VersionStamp};

verus! {

/// The size of a block, in bytes.
pub const BLOCK_SIZE: u64 = 512;

/// Whether an inode is a directory or a regular file.
#[derive(Clone, Copy, Debug, PartialEq, Eq, Structural)]
pub enum FileType {
    Directory,
    RegularFile,
}

/// Who owns every file of the mount.
#[derive(Clone, Copy, Debug, PartialEq, Eq, Structural)]
pub struct StableOwner {
    pub uid: u32,
    pub gid: u32,
}

/// The times that a file is reported with.
#[derive(Clone, Copy, Debug, PartialEq, Eq, Structural)]
pub struct StableTimestamps {
    pub atime: Time,
    pub mtime: Time,
    pub ctime: Time,
    pub crtime: Time,
}

impl StableTimestamps {
    /// The times of a version: everything but the creation goes by the last change.
    pub fn from_version(version: VersionStamp) -> (timestamps: Self)
        ensures
            timestamps == (StableTimestamps {
                atime: version.modified,
                mtime: version.modified,
                ctime: version.modified,
                crtime: version.created,
            }),
    {
        StableTimestamps {
            atime: version.modified,
            mtime: version.modified,
            ctime: version.modified,
            crtime: version.created,
        }
    }
}

/// The attributes of an inode.
#[derive(Clone, Copy, Debug, PartialEq, Eq, Structural)]
pub struct FileAttr {
    pub ino: u64,
    pub size: u64,
    pub blocks: u64,
    pub atime: Time,
    pub mtime: Time,
    pub ctime: Time,
    pub crtime: Time,
    pub kind: FileType,
    pub perm: u16,
    pub nlink: u32,
    pub uid: u32,
    pub gid: u32,
    pub rdev: u32,
    pub blksize: u32,
    pub flags: u32,
}

/// How many blocks hold a number of bytes.
pub open spec fn blocks_for(size: u64) -> int {
    (size + BLOCK_SIZE - 1) / (BLOCK_SIZE as int)
}

/// The attributes of an inode.
pub fn build_attr(
    ino: u64,
    kind: FileType,
    perm: u16,
    owner: StableOwner,
    timestamps: StableTimestamps,
    size: u64,
) -> (attr: FileAttr)
    ensures
        attr == (FileAttr {
            ino,
            size,
            blocks: blocks_for(size) as u64,
            atime: timestamps.atime,
            mtime: timestamps.mtime,
            ctime: timestamps.ctime,
            crtime: timestamps.crtime,
            kind,
            perm,
            nlink: if kind == FileType::Directory {
                2
            } else {
                1
            },
            uid: owner.uid,
            gid: owner.gid,
            rdev: 0,
            blksize: 512,
            flags: 0,
        }),
        attr.blocks == blocks_for(size),
        attr.blocks * BLOCK_SIZE >= size,
{
    let whole = size / BLOCK_SIZE;
    let blocks: u64 = if size % BLOCK_SIZE == 0 {
        whole
    } else {
        whole + 1
    };
    FileAttr {
        ino,
        size,
        blocks,
        atime: timestamps.atime,
        mtime: timestamps.mtime,
        ctime: timestamps.ctime,
        crtime: timestamps.crtime,
        kind,
        perm,
        nlink: match kind {
            FileType::Directory => 2,
            FileType::RegularFile => 1,
        },
        uid: owner.uid,
        gid: owner.gid,
        rdev: 0,
        blksize: 512,
        flags: 0,
    }
}

} // verus!
