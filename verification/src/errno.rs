//! The error numbers and mode bits of the C library, by their Linux values.
//!
//! The constants are what contracts speak of. Executable code takes each number
//! from the `libc` crate; the trusted functions state which value it is there on
//! x86-64 Linux.

use vstd::prelude::*;

verus! {

/// Error number: no such file or directory.
pub const ENOENT: i32 = 2;

/// Error number: input/output error.
pub const EIO: i32 = 5;

/// Error number: bad file descriptor.
pub const EBADF: i32 = 9;

/// Error number: file exists.
pub const EEXIST: i32 = 17;

/// Error number: link across devices.
pub const EXDEV: i32 = 18;

/// Error number: not a directory.
pub const ENOTDIR: i32 = 20;

/// Error number: is a directory.
pub const EISDIR: i32 = 21;

/// Error number: invalid argument.
pub const EINVAL: i32 = 22;

/// Error number: read-only file system.
pub const EROFS: i32 = 30;

/// Error number: operation not supported.
pub const ENOTSUP: i32 = 95;

/// The bits of the open flags that hold the access mode.
pub const O_ACCMODE: i32 = 3;

/// The access mode of a file that is opened for reading only.
pub const O_RDONLY: i32 = 0;

/// The open flag that asks for an empty file.
pub const O_TRUNC: i32 = 512;

/// The bits of a file mode that hold the file type.
pub const S_IFMT: u32 = 0o170000;

/// The file type of a regular file.
pub const S_IFREG: u32 = 0o100000;

/// `libc::ENOENT`, which is 2 on x86-64 Linux.
#[verifier::external_body]
pub(crate) fn enoent() -> (value: i32)
    ensures
        value == ENOENT,
{
    libc::ENOENT
}

/// `libc::EIO`, which is 5 on x86-64 Linux.
#[verifier::external_body]
pub(crate) fn eio() -> (value: i32)
    ensures
        value == EIO,
{
    libc::EIO
}

/// `libc::EBADF`, which is 9 on x86-64 Linux.
#[verifier::external_body]
pub(crate) fn ebadf() -> (value: i32)
    ensures
        value == EBADF,
{
    libc::EBADF
}

/// `libc::EEXIST`, which is 17 on x86-64 Linux.
#[verifier::external_body]
pub(crate) fn eexist() -> (value: i32)
    ensures
        value == EEXIST,
{
    libc::EEXIST
}

/// `libc::EXDEV`, which is 18 on x86-64 Linux.
#[verifier::external_body]
pub(crate) fn exdev() -> (value: i32)
    ensures
        value == EXDEV,
{
    libc::EXDEV
}

/// `libc::ENOTDIR`, which is 20 on x86-64 Linux.
#[verifier::external_body]
pub(crate) fn enotdir() -> (value: i32)
    ensures
        value == ENOTDIR,
{
    libc::ENOTDIR
}

/// `libc::EISDIR`, which is 21 on x86-64 Linux.
#[verifier::external_body]
pub(crate) fn eisdir() -> (value: i32)
    ensures
        value == EISDIR,
{
    libc::EISDIR
}

/// `libc::EINVAL`, which is 22 on x86-64 Linux.
#[verifier::external_body]
pub(crate) fn einval() -> (value: i32)
    ensures
        value == EINVAL,
{
    libc::EINVAL
}

/// `libc::EROFS`, which is 30 on x86-64 Linux.
#[verifier::external_body]
pub(crate) fn erofs() -> (value: i32)
    ensures
        value == EROFS,
{
    libc::EROFS
}

/// `libc::ENOTSUP`, which is 95 on x86-64 Linux.
#[verifier::external_body]
pub(crate) fn enotsup() -> (value: i32)
    ensures
        value == ENOTSUP,
{
    libc::ENOTSUP
}

/// `libc::O_ACCMODE`, which is 3 with the GNU C library on x86-64 Linux.
#[verifier::external_body]
pub(crate) fn o_accmode() -> (value: i32)
    ensures
        value == O_ACCMODE,
{
    libc::O_ACCMODE
}

/// `libc::O_RDONLY`, which is 0 on Linux.
#[verifier::external_body]
pub(crate) fn o_rdonly() -> (value: i32)
    ensures
        value == O_RDONLY,
{
    libc::O_RDONLY
}

/// `libc::O_TRUNC`, which is 512 on x86-64 Linux.
#[verifier::external_body]
pub(crate) fn o_trunc() -> (value: i32)
    ensures
        value == O_TRUNC,
{
    libc::O_TRUNC
}

/// `libc::S_IFMT`, which is 0o170000 on Linux.
#[verifier::external_body]
pub(crate) fn s_ifmt() -> (value: u32)
    ensures
        value == S_IFMT,
{
    libc::S_IFMT
}

/// `libc::S_IFREG`, which is 0o100000 on Linux.
#[verifier::external_body]
pub(crate) fn s_ifreg() -> (value: u32)
    ensures
        value == S_IFREG,
{
    libc::S_IFREG
}

} // verus!
