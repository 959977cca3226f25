//! What can go wrong with a path, an operation or a payload, and the error number
//! that the kernel is told.

use vstd::prelude::*;

use crate::errno;
use crate::text::{concat2, concat3, Text};

verus! {

/// An error number of the operating system.
#[derive(Clone, Copy, Debug, PartialEq, Eq, Structural)]
pub struct Errno(pub i32);

impl Errno {
    /// The error number `value`.
    pub fn new(value: i32) -> (errno: Self)
        ensures
            errno == Errno(value),
    {
        Errno(value)
    }

    /// The number itself.
    pub fn get(self) -> (value: i32)
        ensures
            value == self.0,
    {
        self.0
    }

    /// No such file or directory.
    pub fn not_found() -> (errno: Self)
        ensures
            errno == Errno(errno::ENOENT),
    {
        Errno(errno::enoent())
    }

    /// Operation not supported.
    pub fn not_supported() -> (errno: Self)
        ensures
            errno == Errno(errno::ENOTSUP),
    {
        Errno(errno::enotsup())
    }

    /// Read-only file system.
    pub fn read_only() -> (errno: Self)
        ensures
            errno == Errno(errno::EROFS),
    {
        Errno(errno::erofs())
    }

    /// Invalid argument.
    pub fn invalid_input() -> (errno: Self)
        ensures
            errno == Errno(errno::EINVAL),
    {
        Errno(errno::einval())
    }

    /// Is a directory.
    pub fn is_directory() -> (errno: Self)
        ensures
            errno == Errno(errno::EISDIR),
    {
        Errno(errno::eisdir())
    }

    /// Not a directory.
    pub fn not_directory() -> (errno: Self)
        ensures
            errno == Errno(errno::ENOTDIR),
    {
        Errno(errno::enotdir())
    }

    /// File exists.
    pub fn already_exists() -> (errno: Self)
        ensures
            errno == Errno(errno::EEXIST),
    {
        Errno(errno::eexist())
    }

    /// Link across devices.
    pub fn cross_device() -> (errno: Self)
        ensures
            errno == Errno(errno::EXDEV),
    {
        Errno(errno::exdev())
    }

    /// Input/output error.
    pub fn io() -> (errno: Self)
        ensures
            errno == Errno(errno::EIO),
    {
        Errno(errno::eio())
    }
}

/// A refusal, with the error number that stands for it. `S` is `String` in
/// executable code and [`Text`] in contracts.
#[derive(Clone, Debug, PartialEq, Eq)]
pub enum EventFsError<S = String> {
    InvalidPath { message: S, errno: Errno },
    Unsupported { operation: &'static str, path: S, errno: Errno },
    ReadOnly { path: S, errno: Errno },
    InvalidJson { path: S, message: S, errno: Errno },
}

impl View for EventFsError<String> {
    type V = EventFsError<Text>;

    open spec fn view(&self) -> EventFsError<Text> {
        match *self {
            EventFsError::InvalidPath { message, errno } => EventFsError::InvalidPath {
                message: message@,
                errno,
            },
            EventFsError::Unsupported { operation, path, errno } => EventFsError::Unsupported {
                operation,
                path: path@,
                errno,
            },
            EventFsError::ReadOnly { path, errno } => EventFsError::ReadOnly { path: path@, errno },
            EventFsError::InvalidJson { path, message, errno } => EventFsError::InvalidJson {
                path: path@,
                message: message@,
                errno,
            },
        }
    }
}

impl EventFsError<Text> {
    /// The refusal of a path, for the reason that `message` gives.
    pub open spec fn bad_path(message: Text) -> Self {
        EventFsError::InvalidPath { message, errno: Errno(errno::EINVAL) }
    }

    /// The refusal of an operation that a path has no meaning for.
    pub open spec fn no_support(operation: &'static str, path: Text) -> Self {
        EventFsError::Unsupported { operation, path, errno: Errno(errno::ENOTSUP) }
    }

    /// The refusal to change what cannot change.
    pub open spec fn immutable(path: Text) -> Self {
        EventFsError::ReadOnly { path, errno: Errno(errno::EROFS) }
    }

    /// The refusal of a payload that is not JSON.
    pub open spec fn bad_json(path: Text, message: Text) -> Self {
        EventFsError::InvalidJson { path, message, errno: Errno(errno::EINVAL) }
    }

    /// The error number of a refusal.
    pub open spec fn number(self) -> Errno {
        match self {
            EventFsError::InvalidPath { errno, .. } => errno,
            EventFsError::Unsupported { errno, .. } => errno,
            EventFsError::ReadOnly { errno, .. } => errno,
            EventFsError::InvalidJson { errno, .. } => errno,
        }
    }

    /// The sentence that a refusal is reported with.
    pub open spec fn sentence(self) -> Text {
        match self {
            EventFsError::InvalidPath { message, .. } => message,
            EventFsError::Unsupported { operation, path, .. } => operation@
                + " is unsupported for "@ + path,
            EventFsError::ReadOnly { path, .. } => path + " is read only"@,
            EventFsError::InvalidJson { path, message, .. } => "invalid json at "@ + path + (": "@
                + message),
        }
    }
}

impl EventFsError {
    /// The refusal of a path, for the reason that `message` gives.
    pub fn invalid_path(message: &str) -> (error: Self)
        ensures
            error@ == EventFsError::bad_path(message@),
    {
        EventFsError::InvalidPath { message: message.to_owned(), errno: Errno::invalid_input() }
    }

    /// The refusal of an operation that a path has no meaning for.
    pub fn unsupported(operation: &'static str, path: &str) -> (error: Self)
        ensures
            error@ == EventFsError::no_support(operation, path@),
    {
        EventFsError::Unsupported {
            operation,
            path: path.to_owned(),
            errno: Errno::not_supported(),
        }
    }

    /// The refusal to change what cannot change.
    pub fn read_only(path: &str) -> (error: Self)
        ensures
            error@ == EventFsError::immutable(path@),
    {
        EventFsError::ReadOnly { path: path.to_owned(), errno: Errno::read_only() }
    }

    /// The refusal of a payload that is not JSON.
    pub fn invalid_json(path: &str, message: &str) -> (error: Self)
        ensures
            error@ == EventFsError::bad_json(path@, message@),
    {
        EventFsError::InvalidJson {
            path: path.to_owned(),
            message: message.to_owned(),
            errno: Errno::invalid_input(),
        }
    }

    /// The error number of a refusal.
    pub fn errno(&self) -> (errno: Errno)
        ensures
            errno == self@.number(),
    {
        match self {
            EventFsError::InvalidPath { errno, .. } => *errno,
            EventFsError::Unsupported { errno, .. } => *errno,
            EventFsError::ReadOnly { errno, .. } => *errno,
            EventFsError::InvalidJson { errno, .. } => *errno,
        }
    }

    /// The sentence that a refusal is reported with.
    pub fn to_string(&self) -> (sentence: String)
        ensures
            sentence@ == self@.sentence(),
    {
        match self {
            EventFsError::InvalidPath { message, .. } => message.clone(),
            EventFsError::Unsupported { operation, path, .. } => concat3(
                operation,
                " is unsupported for ",
                path.as_str(),
            ),
            EventFsError::ReadOnly { path, .. } => concat2(path.as_str(), " is read only"),
            EventFsError::InvalidJson { path, message, .. } => {
                let reason = concat2(": ", message.as_str());
                concat3("invalid json at ", path.as_str(), reason.as_str())
            },
        }
    }
}

/// What a fallible function returned, with its value and its error as their models.
pub open spec fn outcome<T: View>(result: Result<T, EventFsError>) -> Result<T::V, EventFsError<Text>> {
    match result {
        Ok(value) => Ok(value@),
        Err(error) => Err(error@),
    }
}

/// Whether a check passed exactly where there is no problem, and otherwise refused
/// the path for that problem.
pub open spec fn reports(result: Result<(), EventFsError>, problem: Option<Text>) -> bool {
    match result {
        Ok(()) => problem is None,
        Err(error) => problem is Some && error@ == EventFsError::bad_path(problem.unwrap()),
    }
}

} // verus!
