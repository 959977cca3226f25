//! Error numbers, refusals and their sentences.

use eventfs::{
    plan_operation, validate_json_document, Errno, EventFsError, FileIntent, JetStreamPath,
    MountPath,
};

#[test]
fn error_numbers_are_those_of_the_c_library() {
    assert_eq!(Errno::not_found().get(), libc::ENOENT);
    assert_eq!(Errno::not_supported().get(), libc::ENOTSUP);
    assert_eq!(Errno::read_only().get(), libc::EROFS);
    assert_eq!(Errno::invalid_input().get(), libc::EINVAL);
    assert_eq!(Errno::is_directory().get(), libc::EISDIR);
    assert_eq!(Errno::not_directory().get(), libc::ENOTDIR);
    assert_eq!(Errno::already_exists().get(), libc::EEXIST);
    assert_eq!(Errno::cross_device().get(), libc::EXDEV);
    assert_eq!(Errno::io().get(), libc::EIO);
    assert_eq!(Errno::new(7).get(), 7);
}

#[test]
fn constants_are_those_of_the_c_library() {
    assert_eq!(eventfs::errno::ENOENT, libc::ENOENT);
    assert_eq!(eventfs::errno::EIO, libc::EIO);
    assert_eq!(eventfs::errno::EBADF, libc::EBADF);
    assert_eq!(eventfs::errno::EEXIST, libc::EEXIST);
    assert_eq!(eventfs::errno::EXDEV, libc::EXDEV);
    assert_eq!(eventfs::errno::ENOTDIR, libc::ENOTDIR);
    assert_eq!(eventfs::errno::EISDIR, libc::EISDIR);
    assert_eq!(eventfs::errno::EINVAL, libc::EINVAL);
    assert_eq!(eventfs::errno::EROFS, libc::EROFS);
    assert_eq!(eventfs::errno::ENOTSUP, libc::ENOTSUP);
    assert_eq!(eventfs::errno::O_ACCMODE, libc::O_ACCMODE);
    assert_eq!(eventfs::errno::O_RDONLY, libc::O_RDONLY);
    assert_eq!(eventfs::errno::O_TRUNC, libc::O_TRUNC);
    assert_eq!(eventfs::errno::S_IFMT, libc::S_IFMT);
    assert_eq!(eventfs::errno::S_IFREG, libc::S_IFREG);
}

#[test]
fn refused_paths_are_invalid_input() {
    let error = MountPath::new("/kv/../x").unwrap_err();
    assert!(matches!(error, EventFsError::InvalidPath { .. }));
    assert_eq!(error.errno(), Errno::invalid_input());
}

#[test]
fn operations_without_meaning_are_unsupported() {
    let path = JetStreamPath::parse("/.eventfs/status.json").unwrap();
    let error = plan_operation(FileIntent::Unlink, &path).unwrap_err();
    assert_eq!(
        error,
        EventFsError::unsupported("unlink", "MetadataFile(Status)")
    );
    assert_eq!(error.errno(), Errno::not_supported());
    assert_eq!(
        error.to_string(),
        "unlink is unsupported for MetadataFile(Status)"
    );
}

#[test]
fn directories_are_not_written() {
    let path = JetStreamPath::parse("/kv/demo").unwrap();
    let error = plan_operation(FileIntent::Write, &path).unwrap_err();
    assert_eq!(error.errno(), Errno::is_directory());
    assert_eq!(
        error.to_string(),
        "write is unsupported for KvBucket { bucket: \"demo\" }"
    );
}

#[test]
fn immutable_files_are_read_only() {
    let path = JetStreamPath::parse("/streams/orders/messages/7.json").unwrap();
    let error = plan_operation(FileIntent::Write, &path).unwrap_err();
    assert_eq!(error, EventFsError::read_only(&path.to_string()));
    assert_eq!(error.errno(), Errno::read_only());
    assert_eq!(
        error.to_string(),
        "StreamMessage { stream: \"orders\", sequence: 7 } is read only"
    );
}

#[test]
fn payloads_that_are_no_json_are_refused_with_the_parser_s_words() {
    let error = validate_json_document("/kv/demo/a.json", b"{\"a\":").unwrap_err();
    let words = serde_json::from_slice::<serde_json::Value>(b"{\"a\":")
        .unwrap_err()
        .to_string();
    assert_eq!(error, EventFsError::invalid_json("/kv/demo/a.json", &words));
    assert_eq!(error.errno(), Errno::invalid_input());
    assert_eq!(
        error.to_string(),
        format!("invalid json at /kv/demo/a.json: {words}")
    );
}
