//! Lists of directory entries, logs of lines, versions and stale paths.

use eventfs::attr::FileType;
use eventfs::entries::{
    directory_entries_contain_exact_file, insert_directory_entry, insert_directory_entry_sorted,
    message_sequence, names_as_dirs, names_as_event_files, remove_directory_entry, DirectoryEntry,
    EntryKind,
};
use eventfs::jsonl::{
    action_publishes_jsonl, append_json_line, applied_count, jsonl_applied_prefix_count,
    jsonl_canonical_lines, unapplied_jsonl_bytes,
};
use eventfs::path_cache::PathCache;
use eventfs::stale::{
    apply_path_invalidation_plan, local_invalidation_paths, InvalidationAction, InvalidationScope,
    PathSet,
};
use eventfs::versions::{max_system_time, max_version_stamp, VersionStamp};
use eventfs::{JetStreamAction, MaterializedTarget, MountPath};

fn mp(path: &str) -> MountPath {
    MountPath::new(path).unwrap()
}

fn file(name: &str) -> DirectoryEntry {
    DirectoryEntry {
        name: name.into(),
        kind: EntryKind::File,
    }
}

fn directory(name: &str) -> DirectoryEntry {
    DirectoryEntry {
        name: name.into(),
        kind: EntryKind::Directory,
    }
}

// ---------------------------------------------------------------------------
// Entries
// ---------------------------------------------------------------------------

#[test]
fn entries_are_appended_and_listed_once() {
    let mut entries = vec![directory("b")];
    insert_directory_entry(&mut entries, file("a"));
    assert_eq!(entries, [directory("b"), file("a")]);
    insert_directory_entry(&mut entries, file("b"));
    assert_eq!(entries, [file("b"), file("a")]);
    insert_directory_entry(&mut entries, directory("a"));
    assert_eq!(entries, [file("b"), file("a")]);
}

#[test]
fn entries_are_put_in_order_of_their_names() {
    let mut entries = vec![file("b"), file("d")];
    insert_directory_entry_sorted(&mut entries, file("c"));
    insert_directory_entry_sorted(&mut entries, file("a"));
    insert_directory_entry_sorted(&mut entries, file("e"));
    assert_eq!(
        entries,
        [file("a"), file("b"), file("c"), file("d"), file("e")]
    );
    insert_directory_entry_sorted(&mut entries, directory("b"));
    insert_directory_entry_sorted(&mut entries, file("b"));
    assert_eq!(
        entries,
        [file("a"), directory("b"), file("c"), file("d"), file("e")]
    );
}

#[test]
fn removing_a_name_removes_every_entry_of_it() {
    let mut entries = vec![file("a"), directory("b"), file("a")];
    remove_directory_entry(&mut entries, "a");
    assert_eq!(entries, [directory("b")]);
    remove_directory_entry(&mut entries, "c");
    assert_eq!(entries, [directory("b")]);
}

#[test]
fn files_are_found_by_name_and_kind() {
    let entries = [file("a"), directory("b")];
    assert!(directory_entries_contain_exact_file(&entries, "a"));
    assert!(!directory_entries_contain_exact_file(&entries, "b"));
    assert!(!directory_entries_contain_exact_file(&entries, "c"));
}

#[test]
fn names_become_directories_and_event_logs() {
    assert_eq!(
        names_as_dirs(vec!["a".into(), "b".into()]),
        [directory("a"), directory("b")]
    );
    assert_eq!(
        names_as_event_files(vec!["orders".into()]),
        [file("orders.jsonl")]
    );
}

#[test]
fn message_files_are_numbered() {
    assert_eq!(message_sequence(&file("12.json")), Some(12));
    assert_eq!(message_sequence(&file("x.json")), None);
    assert_eq!(message_sequence(&file("12.jsonl")), None);
    assert_eq!(message_sequence(&directory("12.json")), None);
}

// ---------------------------------------------------------------------------
// Logs
// ---------------------------------------------------------------------------

#[test]
fn lines_are_appended_with_one_line_break() {
    let mut log = b"[0]\n".to_vec();
    append_json_line(&mut log, b"[1]");
    append_json_line(&mut log, b"[2]\n");
    assert_eq!(log, b"[0]\n[1]\n[2]\n".to_vec());
}

#[test]
fn canonical_lines_are_trimmed_and_end_in_a_line_break() {
    assert_eq!(
        jsonl_canonical_lines("/p", b" [1] \n\n[2]"),
        Ok(vec![b"[1]\n".to_vec(), b"[2]\n".to_vec()])
    );
    assert_eq!(jsonl_canonical_lines("/p", b"\xff"), Err(libc::EINVAL));
}

#[test]
fn applied_lines_are_counted_behind_the_base() {
    let lines = |text: &str| -> Vec<Vec<u8>> {
        text.chars().map(|ch| vec![ch as u8, b'\n']).collect()
    };
    assert_eq!(applied_count(&lines("ab"), &lines("abcd"), &lines("cde")), 2);
    assert_eq!(applied_count(&lines("ab"), &lines("abcde"), &lines("cde")), 3);
    assert_eq!(applied_count(&lines("ab"), &lines("ab"), &lines("cde")), 0);
    assert_eq!(applied_count(&lines("ab"), &lines("acde"), &lines("cde")), 0);
    assert_eq!(applied_count(&lines("ab"), &lines("a"), &lines("cde")), 0);
    assert_eq!(applied_count(&[], &lines("x"), &lines("y")), 0);
}

#[test]
fn applied_prefix_is_counted_in_lines() {
    assert_eq!(
        jsonl_applied_prefix_count("/p", b"[0]\n", b"[0]\n[1]\n", b"[1]\n[2]\n"),
        Ok(1)
    );
    assert_eq!(
        jsonl_applied_prefix_count("/p", b"\xff", b"", b""),
        Err(libc::EINVAL)
    );
}

#[test]
fn unapplied_lines_are_what_is_left() {
    let bytes = b"[1]\n[2]\n[3]\n";
    assert_eq!(unapplied_jsonl_bytes("/p", bytes, 0), Ok(bytes.to_vec()));
    assert_eq!(
        unapplied_jsonl_bytes("/p", bytes, 2),
        Ok(b"[3]\n".to_vec())
    );
    assert_eq!(unapplied_jsonl_bytes("/p", bytes, 3), Ok(Vec::new()));
    assert_eq!(unapplied_jsonl_bytes("/p", bytes, 9), Ok(Vec::new()));
    assert_eq!(
        unapplied_jsonl_bytes("/p", b"\xff", 0),
        Err(libc::EINVAL)
    );
}

#[test]
fn unapplied_lines_are_read_back() {
    let bytes = " [1]\r\n\n\"\u{e9}\"\n{\"a\":1}".as_bytes();
    let lines = jsonl_canonical_lines("/p", bytes).unwrap();
    assert_eq!(lines.len(), 3);
    for applied in 0..5 {
        let rest = unapplied_jsonl_bytes("/p", bytes, applied).unwrap();
        assert_eq!(
            jsonl_canonical_lines("/p", &rest).unwrap(),
            lines[applied.min(3)..]
        );
    }
}

#[test]
fn only_logs_are_published_to() {
    assert!(action_publishes_jsonl(&JetStreamAction::PublishJsonLines {
        stream: "s".into(),
        subject: "t".into()
    }));
    assert!(action_publishes_jsonl(&JetStreamAction::MaterializedPut {
        target: MaterializedTarget::Stream {
            stream: "s".into(),
            subject: "t".into()
        }
    }));
    assert!(!action_publishes_jsonl(&JetStreamAction::MaterializedPut {
        target: MaterializedTarget::Kv {
            bucket: "b".into(),
            key: "k".into()
        }
    }));
    assert!(!action_publishes_jsonl(&JetStreamAction::KvPut {
        bucket: "b".into(),
        key: "k".into()
    }));
}

// ---------------------------------------------------------------------------
// Versions
// ---------------------------------------------------------------------------

#[test]
fn later_times_win_and_equal_ones_stay() {
    assert_eq!(max_system_time(None, -5), -5);
    assert_eq!(max_system_time(Some(3), 4), 4);
    assert_eq!(max_system_time(Some(4), 3), 4);
    let first = VersionStamp {
        modified: 7,
        created: 1,
    };
    let second = VersionStamp {
        modified: 7,
        created: 2,
    };
    assert_eq!(max_version_stamp(None, first), first);
    assert_eq!(max_version_stamp(Some(first), second), first);
    assert_eq!(
        max_version_stamp(Some(first), VersionStamp::at(8)),
        VersionStamp::at(8)
    );
}

// ---------------------------------------------------------------------------
// Stale paths
// ---------------------------------------------------------------------------

fn table(paths: &[&str]) -> PathCache {
    let mut table = PathCache::new();
    for path in paths {
        table.ensure(&mp(path), FileType::Directory);
    }
    table
}

fn invalidated(scope: InvalidationScope, path: &str) -> PathSet {
    let mut stale = PathSet::new();
    apply_path_invalidation_plan(
        &mut stale,
        &table(&["/kv", "/kv/a", "/kv/a/b", "/kv/ab"]),
        &[InvalidationAction {
            scope,
            path: mp(path),
        }],
    );
    stale
}

#[test]
fn invalidations_reach_known_paths_within_their_scope() {
    let exact = invalidated(InvalidationScope::ExactEntry, "/kv/a");
    let below = invalidated(InvalidationScope::Subtree, "/kv/a");
    let all = invalidated(InvalidationScope::All, "/kv/a");
    for (path, in_exact, in_below) in [
        ("/kv", false, false),
        ("/kv/a", true, true),
        ("/kv/a/b", false, true),
        ("/kv/ab", false, false),
    ] {
        assert_eq!(exact.contains(&mp(path)), in_exact, "{path}");
        assert_eq!(below.contains(&mp(path)), in_below, "{path}");
        assert!(all.contains(&mp(path)), "{path}");
    }
    assert!(!all.contains(&MountPath::root()));
    assert!(invalidated(InvalidationScope::Subtree, "/objects").is_empty());
}

#[test]
fn invalidations_leave_stale_what_is_stale() {
    let mut stale = PathSet::new();
    stale.insert(&mp("/objects"));
    apply_path_invalidation_plan(&mut stale, &table(&["/kv"]), &[]);
    assert!(stale.contains(&mp("/objects")));
    stale.remove(&mp("/objects"));
    assert!(stale.is_empty());
    let copy = stale.copy();
    assert!(copy.is_empty());
}

#[test]
fn local_changes_touch_the_path_and_what_shows_it() {
    let paths = local_invalidation_paths(&mp("/tasks/ns/job.json"));
    assert_eq!(paths[0], "/tasks/ns/job.json");
    assert!(paths.contains(&"/kv/EVENTFS_TASKS/ns/job.json".to_string()));
    assert_eq!(
        local_invalidation_paths(&mp("/nowhere/else")),
        ["/nowhere/else"]
    );
}
