//! What holds of paths, plans and affected paths as a whole, on one path of each form.

use eventfs::attr::FileType;
use eventfs::file_names::{hex_decode, hex_encode};
use eventfs::path_cache::PathCache;
use eventfs::plan::{plan_readdir, plan_unlink, plan_write};
use eventfs::{
    invalidation_paths, invalidation_paths_for_mount_path, is_reserved_kv_key,
    mount_path_from_jetstream_path, plan_operation, stream_subject_file_name_from_str, visible_paths,
    AffectedPath, AffectedPathReason, Errno, FileIntent, JetStreamAction, JetStreamPath,
    MaterializedTarget, MountPath, RenamePlan, StaticEntryKind, StorageFact, StreamSubject,
    ROOT_DIRECTORIES,
};

const PATHS: [&str; 31] = [
    "/",
    "/kv",
    "/kv/app",
    "/kv/app/config/service.json",
    "/kv/app/.history",
    "/kv/app/.history/config/service.json",
    "/kv/app/.history/config/service.json/@7",
    "/kv/EVENTFS_TASKS/ns/job.json",
    "/streams",
    "/streams/orders",
    "/streams/orders/messages",
    "/streams/orders/messages/12.json",
    "/streams/orders/subjects",
    "/streams/orders/subjects/orders.created.jsonl",
    "/streams/EVENTFS_AGENTS/subjects/agents.bot.inbox.jsonl",
    "/objects",
    "/objects/assets",
    "/objects/assets/img/logo.png",
    "/events",
    "/events/system.jsonl",
    "/tasks",
    "/tasks/ns",
    "/tasks/ns/job.json",
    "/agents",
    "/agents/bot",
    "/agents/bot/inbox",
    "/agents/bot/memory/note.md",
    "/semantic",
    "/semantic/tags/a.json",
    "/.eventfs",
    "/.eventfs/queue.json",
];

fn parsed(path: &str) -> JetStreamPath {
    JetStreamPath::parse(path).unwrap()
}

fn texts(paths: &[AffectedPath]) -> Vec<String> {
    paths.iter().map(|affected| affected.path.to_string()).collect()
}

fn distinct(paths: &[String]) -> bool {
    paths
        .iter()
        .enumerate()
        .all(|(i, path)| !paths[..i].contains(path))
}

// ---------------------------------------------------------------------------
// Affected paths
// ---------------------------------------------------------------------------

#[test]
fn affected_paths_are_distinct_and_the_changed_one_comes_first() {
    for text in PATHS {
        let path = parsed(text);
        let stale = texts(&invalidation_paths_for_mount_path(&path).unwrap());
        assert_eq!(stale[0], text);
        assert!(distinct(&stale), "{text}");
        if let Some(fact) = StorageFact::from_jetstream_path(&path) {
            let visible = texts(&visible_paths(&fact).unwrap());
            assert!(distinct(&visible), "{text}");
            assert!(visible.contains(&text.to_string()), "{text}");
            for shown in visible {
                assert!(stale.contains(&shown), "{text}: {shown}");
            }
        }
    }
}

#[test]
fn stale_paths_show_the_value_or_lie_above_it() {
    for text in PATHS {
        if let Some(fact) = StorageFact::from_jetstream_path(&parsed(text)) {
            let visible = visible_paths(&fact).unwrap();
            for stale in invalidation_paths(&fact).unwrap() {
                assert!(
                    visible
                        .iter()
                        .any(|shown| shown.path.is_self_or_descendant_of(&stale.path)),
                    "{text}: {}",
                    stale.path.as_str()
                );
            }
        }
    }
}

#[test]
fn shown_paths_lead_back_to_the_value() {
    let mut facts: Vec<StorageFact> = PATHS
        .iter()
        .filter_map(|text| StorageFact::from_jetstream_path(&parsed(text)))
        .collect();
    for (bucket, key) in [
        ("EVENTFS_AGENTS", "bot/memory/notes/today.md"),
        ("EVENTFS_AGENTS", "bot/inbox/stray"),
        ("EVENTFS_TASKS", "ns/deeper/job.json"),
        ("EVENTFS_SEMANTIC", "relations/a/b"),
        ("app", ".history/key"),
    ] {
        facts.push(StorageFact::Kv {
            bucket: bucket.into(),
            key: key.into(),
        });
    }
    for (stream, subject) in [("orders", "events.orders"), ("orders", ""), ("orders", "a/b@c")] {
        facts.push(StorageFact::StreamSubject {
            stream: stream.into(),
            subject: subject.into(),
        });
    }
    let mut found = 0;
    for fact in facts {
        for shown in visible_paths(&fact).unwrap() {
            if let Ok(path) = JetStreamPath::parse(shown.path.as_str()) {
                if let Some(value) = StorageFact::from_jetstream_path(&path) {
                    assert_eq!(value, fact, "{}", shown.path.as_str());
                    found += 1;
                }
            }
        }
    }
    assert!(found > 20);
}

#[test]
fn ancestors_of_the_changed_path_stand_right_behind_it() {
    let stale = invalidation_paths_for_mount_path(&parsed("/tasks/ns/job.json")).unwrap();
    let all = invalidation_paths(&StorageFact::Kv {
        bucket: "EVENTFS_TASKS".into(),
        key: "ns/job.json".into(),
    })
    .unwrap();
    assert_eq!(
        texts(&stale),
        [
            "/tasks/ns/job.json",
            "/tasks/ns",
            "/kv/EVENTFS_TASKS/ns/job.json",
            "/kv/EVENTFS_TASKS/ns",
            "/kv/EVENTFS_TASKS",
        ]
    );
    assert_eq!(stale.len(), all.len());
    assert!(stale.iter().all(|entry| all.contains(entry)));
    assert_eq!(stale[0].reason, AffectedPathReason::Alias);
    assert_eq!(stale[1].reason, AffectedPathReason::Ancestor);
}

#[test]
fn without_a_value_only_ancestors_follow_the_changed_path() {
    for text in PATHS {
        let path = parsed(text);
        if StorageFact::from_jetstream_path(&path).is_none() {
            let stale = invalidation_paths_for_mount_path(&path).unwrap();
            assert_eq!(stale[0].reason, AffectedPathReason::Exact);
            for entry in &stale[1..] {
                assert_eq!(entry.reason, AffectedPathReason::Ancestor, "{text}");
                assert!(stale[0].path.is_descendant_of(&entry.path), "{text}");
            }
        }
    }
    assert_eq!(
        texts(&invalidation_paths_for_mount_path(&parsed("/kv/app/.history/a/b/@7")).unwrap()),
        [
            "/kv/app/.history/a/b/@7",
            "/kv/app/.history/a/b",
            "/kv/app/.history/a",
            "/kv/app/.history",
            "/kv/app",
        ]
    );
}

#[test]
fn native_paths_are_shown_first() {
    let mut doubles = 0;
    for text in PATHS {
        let path = parsed(text);
        if let Some(fact) = StorageFact::from_jetstream_path(&path) {
            let shown = visible_paths(&fact).unwrap();
            let root = match fact {
                StorageFact::Kv { .. } => "/kv/",
                StorageFact::StreamSubject { .. } => "/streams/",
                StorageFact::Object { .. } => "/objects/",
            };
            assert!(shown[0].path.as_str().starts_with(root), "{text}");
            assert_eq!(shown[0].reason, AffectedPathReason::Exact);
            assert!(shown.len() <= 2, "{text}");
            if shown.len() == 2 {
                doubles += 1;
                assert!(matches!(
                    shown[1].reason,
                    AffectedPathReason::Alias | AffectedPathReason::Mailbox
                ));
            }
            assert!(shown.iter().any(|entry| entry.path.as_str() == text));
        }
    }
    assert_eq!(doubles, 7);
}

#[test]
fn stale_paths_have_their_reasons() {
    for text in PATHS {
        if let Some(fact) = StorageFact::from_jetstream_path(&parsed(text)) {
            let shown = visible_paths(&fact).unwrap();
            let all = invalidation_paths(&fact).unwrap();
            assert!(shown.iter().all(|entry| all.contains(entry)), "{text}");
            for entry in &all {
                assert!(
                    shown.contains(entry) || entry.reason == AffectedPathReason::Ancestor,
                    "{text}"
                );
                assert!(
                    !["/", "/kv", "/objects", "/streams", "/tasks", "/semantic"]
                        .contains(&entry.path.as_str()),
                    "{text}"
                );
            }
        }
    }
}

#[test]
fn values_share_no_path() {
    let facts: Vec<StorageFact> = [
        ("EVENTFS_AGENTS", "bot/inbox"),
        ("EVENTFS_AGENTS", "bot/inbox/a"),
        ("EVENTFS_TASKS", "bot/inbox"),
        ("app", "bot/inbox"),
    ]
    .iter()
    .map(|(bucket, key)| StorageFact::Kv {
        bucket: bucket.to_string(),
        key: key.to_string(),
    })
    .chain(
        [("EVENTFS_AGENTS", "agents.bot.inbox"), ("a", "events.a"), ("a", "events.b")]
            .iter()
            .map(|(stream, subject)| StorageFact::StreamSubject {
                stream: stream.to_string(),
                subject: subject.to_string(),
            }),
    )
    .collect();
    let paths: Vec<String> = facts
        .iter()
        .flat_map(|fact| texts(&visible_paths(fact).unwrap()))
        .collect();
    assert_eq!(paths.len(), 11);
    assert!(distinct(&paths));
}

#[test]
fn aliases_make_the_same_paths_stale() {
    let list = |text: &str| {
        let mut list = texts(&invalidation_paths_for_mount_path(&parsed(text)).unwrap());
        list.sort();
        list
    };
    assert_eq!(list("/tasks/ns/job.json"), list("/kv/EVENTFS_TASKS/ns/job.json"));
    assert_eq!(
        list("/agents/bot/inbox"),
        list("/streams/EVENTFS_AGENTS/subjects/agents.bot.inbox.jsonl")
    );
}

#[test]
fn materialized_files_stand_for_things_of_their_own() {
    let mut targets = Vec::new();
    for text in [
        "/tasks/ns/job.json",
        "/tasks/ns/other.json",
        "/tasks/memory/job.json",
        "/agents/ns/tasks/job.json",
        "/agents/ns/memory/job.json",
        "/agents/ns/inbox",
        "/agents/ns/outbox",
        "/semantic/tags/job.json",
        "/events/ns.jsonl",
        "/events/system.jsonl",
    ] {
        let target = MaterializedTarget::from_path(&parsed(text)).unwrap();
        if let MaterializedTarget::Kv { bucket, key } = &target {
            assert!(["EVENTFS_TASKS", "EVENTFS_AGENTS", "EVENTFS_SEMANTIC"]
                .contains(&bucket.as_str()));
            assert!(!is_reserved_kv_key(key), "{text}");
        }
        assert!(!targets.contains(&target), "{text}");
        targets.push(target);
    }
    assert!(JetStreamPath::parse("/tasks/__eventfs_writeback/job.json").is_err());
    assert!(JetStreamPath::parse("/kv/app/__eventfs_applied/job.json").is_err());
}

#[test]
fn mailbox_subjects_with_a_slash_are_refused() {
    let fact = StorageFact::StreamSubject {
        stream: "EVENTFS_AGENTS".into(),
        subject: "agents.a/b.inbox".into(),
    };
    assert!(visible_paths(&fact).is_err());
}

// ---------------------------------------------------------------------------
// Plans
// ---------------------------------------------------------------------------

#[test]
fn immutable_files_refuse_every_change() {
    for text in [
        "/kv/app/.history/config/service.json/@7",
        "/streams/orders/messages/12.json",
    ] {
        for intent in [FileIntent::Write, FileIntent::Create, FileIntent::Unlink] {
            let error = plan_operation(intent, &parsed(text)).unwrap_err();
            assert_eq!(error.errno(), Errno::read_only(), "{text}");
        }
        assert!(plan_operation(FileIntent::Read, &parsed(text)).is_ok());
    }
}

#[test]
fn directories_are_listed_and_other_paths_are_not() {
    for text in PATHS {
        let path = parsed(text);
        if path.is_directory() {
            assert!(plan_operation(FileIntent::ReadDir, &path).is_ok(), "{text}");
            let error = plan_operation(FileIntent::Write, &path).unwrap_err();
            assert_eq!(error.errno(), Errno::is_directory(), "{text}");
        }
    }
}

#[test]
fn fixed_entries_stand_for_paths_of_their_kind() {
    let mut listed = 0;
    for text in PATHS {
        let path = parsed(text);
        let mount_path = mount_path_from_jetstream_path(&path).unwrap();
        if let Ok(JetStreamAction::StaticDirectory { entries }) = plan_readdir(&path) {
            listed += 1;
            let names: Vec<String> = entries.iter().map(|entry| entry.name.clone()).collect();
            assert!(distinct(&names), "{text}");
            for entry in entries {
                let child = mount_path.join_child(&entry.name).unwrap();
                assert_eq!(
                    parsed(child.as_str()).is_directory(),
                    entry.kind == StaticEntryKind::Directory,
                    "{}",
                    child.as_str()
                );
            }
            if text == "/" {
                assert_eq!(names, ROOT_DIRECTORIES);
            }
        }
    }
    assert_eq!(listed, 5);
}

#[test]
fn whole_files_are_removed_and_logs_are_not() {
    let mut removable = 0;
    for text in PATHS {
        let path = parsed(text);
        let expected = match plan_write(&path) {
            Ok(JetStreamAction::KvPut { bucket, key }) => {
                Some(JetStreamAction::KvDelete { bucket, key })
            }
            Ok(JetStreamAction::ObjectPut { bucket, object }) => {
                Some(JetStreamAction::ObjectDelete { bucket, object })
            }
            Ok(JetStreamAction::MaterializedPut { target }) => {
                Some(JetStreamAction::MaterializedDelete { target })
            }
            _ => None,
        };
        assert_eq!(plan_unlink(&path).ok(), expected, "{text}");
        removable += expected.iter().count();
    }
    assert_eq!(removable, 6);
}

#[test]
fn paths_are_directories_or_readable() {
    for text in PATHS {
        let path = parsed(text);
        assert_eq!(
            plan_operation(FileIntent::Read, &path).is_ok(),
            !path.is_directory(),
            "{text}"
        );
        assert!(plan_operation(FileIntent::GetAttr, &path).is_ok(), "{text}");
        if plan_operation(FileIntent::Mkdir, &path).is_ok() {
            assert!(plan_readdir(&path).is_ok(), "{text}");
        }
        assert_eq!(
            plan_write(&path).is_ok(),
            StorageFact::from_jetstream_path(&path).is_some(),
            "{text}"
        );
    }
}

#[test]
fn renames_can_be_undone() {
    let moved = |from: &str, to: &str| {
        plan_operation(FileIntent::Rename { to: parsed(to) }, &parsed(from)).unwrap()
    };
    let plan = |from: &str, to: &str| JetStreamAction::Rename {
        plan: RenamePlan::Kv {
            from_bucket: "EVENTFS_TASKS".into(),
            from_key: from.into(),
            to_bucket: "EVENTFS_TASKS".into(),
            to_key: to.into(),
        },
    };
    assert_eq!(
        moved("/tasks/a/x.json", "/tasks/b/y.json"),
        plan("a/x.json", "b/y.json")
    );
    assert_eq!(
        moved("/tasks/b/y.json", "/tasks/a/x.json"),
        plan("b/y.json", "a/x.json")
    );
}

#[test]
fn writable_paths_can_be_read() {
    for text in PATHS {
        let path = parsed(text);
        if plan_operation(FileIntent::Write, &path).is_ok() {
            assert!(plan_operation(FileIntent::Read, &path).is_ok(), "{text}");
            assert!(!path.is_directory(), "{text}");
        }
    }
}

#[test]
fn renames_stay_within_one_place() {
    for from in PATHS {
        for to in PATHS {
            let plan = plan_operation(
                FileIntent::Rename { to: parsed(to) },
                &parsed(from),
            );
            match plan {
                Ok(action) => assert!(matches!(action, JetStreamAction::Rename { .. })),
                Err(error) => {
                    assert!(from != to || !matches!(parsed(from), JetStreamPath::KvKey { .. }));
                    assert_eq!(error.errno(), Errno::cross_device(), "{from} {to}");
                }
            }
        }
    }
}

// ---------------------------------------------------------------------------
// Mount paths
// ---------------------------------------------------------------------------

#[test]
fn mount_paths_are_normal_forms() {
    for text in PATHS {
        let path = MountPath::new(text).unwrap();
        assert_eq!(path.as_str(), text);
        assert_eq!(MountPath::new(path.as_str()).unwrap(), path);
        assert_eq!(
            mount_path_from_jetstream_path(&parsed(text)).unwrap(),
            path
        );
        let child = path.join_child("child").unwrap();
        assert_eq!(child.parent(), path);
        assert!(child.is_descendant_of(&path));
        assert!(!path.is_descendant_of(&path));
        assert!(path.is_self_or_descendant_of(&path));
        assert!(!path.is_descendant_of(&child));
    }
    assert_eq!(MountPath::root().parent(), MountPath::root());
}

// ---------------------------------------------------------------------------
// Inodes
// ---------------------------------------------------------------------------

#[test]
fn inodes_are_unique_and_stay() {
    let mut table = PathCache::new();
    let mut inodes = Vec::new();
    for text in PATHS {
        inodes.push(table.ensure(&MountPath::new(text).unwrap(), FileType::Directory));
    }
    assert_eq!(table.len(), PATHS.len());
    for (i, text) in PATHS.iter().enumerate() {
        let path = MountPath::new(text).unwrap();
        assert_eq!(table.path(inodes[i]), Some(&path));
        assert_eq!(table.ensure(&path, FileType::RegularFile), inodes[i]);
        assert!(!inodes[..i].contains(&inodes[i]));
    }
    let gone = MountPath::new("/kv/app").unwrap();
    table.remove(&gone);
    assert!(table.entry(&gone).is_none());
    let again = table.ensure(&gone, FileType::Directory);
    assert!(!inodes.contains(&again));
}

#[test]
fn inodes_are_never_given_out_twice() {
    let mp = |text: &str| MountPath::new(text).unwrap();
    let mut table = PathCache::new();
    let mut given = vec![1];
    for round in 0..3 {
        for text in ["/kv", "/kv/a", "/kv/a/b", "/streams"] {
            let known = table.path(given[given.len() - 1]).cloned();
            let ino = table.ensure(&mp(text), FileType::Directory);
            if round == 0 || text != "/streams" {
                assert!(!given.contains(&ino), "{text}");
                given.push(ino);
            }
            assert_eq!(table.path(ino), Some(&mp(text)));
            if let Some(known) = known {
                assert!(table.entry(&known).is_some());
            }
        }
        match round {
            0 => table.remove_recursive(&mp("/kv")),
            _ => {
                table.remove_descendants(&mp("/kv"));
                table.remove(&mp("/kv"));
            }
        }
    }
    assert_eq!(given.len(), 11);
}

#[test]
fn subjects_have_files_of_their_own() {
    let subjects = ["", "a", "a.b", "a/b", "__eventfs_subject_hex_", "é", " "];
    let names: Vec<String> = subjects
        .iter()
        .map(|subject| stream_subject_file_name_from_str(subject))
        .collect();
    assert!(distinct(&names));
    assert_eq!(names[0], "__eventfs_subject_hex_.jsonl");
}

#[test]
fn removals_take_only_what_they_name() {
    let mp = |text: &str| MountPath::new(text).unwrap();
    let fill = || {
        let mut table = PathCache::new();
        for text in ["/kv", "/kv/a", "/kv/a/b", "/kvx", "/streams"] {
            table.ensure(&mp(text), FileType::Directory);
        }
        table
    };
    let left = |table: &PathCache| -> Vec<String> {
        ["/", "/kv", "/kv/a", "/kv/a/b", "/kvx", "/streams"]
            .iter()
            .filter(|text| table.entry(&mp(text)).is_some())
            .map(|text| text.to_string())
            .collect()
    };
    let mut table = fill();
    table.remove(&mp("/kv/a"));
    assert_eq!(left(&table), ["/", "/kv", "/kv/a/b", "/kvx", "/streams"]);
    let mut table = fill();
    table.remove_recursive(&mp("/kv"));
    assert_eq!(left(&table), ["/", "/kvx", "/streams"]);
    let mut table = fill();
    table.remove_descendants(&mp("/kv"));
    assert_eq!(left(&table), ["/", "/kv", "/kvx", "/streams"]);
    let mut table = fill();
    table.remove_recursive(&MountPath::root());
    assert_eq!(left(&table), ["/"]);
}

#[test]
fn parsed_texts_have_their_normal_form_as_mount_path() {
    let mounted = |text: &str| {
        let path = mount_path_from_jetstream_path(&parsed(text)).unwrap();
        path.as_str().to_string()
    };
    for text in ["//kv/app/config//", "kv/app/config", "//tasks/ns/job.json/", ""] {
        assert_eq!(mounted(text), MountPath::new(text).unwrap().as_str(), "{text}");
    }
    for (text, mount_path) in [
        ("/kv/app/.history/a/@007", "/kv/app/.history/a/@7"),
        ("/streams/s/messages/0012.json", "/streams/s/messages/12.json"),
        (
            "/streams/s/subjects/__eventfs_subject_hex_6162.jsonl",
            "/streams/s/subjects/ab.jsonl",
        ),
    ] {
        assert_eq!(mounted(text), mount_path);
    }
    for text in PATHS {
        assert_eq!(mounted(text), text);
    }
}

#[test]
fn joining_goes_down() {
    let base = MountPath::new("/kv/app").unwrap();
    assert_eq!(base.join_child("").unwrap(), base);
    assert!(base.join_child("a//b").unwrap().is_descendant_of(&base));
    assert_eq!(
        base.join_child("a").unwrap().join_child("b/c").unwrap(),
        base.join_child("a/b/c").unwrap()
    );
    assert_eq!(
        MountPath::root().join_child("x/y").unwrap(),
        MountPath::new("x/y").unwrap()
    );
}

#[test]
fn hexadecimal_digits_are_read_back() {
    let bytes = [0u8, 9, 10, 127, 128, 255];
    assert_eq!(hex_encode(&bytes), "00090a7f80ff");
    assert_eq!(hex_decode("00090a7f80ff"), Some(bytes.to_vec()));
    assert_eq!(hex_decode(""), None);
}

#[test]
fn plain_file_names_are_given_back() {
    for name in ["orders.created.jsonl", "a-b_c.jsonl"] {
        let subject = StreamSubject::parse_file_name(name).unwrap();
        assert_eq!(stream_subject_file_name_from_str(subject.as_str()), name);
    }
}
