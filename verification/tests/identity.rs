use eventfs::cli::Cli;
use eventfs::identity::{
    cache_dir_for_identity, default_cache_root_from, join_path, mount_identity,
    sanitize_cache_segment, stable_hash,
};

fn cli(mountpoint: &str, nats_url: &str, mount_name: &str) -> Cli {
    Cli {
        mountpoint: mountpoint.into(),
        nats_url: nats_url.into(),
        nats_creds_file: None,
        mount_name: mount_name.into(),
        cache_dir: None,
        timeout_ms: 2_000,
        duplicate_window_ms: 86_400_000,
        queue_capacity: 1024,
        foreground: false,
    }
}

#[test]
fn default_cache_dir_is_scoped_to_mount_identity_and_url() {
    let root = b"/var/lib/eventfs-test";
    let first = cache_dir_for_identity(root, &cli("/mnt/a", "nats://127.0.0.1:4222", "eventfs"));
    let other_url =
        cache_dir_for_identity(root, &cli("/mnt/a", "nats://127.0.0.1:4333", "eventfs"));
    let other_mount =
        cache_dir_for_identity(root, &cli("/mnt/b", "nats://127.0.0.1:4222", "eventfs"));
    let other_name = cache_dir_for_identity(root, &cli("/mnt/a", "nats://127.0.0.1:4222", "other"));

    assert_ne!(first, other_url);
    assert_ne!(first, other_mount);
    assert_ne!(first, other_name);
    assert!(first.starts_with(b"/var/lib/eventfs-test/mounts/"));
}

#[test]
fn default_cache_root_prefers_persistent_state_locations() {
    assert_eq!(
        default_cache_root_from(
            Some(b"/state".to_vec()),
            Some(b"/home/user".to_vec()),
            b"/work".to_vec()
        ),
        b"/state/eventfs".to_vec()
    );
    assert_eq!(
        default_cache_root_from(None, Some(b"/home/user".to_vec()), b"/work".to_vec()),
        b"/home/user/.local/state/eventfs".to_vec()
    );
    assert_eq!(
        default_cache_root_from(None, None, b"/work".to_vec()),
        b"/work/.eventfs-state".to_vec()
    );
}

#[test]
fn mounts_are_hashed_by_fnv1a() {
    assert_eq!(stable_hash(b""), 0xcbf2_9ce4_8422_2325);
    assert_eq!(stable_hash(b"a"), 0xaf63_dc4c_8601_ec8c);
    assert_eq!(stable_hash(b"foobar"), 0x8594_4171_f739_67e8);
}

#[test]
fn mount_identity_names_every_setting_on_a_line() {
    let mut settings = cli("/mnt/a", "nats://127.0.0.1:4222", "eventfs");
    assert_eq!(
        mount_identity(&settings),
        "mount_name=eventfs\nnats_url=nats://127.0.0.1:4222\nmountpoint=/mnt/a\ncreds="
    );
    settings.nats_creds_file = Some("/etc/creds".into());
    assert_eq!(
        mount_identity(&settings),
        "mount_name=eventfs\nnats_url=nats://127.0.0.1:4222\nmountpoint=/mnt/a\ncreds=/etc/creds"
    );
}

#[test]
fn mount_identities_differ_where_settings_differ() {
    let base = cli("/mnt/a", "nats://host", "eventfs");
    let mut creds = base.clone();
    creds.nats_creds_file = Some("/etc/creds".into());
    for other in [
        cli("/mnt/b", "nats://host", "eventfs"),
        cli("/mnt/a", "nats://other", "eventfs"),
        cli("/mnt/a", "nats://host", "mount"),
        creds,
    ] {
        assert_ne!(mount_identity(&base), mount_identity(&other));
        assert_ne!(
            cache_dir_for_identity(b"/state", &base),
            cache_dir_for_identity(b"/state", &other)
        );
    }
}

#[test]
fn cache_segments_hold_no_separator() {
    assert_eq!(sanitize_cache_segment(""), "mount");
    assert_eq!(sanitize_cache_segment("Event-FS_1"), "Event-FS_1");
    assert_eq!(sanitize_cache_segment("a/b.c d\u{e9}"), "a-b-c-d-");
    assert_eq!(sanitize_cache_segment("../x"), "---x");
}

#[test]
fn cache_directories_are_named_after_mount_and_hash() {
    let settings = cli("/mnt/a", "nats://host", "my mount");
    let hash = stable_hash(mount_identity(&settings).as_bytes());
    assert_eq!(
        cache_dir_for_identity(b"/state", &settings),
        format!("/state/mounts/my-mount-{hash:016x}").into_bytes()
    );
}

#[test]
fn paths_are_joined_with_one_separator() {
    assert_eq!(join_path(b"/a", "b"), b"/a/b".to_vec());
    assert_eq!(join_path(b"/a/", "b"), b"/a/b".to_vec());
    assert_eq!(join_path(b"", "b"), b"b".to_vec());
    assert_eq!(join_path(b"/", "b"), b"/b".to_vec());
    assert_eq!(join_path(b"\xff", "b"), b"\xff/b".to_vec());
}

#[test]
fn durations_are_in_milliseconds() {
    let settings = cli("/mnt/a", "nats://host", "eventfs");
    assert_eq!(settings.timeout(), 2_000);
    assert_eq!(settings.stream_duplicate_window(), 86_400_000);
}
