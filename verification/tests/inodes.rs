use eventfs::attr::FileType;
use eventfs::path_cache::{PathCache, ROOT_INO};
use eventfs::MountPath;

fn mp(path: &str) -> MountPath {
    MountPath::new(path).unwrap()
}

#[test]
fn path_cache_reuses_inodes_and_updates_kind() {
    let mut cache = PathCache::new();
    let ino = cache.ensure(&mp("/kv/demo"), FileType::Directory);
    let again = cache.ensure(&mp("kv/demo"), FileType::RegularFile);
    assert_eq!(ino, again);
    assert_eq!(
        cache.entry(&mp("/kv/demo")).unwrap().1,
        FileType::RegularFile
    );
}

#[test]
fn path_cache_builds_child_paths_from_root_and_nested_dirs() {
    let mut cache = PathCache::new();
    let parent = cache.ensure(&mp("/kv/demo"), FileType::Directory);
    assert_eq!(
        cache.child_path(ROOT_INO, "kv").unwrap(),
        mp("/kv")
    );
    assert_eq!(
        cache.child_path(parent, "file.json").unwrap(),
        mp("/kv/demo/file.json")
    );
}

#[test]
fn path_cache_removes_descendants_for_watch_invalidation() {
    let mut cache = PathCache::new();
    let parent = cache.ensure(&mp("/kv/demo/dir"), FileType::Directory);
    let child = cache.ensure(&mp("/kv/demo/dir/file.json"), FileType::RegularFile);
    let sibling = cache.ensure(&mp("/kv/demo/other.json"), FileType::RegularFile);

    cache.remove_recursive(&mp("/kv/demo/dir"));

    assert!(cache.entry(&mp("/kv/demo/dir")).is_none());
    assert!(cache.path(parent).is_none());
    assert!(cache.entry(&mp("/kv/demo/dir/file.json")).is_none());
    assert!(cache.path(child).is_none());
    assert!(cache.entry(&mp("/kv/demo/other.json")).is_some());
    assert_eq!(cache.path(sibling), Some(&mp("/kv/demo/other.json")));
}

#[test]
fn path_cache_can_preserve_invalidated_parent_inode() {
    let mut cache = PathCache::new();
    let parent = cache.ensure(&mp("/kv/demo/dir"), FileType::Directory);
    let child = cache.ensure(&mp("/kv/demo/dir/file.json"), FileType::RegularFile);

    cache.remove_descendants(&mp("/kv/demo/dir"));

    assert!(cache.entry(&mp("/kv/demo/dir")).is_some());
    assert_eq!(cache.path(parent), Some(&mp("/kv/demo/dir")));
    assert!(cache.entry(&mp("/kv/demo/dir/file.json")).is_none());
    assert!(cache.path(child).is_none());
}
