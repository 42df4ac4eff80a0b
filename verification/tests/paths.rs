use lux_patcher::config::PatcherConfig;
use lux_patcher::patcher::{PatcherDirs, PatcherKeys};
use lux_patcher::util::join;

#[test]
fn join_relative() {
    let mut base = "/home/user".to_owned();
    join(&mut base, "sub/./dir");
    assert_eq!(base, "/home/user/sub/dir");
}

#[test]
fn join_parent() {
    let mut base = "/home/user".to_owned();
    join(&mut base, "../other");
    assert_eq!(base, "/home/other");
}

#[test]
fn join_absolute_replaces() {
    let mut base = "/home/user".to_owned();
    join(&mut base, "/abs/path");
    assert_eq!(base, "/abs/path");
}

#[test]
fn join_past_root_stays_at_root() {
    let mut base = "/one".to_owned();
    join(&mut base, "../../..");
    assert_eq!(base, "/");
}

#[test]
fn join_onto_relative_base() {
    let mut base = "work".to_owned();
    join(&mut base, "files");
    assert_eq!(base, "work/files");
}

#[test]
fn patcher_dirs_resolve() {
    let cfg = PatcherConfig::default();
    // The default install path is the parent of the working directory,
    // and the download area sits inside the install area.
    let dirs = PatcherDirs::resolve("/srv/patcher", &cfg, None);
    assert_eq!(dirs.install, "/srv");
    assert_eq!(dirs.download, "/srv/versions");
    let explicit = PatcherDirs::resolve("/srv/patcher", &cfg, Some("/opt/lu"));
    assert_eq!(explicit.install, "/opt/lu");
    assert_eq!(explicit.download, "/opt/lu/versions");
}

#[test]
fn patcher_keys() {
    let cfg = PatcherConfig::default();
    let keys = PatcherKeys::new(&cfg);
    // The staging area prefixes its cache keys, the install area does
    // not, so the same relative path never collides across areas.
    assert_eq!(keys.download, "versions/");
    assert_eq!(keys.install, "");
}
