use archbrew::clean::{clean_cache, CleanStep};
use archbrew::paths::{
    aur_sandbox_home_dir, aur_snapshot_cache_dir, aur_source_cache_dir, cache_root_for_user,
    is_absolute, join_path, package_name_from_pkg_file,
};
use std::path::Path;

#[test]
fn joining_is_that_of_path() {
    for base in vec!["", "/", "a", "a/", "/var/tmp", "/var/tmp/", "é"] {
        for part in vec!["", "b", "b/c", "/b", ".", "..", "漢"] {
            let expected = Path::new(base).join(part);
            assert_eq!(join_path(base, part), expected.to_str().unwrap(), "{base:?} {part:?}");
        }
    }
}

#[test]
fn absolute_is_that_of_path() {
    for path in vec!["", "/", "a", "/a", "./a", "../a", "//a"] {
        assert_eq!(is_absolute(path), Path::new(path).is_absolute());
    }
}

#[test]
fn file_names_are_those_of_path() {
    for path in vec![
        "", "/", ".", "..", "a", "/a", "a/", "a//", "a/.", "a/./", "a/..", "./a", "../a", "a/b",
        "/x/y.pkg.tar.zst", "a/../b", "...", "a/...", "./.", "//", ".a",
    ] {
        let expected = match Path::new(path).file_name() {
            Some(name) => name.to_str().unwrap().to_string(),
            None => path.to_string(),
        };
        assert_eq!(package_name_from_pkg_file(path), expected, "{path:?}");
    }
}

#[test]
fn caches_of_a_user() {
    assert_eq!(cache_root_for_user("ann"), "/var/tmp/archbrew-cache/ann");
    assert_eq!(aur_snapshot_cache_dir("ann"), "/var/tmp/archbrew-cache/ann/snapshots");
    assert_eq!(aur_source_cache_dir("ann"), "/var/tmp/archbrew-cache/ann/sources");
    assert_eq!(aur_sandbox_home_dir("ann"), "/var/tmp/archbrew-cache/ann/sandbox-home");
}

#[test]
fn relative_parts_stay_below() {
    let whole = join_path("/var/tmp", "a/b");
    assert!(whole.starts_with("/var/tmp") && whole.ends_with("a/b"));
}

#[test]
fn cleaning_the_cache() {
    match clean_cache("ann", None, &None) {
        CleanStep::Look(path) => assert_eq!(path, "/var/tmp/archbrew-cache/ann"),
        other => panic!("{other:?}"),
    }
    match clean_cache("ann", Some(false), &None) {
        CleanStep::Clean(line) => {
            assert_eq!(line, "\x1b[32m==>\x1b[0m ArchBrew cache is already clean")
        }
        other => panic!("{other:?}"),
    }
    match clean_cache("ann", Some(true), &None) {
        CleanStep::Remove(path) => assert_eq!(path, "/var/tmp/archbrew-cache/ann"),
        other => panic!("{other:?}"),
    }
    match clean_cache("ann", Some(true), &Some(Ok(()))) {
        CleanStep::Clean(line) => assert_eq!(
            line,
            "\x1b[32m==>\x1b[0m Removed ArchBrew cache: /var/tmp/archbrew-cache/ann"
        ),
        other => panic!("{other:?}"),
    }
    match clean_cache("ann", Some(true), &Some(Err("busy".to_string()))) {
        CleanStep::Failed(message) => assert_eq!(
            message,
            "failed to remove cache '/var/tmp/archbrew-cache/ann': busy"
        ),
        other => panic!("{other:?}"),
    }
}
