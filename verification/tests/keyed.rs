use tangram::dependency::Dependency;
use tangram::keyed::{KeyedError, KeyedLockfile};

fn dep(name: &str) -> Dependency {
    Dependency::with_name_and_version(name.to_owned(), Some("^1".to_owned()))
}

fn lockfile() -> KeyedLockfile {
    KeyedLockfile {
        paths: vec![(".".to_owned(), "lock-a".to_owned())],
        locks: vec![
            ("lock-a".to_owned(), vec![(dep("b"), "pkg-b".to_owned(), "lock-b".to_owned())]),
            ("lock-b".to_owned(), vec![]),
        ],
    }
}

#[test]
fn locks_of_a_path_are_followed() {
    let nodes = lockfile().lock(".").unwrap();
    assert_eq!(nodes.len(), 2);
    let root = nodes.last().unwrap();
    assert_eq!(root.dependencies.len(), 1);
    assert_eq!(root.dependencies[0].1, "pkg-b");
    assert_eq!(root.dependencies[0].2, 0);
    assert!(nodes[0].dependencies.is_empty());
}

#[test]
fn missing_paths_and_locks_are_errors() {
    assert!(matches!(lockfile().lock("./other"), Err(KeyedError::NoLockForPath)));
    let mut corrupted = lockfile();
    corrupted.locks.pop();
    assert!(matches!(corrupted.lock("."), Err(KeyedError::MissingLock)));
    let mut cyclic = lockfile();
    cyclic.locks[1].1.push((dep("a"), "pkg-a".to_owned(), "lock-a".to_owned()));
    assert!(matches!(cyclic.lock("."), Err(KeyedError::Cycle)));
}

#[test]
fn changed_dependencies_are_noticed() {
    let lf = lockfile();
    let id = "lock-a".to_owned();
    assert!(lf.dependencies_unchanged(&id, &vec![dep("b")]));
    assert!(!lf.dependencies_unchanged(&id, &vec![dep("c")]));
    assert!(!lf.dependencies_unchanged(&id, &vec![dep("b"), dep("c")]));
    assert!(!lf.dependencies_unchanged(&id, &Vec::new()));
    assert!(lf.dependencies_unchanged(&"lock-b".to_owned(), &Vec::new()));
    assert!(!lf.dependencies_unchanged(&"no-such-lock".to_owned(), &vec![dep("b")]));
    assert!(lf.dependencies_unchanged(&"no-such-lock".to_owned(), &Vec::new()));
}
