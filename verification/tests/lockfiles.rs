use tangram::dependency::{Dependency, Metadata};
use tangram::lockfile::{Entry, Lock, Lockfile};
use tangram::locking::CreateError;
use tangram::reading::{create_lock, fits, lockfile_action, lockfile_matches, LockfileAction, ReadError};
use tangram::scan::PackageTree;
use tangram::solve::{Action, Request, Response, Solver};

fn metadata(name: &str, version: &str) -> Metadata {
    Metadata { name: Some(name.to_owned()), version: Some(version.to_owned()), description: None }
}

fn registry_dep(name: &str, version: &str) -> Dependency {
    Dependency::with_name_and_version(name.to_owned(), Some(version.to_owned()))
}

fn path_dep(name: &str, path: &str) -> Dependency {
    Dependency { id: None, name: Some(name.to_owned()), path: Some(path.to_owned()), version: None }
}

/// A registry with baz 1.2.3 and 1.3.0, and bar 1.0.0 (which is also found by path).
fn answer(request: Request) -> Response {
    match request {
        Request::Versions { name } => match name.as_str() {
            "baz" => Response::Versions(Ok(vec!["1.2.3".to_owned(), "1.3.0".to_owned()])),
            "bar" => Response::Versions(Ok(vec!["1.0.0".to_owned()])),
            _ => Response::Versions(Err("unknown package".to_owned())),
        },
        Request::Package { name, version } => Response::Package(Ok(Some(format!("{name}@{version}")))),
        Request::Analysis { package } => match package.as_str() {
            "baz@1.2.3" => Response::Analysis(Ok((metadata("baz", "1.2.3"), Vec::new()))),
            "baz@1.3.0" => Response::Analysis(Ok((metadata("baz", "1.3.0"), Vec::new()))),
            _ => Response::Analysis(Err("unknown package".to_owned())),
        },
    }
}

fn bar() -> PackageTree {
    PackageTree {
        id: "bar-id".to_owned(),
        metadata: metadata("bar", "1.0.0"),
        dependencies: vec![registry_dep("baz", "=1.2.3")],
        path_dependencies: Vec::new(),
    }
}

fn foo() -> PackageTree {
    PackageTree {
        id: "foo-id".to_owned(),
        metadata: metadata("foo", "1.0.0"),
        dependencies: vec![path_dep("bar", "./bar"), registry_dep("baz", "^1")],
        path_dependencies: vec![(path_dep("bar", "./bar"), bar())],
    }
}

fn solve(tree: &PackageTree) -> Solver {
    let mut solver = Solver::new();
    solver.scan(tree);
    let mut response = None;
    for _ in 0..10_000 {
        match solver.step(response.take()) {
            Action::Continue => {},
            Action::Done => return solver,
            Action::Request(request) => response = Some(answer(request)),
            Action::Abort(_) => panic!("solving aborted"),
        }
    }
    panic!("solving did not finish");
}

#[test]
fn scan_records_path_tables() {
    let mut solver = Solver::new();
    solver.scan(&foo());
    let foo_index = solver.packages.find("foo-id").unwrap();
    let bar_index = solver.packages.find("bar-id").unwrap();
    let table = solver.path_dependencies[foo_index].as_ref().unwrap();
    assert_eq!(table.len(), 1);
    assert_eq!(table[0].0, "./bar");
    assert_eq!(table[0].1, bar_index);
    assert!(solver.path_dependencies[bar_index].is_none());
    assert!(solver.analysis[bar_index].is_some());
}

#[test]
fn diamond_with_path_dependencies_locks() {
    let solver = solve(&foo());
    assert!(solver.failures().is_empty());
    let lockfile = match solver.create_lockfile() {
        Ok(lockfile) => lockfile,
        Err(_) => panic!("Failed to lock diamond with a path dependency."),
    };
    // The locks are created children first: baz's empty lock, then bar's, then foo's.
    assert_eq!(lockfile.locks.len(), 3);
    assert!(lockfile.locks[0].dependencies.is_empty());
    let bar_lock = &lockfile.locks[1];
    let baz = bar_lock.get(&registry_dep("baz", "=1.2.3")).unwrap();
    assert_eq!(baz.package.as_deref(), Some("baz@1.2.3"));
    assert_eq!(baz.lock, 0);
    let foo_lock = &lockfile.locks[2];
    let bar_entry = foo_lock.get(&path_dep("bar", "./bar")).unwrap();
    assert_eq!(bar_entry.package.as_deref(), Some("bar-id"));
    assert_eq!(bar_entry.lock, 1);
    assert_eq!(foo_lock.get(&registry_dep("baz", "^1")).unwrap().lock, 0);
    // The first lock is read as the root's: it does not fit foo.
    assert_eq!(lockfile_matches(&foo(), &lockfile), Ok(false));
}

fn entry(package: Option<&str>, lock: usize) -> Entry {
    Entry { package: package.map(str::to_owned), lock }
}

fn root_first_lockfile() -> Lockfile {
    let mut root = Lock::new();
    root.insert(path_dep("bar", "./bar"), entry(None, 1));
    root.insert(registry_dep("baz", "^1"), entry(Some("baz@1.2.3"), 2));
    let mut bar_lock = Lock::new();
    bar_lock.insert(registry_dep("baz", "=1.2.3"), entry(Some("baz@1.2.3"), 2));
    Lockfile { locks: vec![root, bar_lock, Lock::new()] }
}

#[test]
fn lockfile_with_root_first_fits() {
    assert_eq!(lockfile_matches(&foo(), &root_first_lockfile()), Ok(true));
    let mut other = foo();
    other.dependencies.push(registry_dep("qux", "^2"));
    assert_eq!(lockfile_matches(&other, &root_first_lockfile()), Ok(false));
    assert_eq!(lockfile_matches(&foo(), &Lockfile { locks: Vec::new() }), Err(ReadError::InvalidLockfile));
}

#[test]
fn following_a_lockfile() {
    let resolved = create_lock(&foo(), &root_first_lockfile()).unwrap();
    // Children first: the root's node is the last.
    let root = resolved.nodes.last().unwrap();
    assert_eq!(root.dependencies.len(), 2);
    assert_eq!(root.dependencies[0].1, "bar-id");
    assert_eq!(root.dependencies[1].1, "baz@1.2.3");
    let bar_node = &resolved.nodes[root.dependencies[0].2];
    assert_eq!(bar_node.dependencies[0].1, "baz@1.2.3");
}

#[test]
fn following_a_missing_or_cyclic_lock() {
    let mut root = Lock::new();
    root.insert(path_dep("qux", "./qux"), entry(None, 0));
    let missing = Lockfile { locks: vec![root] };
    assert!(matches!(create_lock(&foo(), &missing), Err(ReadError::MissingPathDependency)));
    let mut looping = Lock::new();
    looping.insert(registry_dep("baz", "^1"), entry(Some("baz@1.2.3"), 0));
    let cyclic = Lockfile { locks: vec![looping] };
    assert!(matches!(create_lock(&foo(), &cyclic), Err(ReadError::Cycle)));
    let mut dangling = Lock::new();
    dangling.insert(registry_dep("baz", "^1"), entry(Some("baz@1.2.3"), 7));
    assert!(matches!(create_lock(&foo(), &Lockfile { locks: vec![dangling] }), Err(ReadError::InvalidLockfile)));
}

fn cycle_answer(request: Request) -> Response {
    let deps = |name: &str| -> Vec<Dependency> {
        match name {
            "b@1.0.0" => vec![registry_dep("c", "1.0.0")],
            "c@1.0.0" => vec![registry_dep("b", "1.0.0")],
            _ => Vec::new(),
        }
    };
    match request {
        Request::Versions { .. } => Response::Versions(Ok(vec!["1.0.0".to_owned()])),
        Request::Package { name, version } => Response::Package(Ok(Some(format!("{name}@{version}")))),
        Request::Analysis { package } => {
            let name = package.split('@').next().unwrap().to_owned();
            Response::Analysis(Ok((metadata(&name, "1.0.0"), deps(&package))))
        },
    }
}

#[test]
fn cycles_are_reported() {
    let root = PackageTree {
        id: "a@1.0.0".to_owned(),
        metadata: metadata("a", "1.0.0"),
        dependencies: vec![registry_dep("b", "1.0.0")],
        path_dependencies: Vec::new(),
    };
    let mut solver = Solver::new();
    solver.scan(&root);
    let mut response = None;
    loop {
        match solver.step(response.take()) {
            Action::Continue => {},
            Action::Done => break,
            Action::Request(request) => response = Some(cycle_answer(request)),
            Action::Abort(_) => panic!("solving aborted"),
        }
    }
    let failures = match solver.create_lockfile() {
        Err(CreateError::Unsolved(failures)) => failures,
        _ => panic!("Expected to fail with cycle detection."),
    };
    let keys = solver.marked_dependants();
    let texts: Vec<String> = solver
        .dependencies
        .iter()
        .map(|d| format!("{}@{}", d.name.clone().unwrap_or_default(), d.version.clone().unwrap_or_default()))
        .collect();
    let report = solver.report(&keys, &texts, &failures, 0).unwrap();
    assert!(report.contains("which creates a cycle."), "{report}");
    assert!(report.contains(" requires "), "{report}");
    assert_eq!(solver.analysis_name(solver.packages.find("a@1.0.0").unwrap()), Ok("a".to_owned()));
}

#[test]
fn created_lockfiles_are_closed_and_without_repeated_locks() {
    let solver = solve(&foo());
    let lockfile = match solver.create_lockfile() {
        Ok(lockfile) => lockfile,
        Err(_) => panic!("Failed to lock diamond with a path dependency."),
    };
    let n = lockfile.locks.len();
    for lock in &lockfile.locks {
        for (_, entry) in &lock.dependencies {
            assert!(entry.lock < n);
        }
    }
    for i in 0..n {
        for j in 0..n {
            if i != j {
                assert!(!lockfile.locks[i].same(&lockfile.locks[j]));
            }
        }
    }
}

#[test]
fn a_fitting_lockfile_beside_a_path_package_is_reused() {
    assert!(matches!(lockfile_action(&foo(), true, Some(root_first_lockfile())), Ok(LockfileAction::Reuse(_))));
    let mut other = foo();
    other.dependencies.push(registry_dep("qux", "^2"));
    assert!(matches!(lockfile_action(&other, true, Some(root_first_lockfile())), Ok(LockfileAction::Create { write: true })));
    assert!(matches!(lockfile_action(&foo(), true, None), Ok(LockfileAction::Create { write: true })));
    assert!(matches!(lockfile_action(&foo(), false, Some(root_first_lockfile())), Ok(LockfileAction::Create { write: false })));
    assert!(matches!(lockfile_action(&foo(), true, Some(Lockfile { locks: Vec::new() })), Err(ReadError::InvalidLockfile)));
}

#[test]
fn a_path_dependency_whose_lock_does_not_fit_makes_the_lockfile_misfit() {
    let mut lockfile = root_first_lockfile();
    lockfile.locks[1].insert(registry_dep("qux", "^2"), entry(Some("qux@2.0.0"), 2));
    assert_eq!(lockfile_matches(&foo(), &lockfile), Ok(false));
}

#[test]
fn a_created_lockfile_fits_its_package_at_the_root_lock() {
    let solver = solve(&foo());
    let lockfile = match solver.create_lockfile() {
        Ok(lockfile) => lockfile,
        Err(_) => panic!("Failed to lock diamond with a path dependency."),
    };
    let n = lockfile.locks.len();
    assert_eq!(fits(&foo(), &lockfile, 2, n + 1), Ok(true));
    assert_eq!(fits(&bar(), &lockfile, 1, n + 1), Ok(true));
    assert_eq!(fits(&foo(), &lockfile, 0, n + 1), Ok(false));
    // Every dependency reads back the package that the solution chose for it.
    let foo_lock = &lockfile.locks[2];
    assert_eq!(foo_lock.get(&registry_dep("baz", "^1")).unwrap().package.as_deref(), Some("baz@1.2.3"));
    assert_eq!(lockfile.locks[1].get(&registry_dep("baz", "=1.2.3")).unwrap().package.as_deref(), Some("baz@1.2.3"));
}

#[test]
fn solving_keeps_what_scanning_recorded() {
    let mut scanned = Solver::new();
    scanned.scan(&foo());
    let solved = solve(&foo());
    let n = scanned.packages.items.len();
    assert!(solved.packages.items.len() >= n);
    for p in 0..n {
        assert_eq!(solved.packages.items[p], scanned.packages.items[p]);
        assert_eq!(solved.path_dependencies[p], scanned.path_dependencies[p]);
        if let Some(a) = &scanned.analysis[p] {
            let b = solved.analysis[p].as_ref().unwrap();
            assert_eq!(a.metadata, b.metadata);
            assert_eq!(a.dependencies, b.dependencies);
        }
    }
    for (i, d) in scanned.dependencies.iter().enumerate() {
        assert!(d.same(&solved.dependencies[i]));
    }
}
