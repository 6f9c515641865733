use tangram::dependency::{Dependency, Metadata};
use tangram::locking::{CreateError, LockError};
use tangram::scan::PackageTree;
use tangram::solve::{Abort, Action, Request, Response, Solver};

fn metadata(name: &str, version: Option<&str>) -> Metadata {
    Metadata { name: Some(name.to_owned()), version: version.map(str::to_owned), description: None }
}

fn registry_dep(name: &str, version: &str) -> Dependency {
    Dependency::with_name_and_version(name.to_owned(), Some(version.to_owned()))
}

fn path_dep(name: &str, path: &str) -> Dependency {
    Dependency { id: None, name: Some(name.to_owned()), path: Some(path.to_owned()), version: None }
}

fn root(dependencies: Vec<Dependency>) -> PackageTree {
    PackageTree { id: "root".to_owned(), metadata: metadata("root", Some("1.0.0")), dependencies, path_dependencies: Vec::new() }
}

/// Steps the solver, answering with `answer`, until it stops; returns how it stopped.
fn run(solver: &mut Solver, answer: &dyn Fn(Request) -> Response) -> Action {
    let mut response = None;
    for _ in 0..10_000 {
        match solver.step(response.take()) {
            Action::Continue => {},
            Action::Request(request) => response = Some(answer(request)),
            other => return other,
        }
    }
    panic!("solving did not stop");
}

fn registry(request: Request) -> Response {
    match request {
        Request::Versions { .. } => Response::Versions(Ok(vec!["1.0.0".to_owned()])),
        Request::Package { name, version } => Response::Package(Ok(Some(format!("{name}@{version}")))),
        Request::Analysis { package } => {
            let name = package.split('@').next().unwrap().to_owned();
            Response::Analysis(Ok((metadata(&name, Some("1.0.0")), Vec::new())))
        },
    }
}

#[test]
fn a_dependency_without_name_aborts() {
    let mut solver = Solver::new();
    solver.scan(&root(vec![Dependency::with_id("some-id".to_owned())]));
    assert!(matches!(run(&mut solver, &registry), Action::Abort(Abort::MissingName)));
}

#[test]
fn a_failed_analysis_aborts() {
    let mut solver = Solver::new();
    solver.scan(&root(vec![registry_dep("x", "^1")]));
    let answer = |request: Request| match request {
        Request::Analysis { .. } => Response::Analysis(Err("no such package".to_owned())),
        other => registry(other),
    };
    match run(&mut solver, &answer) {
        Action::Abort(Abort::AnalysisFailed(message)) => assert_eq!(message, "no such package"),
        _ => panic!("expected a failed analysis"),
    }
}

#[test]
fn an_unexpected_response_aborts() {
    let mut solver = Solver::new();
    solver.scan(&root(vec![registry_dep("x", "^1")]));
    let answer = |_: Request| Response::Package(Ok(Some("x@1.0.0".to_owned())));
    assert!(matches!(run(&mut solver, &answer), Action::Abort(Abort::UnexpectedResponse)));
}

#[test]
fn a_package_without_version_aborts() {
    let mut solver = Solver::new();
    solver.scan(&root(vec![registry_dep("x", "^1"), registry_dep("x", ">=1")]));
    let answer = |request: Request| match request {
        Request::Analysis { .. } => Response::Analysis(Ok((metadata("x", None), Vec::new()))),
        other => registry(other),
    };
    assert!(matches!(run(&mut solver, &answer), Action::Abort(Abort::MissingVersion)));
}

fn bar() -> PackageTree {
    PackageTree {
        id: "bar".to_owned(),
        metadata: metadata("bar", Some("1.0.0")),
        dependencies: vec![registry_dep("baz", "^1")],
        path_dependencies: Vec::new(),
    }
}

fn foo() -> PackageTree {
    PackageTree {
        id: "foo".to_owned(),
        metadata: metadata("foo", Some("1.0.0")),
        dependencies: vec![path_dep("bar", "./bar")],
        path_dependencies: vec![(path_dep("bar", "./bar"), bar())],
    }
}

#[test]
fn an_unmarked_child_of_a_tentative_package_aborts() {
    let mut solver = Solver::new();
    solver.scan(&foo());
    let foo_index = solver.packages.find("foo").unwrap();
    let bar_index = solver.packages.find("bar").unwrap();
    let bar_dependency = solver.dependencies.iter().position(|d| d.path.is_some()).unwrap();
    let dependant = (foo_index, bar_dependency);
    solver.current.solution = solver.current.solution.mark_temporarily(dependant, bar_index);
    solver.current.working_set = im::Vector::from(vec![dependant]);
    assert!(matches!(run(&mut solver, &registry), Action::Abort(Abort::MissingMark)));
}

#[test]
fn an_index_out_of_range_aborts() {
    let mut solver = Solver::new();
    solver.scan(&foo());
    solver.current.working_set = im::Vector::from(vec![(0, 99)]);
    assert!(matches!(run(&mut solver, &registry), Action::Abort(Abort::InvalidReference)));
}

#[test]
fn locking_without_solving_misses_solutions() {
    let mut solver = Solver::new();
    solver.scan(&foo());
    let bar_index = solver.packages.find("bar").unwrap();
    match solver.create_lockfile() {
        Err(CreateError::Lock(LockError::MissingSolution { package, .. })) => assert_eq!(package, bar_index),
        _ => panic!("expected a missing solution"),
    }
}

#[test]
fn locking_a_package_without_analysis_fails() {
    let mut solver = Solver::new();
    solver.scan(&foo());
    let bar_index = solver.packages.find("bar").unwrap();
    solver.analysis[bar_index] = None;
    match solver.create_lockfile() {
        Err(CreateError::Lock(LockError::MissingPackage { package })) => assert_eq!(package, bar_index),
        _ => panic!("expected a missing package"),
    }
}

#[test]
fn locking_circular_path_dependencies_fails() {
    let back = PackageTree {
        id: "foo".to_owned(),
        metadata: metadata("foo", Some("1.0.0")),
        dependencies: vec![path_dep("bar", "./bar")],
        path_dependencies: Vec::new(),
    };
    let bar = PackageTree {
        id: "bar".to_owned(),
        metadata: metadata("bar", Some("1.0.0")),
        dependencies: vec![path_dep("foo", "../foo")],
        path_dependencies: vec![(path_dep("foo", "../foo"), back)],
    };
    let foo = PackageTree {
        id: "foo".to_owned(),
        metadata: metadata("foo", Some("1.0.0")),
        dependencies: vec![path_dep("bar", "./bar")],
        path_dependencies: vec![(path_dep("bar", "./bar"), bar)],
    };
    let mut solver = Solver::new();
    solver.scan(&foo);
    assert!(matches!(solver.create_lockfile(), Err(CreateError::Lock(LockError::Cycle { .. }))));
}

#[test]
fn locking_with_a_dangling_dependency_index_fails() {
    let mut solver = Solver::new();
    solver.scan(&foo());
    let foo_index = solver.packages.find("foo").unwrap();
    if let Some(analysis) = solver.analysis[foo_index].as_mut() {
        analysis.dependencies.insert(0, 99);
    }
    assert!(matches!(solver.create_lockfile(), Err(CreateError::Lock(LockError::InvalidReference))));
}
