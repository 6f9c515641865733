use tangram::dependency::{Dependency, Metadata};
use tangram::locking::CreateError;
use tangram::scan::PackageTree;
use tangram::solution::{Mark, Outcome};
use tangram::solve::{Abort, Action, Request, Response, SolveError, Solver};

struct Package {
    name: &'static str,
    version: &'static str,
    dependencies: Vec<(&'static str, &'static str)>,
    available: bool,
}

fn package(name: &'static str, version: &'static str, dependencies: &[(&'static str, &'static str)]) -> Package {
    Package { name, version, dependencies: dependencies.to_vec(), available: true }
}

/// A version that the registry lists but does not have.
fn unavailable(name: &'static str, version: &'static str) -> Package {
    Package { name, version, dependencies: Vec::new(), available: false }
}

fn id(name: &str, version: &str) -> String {
    format!("{name}@{version}")
}

fn deps(p: &Package) -> Vec<Dependency> {
    p.dependencies
        .iter()
        .map(|(n, v)| Dependency::with_name_and_version((*n).to_owned(), Some((*v).to_owned())))
        .collect()
}

fn metadata(p: &Package) -> Metadata {
    Metadata { name: Some(p.name.to_owned()), version: Some(p.version.to_owned()), description: None }
}

fn answer(registry: &[Package], request: Request) -> Response {
    match request {
        Request::Versions { name } => {
            let versions: Vec<String> =
                registry.iter().filter(|p| p.name == name).map(|p| p.version.to_owned()).collect();
            if versions.is_empty() {
                Response::Versions(Err(format!("no package {name}")))
            } else {
                Response::Versions(Ok(versions))
            }
        },
        Request::Package { name, version } => {
            match registry.iter().find(|p| p.name == name && p.version == version) {
                Some(p) if p.available => Response::Package(Ok(Some(id(p.name, p.version)))),
                _ => Response::Package(Ok(None)),
            }
        },
        Request::Analysis { package } => match registry.iter().find(|p| id(p.name, p.version) == package) {
            Some(p) => Response::Analysis(Ok((metadata(p), deps(p)))),
            None => Response::Analysis(Err(format!("no package {package}"))),
        },
    }
}

/// Solves the dependencies of the root package against the registry.
fn solve(registry: &[Package], root: &str, version: &str) -> Solver {
    match run(registry, root, version, 100_000) {
        Some(solver) => solver,
        None => panic!("solving did not finish"),
    }
}

/// Steps the solver at most `bound` times; `None` if it has not finished by then.
fn run(registry: &[Package], root: &str, version: &str, bound: usize) -> Option<Solver> {
    let root = registry.iter().find(|p| p.name == root && p.version == version).unwrap();
    let tree = PackageTree {
        id: id(root.name, root.version),
        metadata: metadata(root),
        dependencies: deps(root),
        path_dependencies: Vec::new(),
    };
    let mut solver = Solver::new();
    solver.scan(&tree);
    let mut response = None;
    for _ in 0..bound {
        match solver.step(response.take()) {
            Action::Continue => {},
            Action::Done => return Some(solver),
            Action::Request(request) => response = Some(answer(registry, request)),
            Action::Abort(abort) => panic!("solving aborted: {}", abort_name(&abort)),
        }
    }
    None
}

fn abort_name(abort: &Abort) -> &'static str {
    match abort {
        Abort::MissingName => "missing name",
        Abort::MissingVersion => "missing version",
        Abort::MissingMark => "missing mark",
        Abort::AnalysisFailed(_) => "analysis failed",
        Abort::UnexpectedResponse => "unexpected response",
        Abort::InvalidReference => "invalid reference",
    }
}

/// The id of the package that the dependency on `name` of package `from` resolved to.
fn resolved(solver: &Solver, from: &str, name: &str) -> Option<String> {
    let p = solver.packages.find(from)?;
    for (d, dependency) in solver.dependencies.iter().enumerate() {
        if dependency.name.as_deref() == Some(name) {
            if let Some(Mark::Permanent(Outcome::Resolved(r))) = solver.current.solution.get_partial((p, d)) {
                return Some(solver.packages.get(r).clone());
            }
        }
    }
    None
}

/// Whether every dependant settled with a package names a package of the dependency's name
/// at a version that satisfies its constraint.
fn solution_is_sound(solver: &Solver) -> bool {
    for (p, analysis) in solver.analysis.iter().enumerate().filter_map(|(p, a)| a.as_ref().map(|a| (p, a))) {
        for &d in &analysis.dependencies {
            if let Some(Mark::Permanent(Outcome::Resolved(r))) = solver.current.solution.get_partial((p, d)) {
                let dep = &solver.dependencies[d];
                let meta = &solver.metadata[solver.analysis[r].as_ref().unwrap().metadata];
                if meta.name != dep.name || tangram::version::matches(meta.version.as_deref().unwrap(), dep) != Ok(true) {
                    return false;
                }
            }
        }
    }
    true
}

/// Whether no dependant is left tentatively marked.
fn no_temporary_marks(solver: &Solver) -> bool {
    solver.marked_dependants().iter().all(|d| !matches!(solver.current.solution.get_partial(*d), Some(Mark::Temporary(_))))
}

fn is_solved(solver: &Solver) -> bool {
    solver.failures().is_empty()
}

#[test]
fn lib_simple_diamond() {
    let registry = vec![
        package("simple_diamond_A", "1.0.0", &[("simple_diamond_B", "^1.0"), ("simple_diamond_C", "^1.0")]),
        package("simple_diamond_B", "1.0.0", &[("simple_diamond_D", "^1.0")]),
        package("simple_diamond_C", "1.0.0", &[("simple_diamond_D", "^1.0")]),
        package("simple_diamond_D", "1.0.0", &[]),
    ];
    let solver = solve(&registry, "simple_diamond_A", "1.0.0");
    assert!(is_solved(&solver), "Failed to solve simple_diamond case.");
    assert_eq!(resolved(&solver, "simple_diamond_B@1.0.0", "simple_diamond_D").as_deref(), Some("simple_diamond_D@1.0.0"));
    assert_eq!(resolved(&solver, "simple_diamond_C@1.0.0", "simple_diamond_D").as_deref(), Some("simple_diamond_D@1.0.0"));
    assert!(solver.create_lockfile().is_ok());
}

#[test]
fn lib_simple_backtrack() {
    let registry = vec![
        package("simple_backtrack_A", "1.0.0", &[("simple_backtrack_B", "^1.2.3"), ("simple_backtrack_C", "<1.2.3")]),
        package("simple_backtrack_B", "1.2.3", &[("simple_backtrack_C", "<1.2.3")]),
        package("simple_backtrack_C", "1.2.2", &[]),
        package("simple_backtrack_C", "1.2.3", &[]),
    ];
    let solver = solve(&registry, "simple_backtrack_A", "1.0.0");
    assert!(is_solved(&solver), "Failed to solve simple_backtrack case.");
    assert_eq!(resolved(&solver, "simple_backtrack_A@1.0.0", "simple_backtrack_C").as_deref(), Some("simple_backtrack_C@1.2.2"));
}

#[test]
fn lib_diamond_backtrack() {
    let registry = vec![
        package("diamond_backtrack_A", "1.0.0", &[("diamond_backtrack_B", "1.0.0"), ("diamond_backtrack_C", "1.0.0")]),
        package("diamond_backtrack_B", "1.0.0", &[("diamond_backtrack_D", "<1.5.0")]),
        package("diamond_backtrack_C", "1.0.0", &[("diamond_backtrack_D", "<1.3.0")]),
        package("diamond_backtrack_D", "1.1.0", &[]),
        package("diamond_backtrack_D", "1.2.0", &[]),
        package("diamond_backtrack_D", "1.3.0", &[]),
        package("diamond_backtrack_D", "1.4.0", &[]),
        package("diamond_backtrack_D", "1.5.0", &[]),
    ];
    let solver = solve(&registry, "diamond_backtrack_A", "1.0.0");
    assert!(is_solved(&solver), "Failed to solve diamond_backtrack case.");
    assert_eq!(resolved(&solver, "diamond_backtrack_C@1.0.0", "diamond_backtrack_D").as_deref(), Some("diamond_backtrack_D@1.2.0"));
}

#[test]
fn lib_cycle_exists() {
    let registry = vec![
        package("cycle_exists_A", "1.0.0", &[("cycle_exists_B", "1.0.0")]),
        package("cycle_exists_B", "1.0.0", &[("cycle_exists_C", "1.0.0")]),
        package("cycle_exists_C", "1.0.0", &[("cycle_exists_B", "1.0.0")]),
    ];
    let solver = solve(&registry, "cycle_exists_A", "1.0.0");
    assert!(!is_solved(&solver), "Expected to fail with cycle detection.");
    assert!(matches!(solver.create_lockfile(), Err(CreateError::Unsolved(_))));
}

#[test]
fn lib_diamond_incompatible_versions() {
    let registry = vec![
        package("diamond_incompatible_versions_A", "1.0.0", &[("diamond_incompatible_versions_B", "1.0.0"), ("diamond_incompatible_versions_C", "1.0.0")]),
        package("diamond_incompatible_versions_B", "1.0.0", &[("diamond_incompatible_versions_D", "<1.2.0")]),
        package("diamond_incompatible_versions_C", "1.0.0", &[("diamond_incompatible_versions_D", ">1.3.0")]),
        package("diamond_incompatible_versions_D", "1.0.0", &[]),
        package("diamond_incompatible_versions_D", "1.1.0", &[]),
        package("diamond_incompatible_versions_D", "1.2.0", &[]),
        package("diamond_incompatible_versions_D", "1.3.0", &[]),
        package("diamond_incompatible_versions_D", "1.4.0", &[]),
    ];
    let solver = solve(&registry, "diamond_incompatible_versions_A", "1.0.0");
    assert!(!is_solved(&solver), "Expected to fail: no version satisfies both constraints.");
    assert!(matches!(solver.create_lockfile(), Err(CreateError::Unsolved(_))));
}

fn complex_diamond_registry(d_versions: [&'static str; 2]) -> Vec<Package> {
    let d = |version: &'static str| {
        if version == "1.3.0" {
            package("complex_diamond_D", "1.3.0", &[("complex_diamond_E", "=1.0.0")])
        } else {
            package("complex_diamond_D", "1.2.0", &[("complex_diamond_E", "^1.0.0")])
        }
    };
    vec![
        package(
            "complex_diamond_A",
            "1.0.0",
            &[
                ("complex_diamond_B", "^1.0.0"),
                ("complex_diamond_E", "^1.1.0"),
                ("complex_diamond_C", "^1.0.0"),
                ("complex_diamond_D", "^1.0.0"),
            ],
        ),
        package("complex_diamond_B", "1.0.0", &[("complex_diamond_D", "^1.0.0")]),
        package("complex_diamond_C", "1.0.0", &[("complex_diamond_D", "^1.0.0"), ("complex_diamond_E", ">1.0.0")]),
        d(d_versions[0]),
        d(d_versions[1]),
        package("complex_diamond_E", "1.0.0", &[]),
        package("complex_diamond_E", "1.1.0", &[]),
    ]
}

#[test]
fn lib_complex_diamond() {
    let registry = complex_diamond_registry(["1.3.0", "1.2.0"]);
    let solver = solve(&registry, "complex_diamond_A", "1.0.0");
    assert!(is_solved(&solver), "Failed to solve diamond_backtrack case.");
    assert!(solution_is_sound(&solver));
    assert!(solver.create_lockfile().is_ok());
}

#[test]
fn complex_diamond_with_versions_oldest_first() {
    // D 1.3.0 is tried first and settles E at 1.0.0, which C refuses: the search goes back to
    // the choice of E, finds no other version, goes back to the choice of D and takes 1.2.0.
    let registry = complex_diamond_registry(["1.2.0", "1.3.0"]);
    let solver = solve(&registry, "complex_diamond_A", "1.0.0");
    assert!(is_solved(&solver), "Failed to solve complex_diamond with versions oldest first.");
    assert!(solution_is_sound(&solver));
    assert!(no_temporary_marks(&solver));
    assert_eq!(resolved(&solver, "complex_diamond_A@1.0.0", "complex_diamond_D").as_deref(), Some("complex_diamond_D@1.2.0"));
    assert_eq!(resolved(&solver, "complex_diamond_A@1.0.0", "complex_diamond_E").as_deref(), Some("complex_diamond_E@1.1.0"));
    assert!(solver.create_lockfile().is_ok());
}

#[test]
fn a_package_without_versions_is_reported() {
    let registry = vec![package("missing_A", "1.0.0", &[("missing_B", "^1.0.0")])];
    let solver = solve(&registry, "missing_A", "1.0.0");
    let a = solver.packages.find("missing_A@1.0.0").unwrap();
    let failures = solver.failures();
    assert_eq!(failures.len(), 1);
    assert_eq!(failures[0].0 .0, a);
    assert!(matches!(&solver.errors[failures[0].1], SolveError::Other(m) if m == "no package missing_B"));
    match solver.create_lockfile() {
        Err(CreateError::Unsolved(v)) => assert_eq!(v.len(), 1),
        _ => panic!("expected the missing package to be reported"),
    }
}

#[test]
fn unavailable_versions_are_skipped() {
    let registry = vec![
        package("skip_A", "1.0.0", &[("skip_B", "^1.0.0")]),
        package("skip_B", "1.0.0", &[]),
        unavailable("skip_B", "1.1.0"),
    ];
    let solver = solve(&registry, "skip_A", "1.0.0");
    assert!(is_solved(&solver));
    assert_eq!(resolved(&solver, "skip_A@1.0.0", "skip_B").as_deref(), Some("skip_B@1.0.0"));
}

#[test]
fn only_unavailable_versions_are_a_conflict() {
    let registry = vec![package("gone_A", "1.0.0", &[("gone_B", "^1.0.0")]), unavailable("gone_B", "1.0.0")];
    let solver = solve(&registry, "gone_A", "1.0.0");
    let failures = solver.failures();
    assert_eq!(failures.len(), 1);
    assert!(matches!(solver.errors[failures[0].1], SolveError::PackageVersionConflict));
}
