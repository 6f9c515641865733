//! The mathematical model of version solving: the state of the solver and what one step
//! of the search does to it.
//!
//! The solver works through a stack of dependants. For each, it either finds the outcome
//! already settled for the package name, checks the children of a package it chose
//! tentatively (which detects cycles), or chooses a new package, newest matching version
//! first. When a choice proves wrong it backtracks to the latest saved frame in which a
//! package was chosen for that name, and tries the next version there. Whatever it needs from the registry it asks for by a
//! request, and the next step is handed the response.

use vstd::prelude::*;
use crate::dependency::{SpecDependency, SpecMetadata, seq_find, seq_intern};
use crate::solution::{
    Dependant, FrameView, Mark, Outcome, SolutionView, spec_mark_permanently, spec_mark_temporarily,
    spec_next_dependant,
};
use crate::version::spec_accepts;
use crate::version::spec_version_matches;

verus! {

/// The mathematical form of an error of version solving.
pub enum SpecError {
    /// No version satisfies all the constraints.
    PackageVersionConflict,
    /// Following a dependency closes a cycle; `dependant` is the edge at which it was found.
    PackageCycleExists { dependant: Dependant },
    /// The version `previous_version` of `package` was tried and its dependencies (by index,
    /// each with the index of its error) failed.
    Backtrack { package: usize, previous_version: Seq<char>, erroneous_dependencies: Seq<(usize, usize)> },
    /// A path dependency (by index) is missing from the path table of its package.
    PathDependencyNotFound { dependency: usize },
    /// The registry reported an error.
    Other(Seq<char>),
}

/// What the solver knows of a package: its metadata and its dependencies, by index.
pub struct AnalysisView {
    pub metadata: usize,
    pub dependencies: Seq<usize>,
}

/// The state of the solver.
pub struct SolverView {
    /// Package ids, by index.
    pub packages: Seq<Seq<char>>,
    /// Package names that have a permanent outcome, by index.
    pub names: Seq<Seq<char>>,
    /// Version texts, by index.
    pub versions: Seq<Seq<char>>,
    /// Dependencies, by index.
    pub dependencies: Seq<SpecDependency>,
    /// Metadata records, by index.
    pub metadata: Seq<SpecMetadata>,
    /// The analysis of each package, once it is known.
    pub analysis: Seq<Option<AnalysisView>>,
    /// Published packages: metadata index to package index.
    pub published: Map<usize, usize>,
    /// The path table of each package that has one: path to package index.
    pub path_dependencies: Seq<Option<Seq<(Seq<char>, usize)>>>,
    /// Errors, by index.
    pub errors: Seq<SpecError>,
    /// Saved frames, by index.
    pub frames: Seq<FrameView>,
    /// The frame being worked on.
    pub current: FrameView,
    /// The saved frames to backtrack to, oldest first.
    pub history: Seq<usize>,
}

/// A question to the registry.
pub enum RequestView {
    /// The published versions of the package `name`.
    Versions { name: Seq<char> },
    /// The id of the package `name` at `version`, if the registry has it.
    Package { name: Seq<char>, version: Seq<char> },
    /// The metadata and dependencies of the package with id `package`.
    Analysis { package: Seq<char> },
}

/// An answer of the registry, or its error message.
pub enum ResponseView {
    Versions(Result<Seq<Seq<char>>, Seq<char>>),
    Package(Result<Option<Seq<char>>, Seq<char>>),
    Analysis(Result<(SpecMetadata, Seq<SpecDependency>), Seq<char>>),
}

/// Why solving cannot go on.
pub enum AbortView {
    /// A registry dependency has no name.
    MissingName,
    /// A package's metadata has no version.
    MissingVersion,
    /// A child of a tentatively chosen package has no mark.
    MissingMark,
    /// The registry could not analyze a package.
    AnalysisFailed(Seq<char>),
    /// The response does not answer the request.
    UnexpectedResponse,
    /// A stored index is out of range.
    InvalidReference,
}

/// What the solver asks of its driver after a step.
pub enum ActionView {
    /// Step again.
    Continue,
    /// Answer this request in the next step.
    Request(RequestView),
    /// The working set is empty: the solution of the current frame is final.
    Done,
    /// Solving cannot go on.
    Abort(AbortView),
}

/// The dependency of a dependant.
pub open spec fn dep_of(s: SolverView, d: Dependant) -> SpecDependency {
    s.dependencies[d.1 as int]
}

/// Whether `d` is a path dependency of a package that has a path table.
pub open spec fn spec_is_path_dependency(s: SolverView, d: Dependant) -> bool {
    &&& d.0 < s.path_dependencies.len()
    &&& s.path_dependencies[d.0 as int] is Some
    &&& dep_of(s, d).path is Some
}

/// The outcome settled for the package name of `d` in `solution`; path dependencies have none.
pub open spec fn spec_get_permanent(s: SolverView, solution: SolutionView, d: Dependant) -> Option<Outcome> {
    if spec_is_path_dependency(s, d) {
        None
    } else {
        match dep_of(s, d).name {
            None => None,
            Some(n) => match seq_find(s.names, n) {
                None => None,
                Some(i) => if solution.permanent.contains_key(i as usize) {
                    Some(solution.permanent[i as usize])
                } else {
                    None
                },
            },
        }
    }
}

/// `solution` with `d` marked permanently with `o`; unless `d` is a path dependency, the
/// outcome is also recorded for its package name (which is then interned). `None` when the
/// name is needed and missing.
pub open spec fn spec_mark_perm(s: SolverView, solution: SolutionView, d: Dependant, o: Outcome) -> Option<(SolverView, SolutionView)> {
    if spec_is_path_dependency(s, d) {
        Some((s, spec_mark_permanently(solution, d, None, o)))
    } else {
        match dep_of(s, d).name {
            None => None,
            Some(n) => {
                let names = seq_intern(s.names, n);
                let i = seq_find(names, n).unwrap();
                Some((SolverView { names, ..s }, spec_mark_permanently(solution, d, Some(i as usize), o)))
            },
        }
    }
}

/// Whether the saved frame `h` is one in which a package was chosen for a registry dependant
/// on `name`: a frame saved when a package is chosen keeps that dependant on top of its
/// working set, to be taken again with the versions still left to try.
pub open spec fn frame_chose(s: SolverView, h: usize, name: Seq<char>) -> bool {
    h < s.frames.len() && match spec_next_dependant(s.frames[h as int]) {
        None => false,
        Some((_, d)) => d.1 < s.dependencies.len() && dep_of(s, d).name == Some(name) && !spec_is_path_dependency(s, d),
    }
}

/// The position in the history of the newest frame before position `j` that chose a package
/// for `name`, or -1 when there is none.
pub open spec fn spec_chooser_index(s: SolverView, name: Seq<char>, j: int) -> int
    decreases j,
{
    if j <= 0 || j > s.history.len() {
        -1
    } else if frame_chose(s, s.history[j - 1], name) {
        j - 1
    } else {
        spec_chooser_index(s, name, j - 1)
    }
}

/// The frame to backtrack to for the package `name`, with `error` as its last error, and its
/// position in the history: the newest saved frame that chose a package for the name, so
/// that the next of the versions left to try is chosen there.
pub open spec fn spec_try_backtrack(s: SolverView, name: Seq<char>, error: usize) -> Option<(FrameView, int)> {
    let k = spec_chooser_index(s, name, s.history.len() as int);
    if k >= 0 {
        Some((FrameView { last_error: Some(error), ..s.frames[s.history[k] as int] }, k))
    } else {
        None
    }
}

/// `t` with each of `xs` interned in turn, and the index of each.
pub open spec fn spec_intern_all<T>(t: Seq<T>, xs: Seq<T>) -> (Seq<T>, Seq<usize>)
    decreases xs.len(),
{
    if xs.len() == 0 {
        (t, Seq::empty())
    } else {
        let (t1, r1) = spec_intern_all(t, xs.drop_last());
        let t2 = seq_intern(t1, xs.last());
        (t2, r1.push(seq_find(t2, xs.last()).unwrap() as usize))
    }
}

/// The solver with the package id `id` interned (a new package has no analysis and no path
/// table yet), and its index.
pub open spec fn spec_intern_package(s: SolverView, id: Seq<char>) -> (SolverView, usize) {
    let packages = seq_intern(s.packages, id);
    let i = seq_find(packages, id).unwrap() as usize;
    if s.packages.contains(id) {
        (s, i)
    } else {
        (SolverView {
            packages,
            analysis: s.analysis.push(None),
            path_dependencies: s.path_dependencies.push(None),
            ..s
        }, i)
    }
}

/// Whether the analysis of package `p` keeps dependency `d`: path dependencies are left out
/// for packages that have a path table.
pub open spec fn spec_analysis_keeps(s: SolverView, p: usize, d: SpecDependency) -> bool {
    !(p < s.path_dependencies.len() && s.path_dependencies[p as int] is Some && d.path is Some)
}

/// The solver after learning the metadata `m` and dependencies `deps` of package `p`: the
/// analysis is cached and the package is recorded as published under its metadata.
pub open spec fn spec_cache_analysis(s: SolverView, p: usize, m: SpecMetadata, deps: Seq<SpecDependency>) -> SolverView {
    let metadata = seq_intern(s.metadata, m);
    let mi = seq_find(metadata, m).unwrap() as usize;
    let kept = deps.filter(|d: SpecDependency| spec_analysis_keeps(s, p, d));
    let (dependencies, refs) = spec_intern_all(s.dependencies, kept);
    SolverView {
        metadata,
        dependencies,
        analysis: s.analysis.update(p as int, Some(AnalysisView { metadata: mi, dependencies: refs })),
        published: s.published.insert(mi, p),
        ..s
    }
}

/// The result of getting the analysis of a package.
pub enum AnalysisFetch {
    /// The analysis, with the solver that holds it and the response if it is still unused.
    Ready { s: SolverView, analysis: AnalysisView, resp: Option<ResponseView> },
    /// The step stops with this action.
    Stop(ActionView),
}

/// Gets the analysis of package `p`: from the cache, or from the response, or by a request.
pub open spec fn spec_fetch_analysis(s: SolverView, p: usize, resp: Option<ResponseView>) -> AnalysisFetch {
    if p >= s.packages.len() || p >= s.analysis.len() {
        AnalysisFetch::Stop(ActionView::Abort(AbortView::InvalidReference))
    } else {
        match s.analysis[p as int] {
            Some(a) => AnalysisFetch::Ready { s, analysis: a, resp },
            None => match resp {
                None => AnalysisFetch::Stop(ActionView::Request(RequestView::Analysis { package: s.packages[p as int] })),
                Some(ResponseView::Analysis(Ok((m, deps)))) => {
                    let s2 = spec_cache_analysis(s, p, m, deps);
                    AnalysisFetch::Ready { s: s2, analysis: s2.analysis[p as int].unwrap(), resp: None }
                },
                Some(ResponseView::Analysis(Err(e))) => AnalysisFetch::Stop(ActionView::Abort(AbortView::AnalysisFailed(e))),
                Some(_) => AnalysisFetch::Stop(ActionView::Abort(AbortView::UnexpectedResponse)),
            },
        }
    }
}

/// The version that the metadata of an analysis declares.
pub open spec fn spec_analysis_version(s: SolverView, a: AnalysisView) -> Option<Option<Seq<char>>> {
    if a.metadata < s.metadata.len() {
        Some(s.metadata[a.metadata as int].version)
    } else {
        None
    }
}

/// The solver with `f` as its current frame.
pub open spec fn with_current(s: SolverView, f: FrameView) -> SolverView {
    SolverView { current: f, ..s }
}

/// The frame `next` with `solution` as its solution.
pub open spec fn with_solution(f: FrameView, solution: SolutionView) -> FrameView {
    FrameView { solution, ..f }
}

/// Ends the step by marking `d` permanently with `o` in the next frame, which becomes current.
pub open spec fn spec_finish_permanently(s: SolverView, next: FrameView, d: Dependant, o: Outcome) -> (SolverView, ActionView) {
    match spec_mark_perm(s, next.solution, d, o) {
        None => (s, ActionView::Abort(AbortView::MissingName)),
        Some((s2, solution)) => (with_current(s2, with_solution(next, solution)), ActionView::Continue),
    }
}

/// Ends the step after `error` (already stored at index `e`) for the package `name`: back to
/// the frame that chose the name if there is one, which becomes current, the frames saved
/// after it being dropped from the history; or else `d` is marked with the error.
pub open spec fn spec_finish_with_backtrack(s: SolverView, next: FrameView, d: Dependant, name: Option<Seq<char>>, e: usize) -> (SolverView, ActionView) {
    match name {
        None => (s, ActionView::Abort(AbortView::MissingName)),
        Some(n) => match spec_try_backtrack(s, n, e) {
            Some((f, k)) => (SolverView { history: s.history.take(k), ..with_current(s, f) }, ActionView::Continue),
            None => spec_finish_permanently(s, next, d, Outcome::Failed(e)),
        },
    }
}

/// The solver with `error` stored at the end of its errors.
pub open spec fn with_error(s: SolverView, error: SpecError) -> SolverView {
    SolverView { errors: s.errors.push(error), ..s }
}

/// A dependant whose mark is permanent is done.
pub open spec fn spec_case_permanent(s: SolverView, next: FrameView) -> (SolverView, ActionView) {
    (with_current(s, next), ActionView::Continue)
}

/// A dependant whose package name has the outcome `o`: an error is reused; a package is
/// kept if its version satisfies the constraint, and otherwise the solver backtracks; a
/// version or constraint that does not parse is the dependant's error.
pub open spec fn spec_case_settled(s: SolverView, next: FrameView, d: Dependant, o: Outcome, resp: Option<ResponseView>) -> (SolverView, ActionView) {
    match o {
        Outcome::Failed(e) => spec_finish_permanently(s, next, d, Outcome::Failed(e)),
        Outcome::Resolved(p) => match spec_fetch_analysis(s, p, resp) {
            AnalysisFetch::Stop(a) => (s, a),
            AnalysisFetch::Ready { s: s2, analysis: a, resp: _ } => match spec_analysis_version(s2, a) {
                None => (s2, ActionView::Abort(AbortView::InvalidReference)),
                Some(None) => (s2, ActionView::Abort(AbortView::MissingVersion)),
                Some(Some(v)) => match spec_version_matches(v, dep_of(s2, d).version) {
                    Ok(true) => spec_finish_permanently(s2, next, d, Outcome::Resolved(p)),
                    Ok(false) => {
                        let e = s2.errors.len() as usize;
                        let s3 = with_error(s2, SpecError::PackageVersionConflict);
                        spec_finish_with_backtrack(s3, next, d, dep_of(s3, d).name, e)
                    },
                    Err(m) => {
                        let e = s2.errors.len() as usize;
                        spec_finish_permanently(with_error(s2, SpecError::Other(m)), next, d, Outcome::Failed(e))
                    },
                },
            },
        },
    }
}

/// Checks the children of package `p`, tentatively chosen for `d`, against the marks of
/// `partial`: `None` if one has no mark; otherwise the errors with one more cycle error for
/// each child that is still temporary, and the erroneous children with their errors.
pub open spec fn spec_scan_children(errors: Seq<SpecError>, partial: Map<Dependant, Mark>, p: usize, children: Seq<usize>, d: Dependant) -> Option<(Seq<SpecError>, Seq<(usize, usize)>)>
    decreases children.len(),
{
    if children.len() == 0 {
        Some((errors, Seq::empty()))
    } else {
        match spec_scan_children(errors, partial, p, children.drop_last(), d) {
            None => None,
            Some((e1, acc)) => {
                let c = children.last();
                if !partial.contains_key((p, c)) {
                    None
                } else {
                    match partial[(p, c)] {
                        Mark::Permanent(Outcome::Resolved(_)) => Some((e1, acc)),
                        Mark::Permanent(Outcome::Failed(x)) => Some((e1, acc.push((c, x)))),
                        Mark::Temporary(_) => Some((e1.push(SpecError::PackageCycleExists { dependant: d }), acc.push((c, e1.len() as usize)))),
                    }
                }
            },
        }
    }
}

/// A dependant tentatively marked with package `p`: once all children of `p` are settled,
/// `d` is settled with `p`; if any child failed or is still temporary (a cycle), the solver
/// backtracks.
pub open spec fn spec_case_tentative(s: SolverView, next: FrameView, d: Dependant, p: usize, resp: Option<ResponseView>) -> (SolverView, ActionView) {
    match spec_fetch_analysis(s, p, resp) {
        AnalysisFetch::Stop(a) => (s, a),
        AnalysisFetch::Ready { s: s2, analysis: a, resp: _ } => match spec_scan_children(s2.errors, next.solution.partial, p, a.dependencies, d) {
            None => (s2, ActionView::Abort(AbortView::MissingMark)),
            Some((errors, erroneous)) => {
                let s3 = SolverView { errors, ..s2 };
                if erroneous.len() == 0 {
                    spec_finish_permanently(s3, next, d, Outcome::Resolved(p))
                } else {
                    match spec_analysis_version(s3, a) {
                        None => (s3, ActionView::Abort(AbortView::InvalidReference)),
                        Some(None) => (s3, ActionView::Abort(AbortView::MissingVersion)),
                        Some(Some(v)) => {
                            let e = s3.errors.len() as usize;
                            let s4 = with_error(s3, SpecError::Backtrack { package: p, previous_version: v, erroneous_dependencies: erroneous });
                            spec_finish_with_backtrack(s4, next, d, dep_of(s4, d).name, e)
                        },
                    }
                }
            },
        },
    }
}

/// The result of getting the versions to try for a dependant.
pub enum VersionsStage {
    /// The current frame has its versions to try; the response if it is still unused.
    Ready { s: SolverView, resp: Option<ResponseView> },
    /// The registry could not list the versions: its error message.
    Failed(Seq<char>),
    /// The step stops with this action.
    Stop(ActionView),
}

/// Gets the versions to try for `d` (named `name`) into the current frame: the published
/// versions that satisfy its constraint, in the registry's order.
pub open spec fn spec_stage_versions(s: SolverView, d: Dependant, name: Seq<char>, resp: Option<ResponseView>) -> VersionsStage {
    if s.current.remaining_versions is Some {
        VersionsStage::Ready { s, resp }
    } else {
        match resp {
            None => VersionsStage::Stop(ActionView::Request(RequestView::Versions { name })),
            Some(ResponseView::Versions(Ok(vs))) => {
                let filtered = vs.filter(|v: Seq<char>| spec_accepts(v, dep_of(s, d).version));
                let (versions, refs) = spec_intern_all(s.versions, filtered);
                VersionsStage::Ready {
                    s: SolverView { versions, current: FrameView { remaining_versions: Some(refs), ..s.current }, ..s },
                    resp: None,
                }
            },
            Some(ResponseView::Versions(Err(m))) => VersionsStage::Failed(m),
            Some(_) => VersionsStage::Stop(ActionView::Abort(AbortView::UnexpectedResponse)),
        }
    }
}

/// The package recorded as published under the metadata `key`, if any.
pub open spec fn spec_published(s: SolverView, key: SpecMetadata) -> Option<usize> {
    match seq_find(s.metadata, key) {
        None => None,
        Some(i) => if s.published.contains_key(i as usize) {
            Some(s.published[i as usize])
        } else {
            None
        },
    }
}

/// The package that `path` maps to in a path table: the first entry with that path.
pub open spec fn spec_path_lookup(table: Seq<(Seq<char>, usize)>, path: Seq<char>) -> Option<usize>
    decreases table.len(),
{
    if table.len() == 0 {
        None
    } else if table[0].0 == path {
        Some(table[0].1)
    } else {
        spec_path_lookup(table.drop_first(), path)
    }
}

/// The result of choosing a package for a dependant.
pub enum Resolution {
    /// Package `package` is chosen; `pop` tells whether its version leaves the versions to try.
    Found { s: SolverView, package: usize, pop: bool, resp: Option<ResponseView> },
    /// No package: the error.
    Failed { s: SolverView, error: SpecError },
    /// The registry has no package at the version tried: it is left out of the versions to
    /// try, and the next one is tried in the next step.
    Skip { s: SolverView },
    /// The step stops with this action.
    Stop(ActionView),
}

/// The metadata under which a registry package is looked up.
pub open spec fn registry_key(name: Seq<char>, version: Seq<char>) -> SpecMetadata {
    SpecMetadata { name: Some(name), version: Some(version), description: None }
}

/// Chooses a package for `d`: a path dependency by its package's path table; a registry
/// dependency by the last of the versions left to try.
pub open spec fn spec_try_resolve(s: SolverView, d: Dependant, name: Seq<char>, resp: Option<ResponseView>) -> Resolution {
    if spec_is_path_dependency(s, d) {
        match spec_path_lookup(s.path_dependencies[d.0 as int].unwrap(), dep_of(s, d).path.unwrap()) {
            Some(p) => Resolution::Found { s, package: p, pop: false, resp },
            None => Resolution::Failed { s, error: SpecError::PathDependencyNotFound { dependency: d.1 } },
        }
    } else {
        let rem = s.current.remaining_versions.unwrap();
        if rem.len() == 0 {
            Resolution::Failed { s, error: SpecError::PackageVersionConflict }
        } else if rem.last() >= s.versions.len() {
            Resolution::Stop(ActionView::Abort(AbortView::InvalidReference))
        } else {
            let version = s.versions[rem.last() as int];
            let key = registry_key(name, version);
            match spec_published(s, key) {
                Some(p) => Resolution::Found { s, package: p, pop: true, resp },
                None => match resp {
                    None => Resolution::Stop(ActionView::Request(RequestView::Package { name, version })),
                    Some(ResponseView::Package(Ok(None))) => Resolution::Skip {
                        s: SolverView { current: FrameView { remaining_versions: Some(rem.drop_last()), ..s.current }, ..s },
                    },
                    Some(ResponseView::Package(Ok(Some(id)))) => {
                        let (s2, p) = spec_intern_package(s, id);
                        let metadata = seq_intern(s2.metadata, key);
                        let mi = seq_find(metadata, key).unwrap() as usize;
                        Resolution::Found {
                            s: SolverView { metadata, published: s2.published.insert(mi, p), ..s2 },
                            package: p,
                            pop: true,
                            resp: None,
                        }
                    },
                    Some(ResponseView::Package(Err(e))) => Resolution::Failed { s, error: SpecError::Other(e) },
                    Some(_) => Resolution::Stop(ActionView::Abort(AbortView::UnexpectedResponse)),
                },
            }
        }
    }
}

/// The dependants of the children of package `p`.
pub open spec fn children_dependants(p: usize, children: Seq<usize>) -> Seq<Dependant> {
    children.map_values(|c: usize| (p, c))
}

/// Commits the choice of package `p` for `d`: the current frame (without the chosen version
/// when `pop`) is saved for backtracking, and the next frame marks `d` temporarily and puts
/// `d` and then the children of `p` on top of its working set.
pub open spec fn spec_commit_choice(s: SolverView, next: FrameView, d: Dependant, p: usize, pop: bool, a: AnalysisView) -> SolverView {
    let saved = if pop {
        FrameView { remaining_versions: Some(s.current.remaining_versions.unwrap().drop_last()), ..s.current }
    } else {
        s.current
    };
    let solution = spec_mark_temporarily(spec_mark_temporarily(next.solution, d, p), d, p);
    let working_set = next.working_set.push(d) + children_dependants(p, a.dependencies);
    SolverView {
        frames: s.frames.push(saved),
        history: s.history.push(s.frames.len() as usize),
        current: FrameView { solution, working_set, remaining_versions: None, last_error: None },
        ..s
    }
}

/// A dependant with no mark and no settled outcome: choose a package for it. When the
/// versions left to try run out in a frame that was backtracked to, the dependant is marked
/// with the error that caused the backtracking, the most recent one.
pub open spec fn spec_case_new(s: SolverView, next: FrameView, d: Dependant, resp: Option<ResponseView>) -> (SolverView, ActionView) {
    match dep_of(s, d).name {
        None => (s, ActionView::Abort(AbortView::MissingName)),
        Some(name) => match spec_stage_versions(s, d, name, resp) {
            VersionsStage::Stop(a) => (s, a),
            VersionsStage::Failed(m) => {
                let e = s.errors.len() as usize;
                spec_finish_permanently(with_error(s, SpecError::Other(m)), next, d, Outcome::Failed(e))
            },
            VersionsStage::Ready { s: s1, resp: resp1 } => match spec_try_resolve(s1, d, name, resp1) {
                Resolution::Stop(a) => (s1, a),
                Resolution::Skip { s: s2 } => (s2, ActionView::Continue),
                Resolution::Failed { s: s2, error } => match (error, s2.current.last_error) {
                    (SpecError::PackageVersionConflict, Some(le)) => spec_finish_permanently(s2, next, d, Outcome::Failed(le)),
                    _ => {
                        let e = s2.errors.len() as usize;
                        spec_finish_permanently(with_error(s2, error), next, d, Outcome::Failed(e))
                    },
                },
                Resolution::Found { s: s2, package, pop, resp: resp2 } => match spec_fetch_analysis(s2, package, resp2) {
                    AnalysisFetch::Stop(a) => (s2, a),
                    AnalysisFetch::Ready { s: s3, analysis, resp: _ } =>
                        (spec_commit_choice(s3, next, d, package, pop, analysis), ActionView::Continue),
                },
            },
        },
    }
}

/// One step of the search: takes the next dependant off the working set of the current frame
/// and settles it, chooses a package for it, or backtracks; `resp` answers the request of the
/// previous step.
pub open spec fn spec_step(s: SolverView, resp: Option<ResponseView>) -> (SolverView, ActionView) {
    match spec_next_dependant(s.current) {
        None => (s, ActionView::Done),
        Some((working_set, d)) => if d.0 >= s.packages.len() || d.1 >= s.dependencies.len() {
            (s, ActionView::Abort(AbortView::InvalidReference))
        } else {
            let next = FrameView {
                solution: s.current.solution,
                working_set,
                remaining_versions: None,
                last_error: None,
            };
            let solution = s.current.solution;
            if solution.partial.contains_key(d) {
                match solution.partial[d] {
                    Mark::Permanent(_) => spec_case_permanent(s, next),
                    Mark::Temporary(p) => spec_case_tentative(s, next, d, p, resp),
                }
            } else {
                match spec_get_permanent(s, solution, d) {
                    Some(o) => spec_case_settled(s, next, d, o, resp),
                    None => spec_case_new(s, next, d, resp),
                }
            }
        },
    }
}

} // verus!
