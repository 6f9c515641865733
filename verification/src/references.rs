//! Every index that the solver stores refers to an entry of its tables, and every step of the
//! search keeps it so; so a step never stops because of an index out of range.

use vstd::prelude::*;
use crate::dependency::{seq_find, seq_intern, lemma_seq_find, lemma_seq_intern, SpecDependency, SpecMetadata};
use crate::model::{
    AbortView, ActionView, AnalysisFetch, AnalysisView, ResponseView, SolverView, SpecError, dep_of, spec_cache_analysis,
    spec_fetch_analysis, spec_finish_permanently, spec_finish_with_backtrack, spec_intern_all, spec_is_path_dependency,
    spec_mark_perm, spec_try_backtrack, with_current, with_error, with_solution,
    spec_case_settled, spec_analysis_version, spec_scan_children, spec_case_tentative,
    VersionsStage, Resolution, spec_stage_versions, spec_try_resolve, spec_commit_choice, spec_case_new,
    spec_path_lookup, spec_published, spec_intern_package, registry_key, children_dependants, spec_step,
    spec_get_permanent,
};
use crate::solution::{spec_mark_permanently, spec_mark_temporarily, spec_next_dependant};
use crate::solution::{Dependant, FrameView, Mark, Outcome, SolutionView};

verus! {

/// The sizes of the tables of a solver.
pub struct Bounds {
    pub packages: nat,
    pub names: nat,
    pub versions: nat,
    pub dependencies: nat,
    pub metadata: nat,
    pub errors: nat,
    pub frames: nat,
}

/// The sizes of the tables of `s`.
pub open spec fn bounds(s: SolverView) -> Bounds {
    Bounds {
        packages: s.packages.len(),
        names: s.names.len(),
        versions: s.versions.len(),
        dependencies: s.dependencies.len(),
        metadata: s.metadata.len(),
        errors: s.errors.len(),
        frames: s.frames.len(),
    }
}

/// Every table of `b2` is at least as large as in `b1`.
pub open spec fn grows(b1: Bounds, b2: Bounds) -> bool {
    &&& b1.packages <= b2.packages
    &&& b1.names <= b2.names
    &&& b1.versions <= b2.versions
    &&& b1.dependencies <= b2.dependencies
    &&& b1.metadata <= b2.metadata
    &&& b1.errors <= b2.errors
    &&& b1.frames <= b2.frames
}

/// An outcome refers to a package or an error of the tables.
pub open spec fn outcome_ok(o: Outcome, b: Bounds) -> bool {
    match o {
        Outcome::Resolved(p) => p < b.packages,
        Outcome::Failed(e) => e < b.errors,
    }
}

/// A dependant refers to a package and a dependency of the tables.
pub open spec fn dependant_ok(d: Dependant, b: Bounds) -> bool {
    d.0 < b.packages && d.1 < b.dependencies
}

/// A mark refers to entries of the tables.
pub open spec fn mark_ok(m: Mark, b: Bounds) -> bool {
    match m {
        Mark::Temporary(p) => p < b.packages,
        Mark::Permanent(o) => outcome_ok(o, b),
    }
}

/// A solution refers to entries of the tables.
pub open spec fn solution_ok(sol: SolutionView, b: Bounds) -> bool {
    &&& forall|n: usize| #[trigger] sol.permanent.contains_key(n) ==> n < b.names && outcome_ok(sol.permanent[n], b)
    &&& forall|d: Dependant| #[trigger] sol.partial.contains_key(d) ==> dependant_ok(d, b) && mark_ok(sol.partial[d], b)
}

/// A working set refers to entries of the tables.
pub open spec fn working_set_ok(ws: Seq<Dependant>, b: Bounds) -> bool {
    forall|i: int| 0 <= i < ws.len() ==> dependant_ok(#[trigger] ws[i], b)
}

/// A frame refers to entries of the tables.
pub open spec fn frame_ok(f: FrameView, b: Bounds) -> bool {
    &&& solution_ok(f.solution, b)
    &&& working_set_ok(f.working_set, b)
    &&& (f.remaining_versions matches Some(r) ==> forall|i: int| 0 <= i < r.len() ==> #[trigger] r[i] < b.versions)
    &&& (f.last_error matches Some(e) ==> e < b.errors)
}

/// An error refers to entries of the tables.
pub open spec fn error_ok(e: SpecError, b: Bounds) -> bool {
    match e {
        SpecError::PackageCycleExists { dependant } => dependant_ok(dependant, b),
        SpecError::Backtrack { package, erroneous_dependencies, .. } => {
            &&& package < b.packages
            &&& forall|i: int| 0 <= i < erroneous_dependencies.len() ==>
                (#[trigger] erroneous_dependencies[i]).0 < b.dependencies && erroneous_dependencies[i].1 < b.errors
        },
        SpecError::PathDependencyNotFound { dependency } => dependency < b.dependencies,
        _ => true,
    }
}

/// An analysis refers to entries of the tables.
pub open spec fn analysis_ok(a: AnalysisView, b: Bounds) -> bool {
    &&& a.metadata < b.metadata
    &&& forall|i: int| 0 <= i < a.dependencies.len() ==> #[trigger] a.dependencies[i] < b.dependencies
}

/// Every cached analysis refers to entries of the tables.
pub open spec fn analyses_ok(an: Seq<Option<AnalysisView>>, b: Bounds) -> bool {
    forall|p: int| 0 <= p < an.len() && (#[trigger] an[p]) is Some ==> analysis_ok(an[p].unwrap(), b)
}

/// Every published package refers to entries of the tables.
pub open spec fn published_ok(m: Map<usize, usize>, b: Bounds) -> bool {
    forall|k: usize| #[trigger] m.contains_key(k) ==> k < b.metadata && m[k] < b.packages
}

/// Every path table refers to packages of the tables.
pub open spec fn paths_ok(t: Seq<Option<Seq<(Seq<char>, usize)>>>, b: Bounds) -> bool {
    forall|p: int, i: int| 0 <= p < t.len() && (#[trigger] t[p]) is Some && 0 <= i < t[p].unwrap().len()
        ==> #[trigger] t[p].unwrap()[i].1 < b.packages
}

/// Every error refers to entries of the tables.
pub open spec fn errors_ok(es: Seq<SpecError>, b: Bounds) -> bool {
    forall|i: int| 0 <= i < es.len() ==> error_ok(#[trigger] es[i], b)
}

/// Every saved frame refers to entries of the tables.
pub open spec fn frames_ok(fs: Seq<FrameView>, b: Bounds) -> bool {
    forall|i: int| 0 <= i < fs.len() ==> frame_ok(#[trigger] fs[i], b)
}

/// Every entry of the history refers to a saved frame.
pub open spec fn history_ok(h: Seq<usize>, b: Bounds) -> bool {
    forall|i: int| 0 <= i < h.len() ==> #[trigger] h[i] < b.frames
}

/// Every index that the solver stores refers to an entry of its tables, and the analyses
/// and path tables have one entry per package.
pub open spec fn refs_valid(s: SolverView) -> bool {
    let b = bounds(s);
    &&& s.analysis.len() == s.packages.len()
    &&& s.path_dependencies.len() == s.packages.len()
    &&& analyses_ok(s.analysis, b)
    &&& published_ok(s.published, b)
    &&& paths_ok(s.path_dependencies, b)
    &&& errors_ok(s.errors, b)
    &&& frames_ok(s.frames, b)
    &&& frame_ok(s.current, b)
    &&& history_ok(s.history, b)
}

/// What refers to entries of smaller tables refers to entries of larger ones.
pub proof fn lemma_grows(s: SolverView, b1: Bounds, b2: Bounds)
    requires
        grows(b1, b2),
    ensures
        analyses_ok(s.analysis, b1) ==> analyses_ok(s.analysis, b2),
        published_ok(s.published, b1) ==> published_ok(s.published, b2),
        paths_ok(s.path_dependencies, b1) ==> paths_ok(s.path_dependencies, b2),
        errors_ok(s.errors, b1) ==> errors_ok(s.errors, b2),
        frames_ok(s.frames, b1) ==> frames_ok(s.frames, b2),
        frame_ok(s.current, b1) ==> frame_ok(s.current, b2),
        history_ok(s.history, b1) ==> history_ok(s.history, b2),
{
    if errors_ok(s.errors, b1) {
        assert forall|i: int| 0 <= i < s.errors.len() implies error_ok(#[trigger] s.errors[i], b2) by {
            lemma_error_grows(s.errors[i], b1, b2);
        }
    }
    if frames_ok(s.frames, b1) {
        assert forall|i: int| 0 <= i < s.frames.len() implies frame_ok(#[trigger] s.frames[i], b2) by {
            lemma_frame_grows(s.frames[i], b1, b2);
        }
    }
    if frame_ok(s.current, b1) {
        lemma_frame_grows(s.current, b1, b2);
    }
}

/// An error that refers to entries of smaller tables refers to entries of larger ones.
pub proof fn lemma_error_grows(e: SpecError, b1: Bounds, b2: Bounds)
    requires
        grows(b1, b2),
        error_ok(e, b1),
    ensures
        error_ok(e, b2),
{
}

/// A frame that refers to entries of smaller tables refers to entries of larger ones.
pub proof fn lemma_frame_grows(f: FrameView, b1: Bounds, b2: Bounds)
    requires
        grows(b1, b2),
        frame_ok(f, b1),
    ensures
        frame_ok(f, b2),
{
    assert forall|d: Dependant| #[trigger] f.solution.partial.contains_key(d) implies dependant_ok(d, b2) && mark_ok(f.solution.partial[d], b2) by {
        assert(dependant_ok(d, b1) && mark_ok(f.solution.partial[d], b1));
    }
    assert forall|n: usize| #[trigger] f.solution.permanent.contains_key(n) implies n < b2.names && outcome_ok(f.solution.permanent[n], b2) by {
        assert(n < b1.names && outcome_ok(f.solution.permanent[n], b1));
    }
}

/// The indices that interning gives refer to the grown table.
pub proof fn lemma_intern_all_refs<T>(t: Seq<T>, xs: Seq<T>)
    ensures
        spec_intern_all(t, xs).0.len() >= t.len(),
        spec_intern_all(t, xs).1.len() == xs.len(),
        forall|i: int| 0 <= i < xs.len() ==> #[trigger] spec_intern_all(t, xs).1[i] < spec_intern_all(t, xs).0.len(),
    decreases xs.len(),
{
    if xs.len() > 0 {
        lemma_intern_all_refs(t, xs.drop_last());
        let (t1, r1) = spec_intern_all(t, xs.drop_last());
        let t2 = seq_intern(t1, xs.last());
        lemma_seq_intern(t1, xs.last());
        lemma_seq_find(t2, xs.last());
        let (t3, r3) = spec_intern_all(t, xs);
        assert(t3 == t2);
        assert forall|i: int| 0 <= i < xs.len() implies #[trigger] r3[i] < t3.len() by {
            if i < xs.len() - 1 {
                assert(r3[i] == r1[i]);
            }
        }
    }
}

/// Interning a value gives an index in range.
pub proof fn lemma_intern_index<T>(t: Seq<T>, x: T)
    ensures
        seq_intern(t, x).len() >= t.len(),
        seq_find(seq_intern(t, x), x) is Some,
        0 <= seq_find(seq_intern(t, x), x).unwrap() < seq_intern(t, x).len(),
        (seq_find(seq_intern(t, x), x).unwrap() as usize) < seq_intern(t, x).len(),
{
    lemma_seq_intern(t, x);
    lemma_seq_find(seq_intern(t, x), x);
}


/// A step stops without an index out of range.
pub open spec fn no_invalid_reference(a: ActionView) -> bool {
    a != ActionView::Abort(AbortView::InvalidReference)
}

/// Learning an analysis keeps the references valid and gives a valid analysis.
proof fn lemma_cache_analysis(s: SolverView, p: usize, m: SpecMetadata, deps: Seq<SpecDependency>)
    requires
        refs_valid(s),
        p < s.packages.len(),
    ensures
        ({
            let s2 = spec_cache_analysis(s, p, m, deps);
            &&& grows(bounds(s), bounds(s2))
            &&& s2.packages == s.packages && s2.names == s.names && s2.versions == s.versions
            &&& s2.errors == s.errors && s2.frames == s.frames && s2.current == s.current && s2.history == s.history
            &&& s2.path_dependencies == s.path_dependencies
            &&& s2.analysis.len() == s.analysis.len()
            &&& s2.analysis[p as int] is Some
            &&& refs_valid(s2) && analysis_ok(s2.analysis[p as int].unwrap(), bounds(s2))
        }),
{
    let s2 = spec_cache_analysis(s, p, m, deps);
    let kept = deps.filter(|d: SpecDependency| crate::model::spec_analysis_keeps(s, p, d));
    lemma_intern_all_refs(s.dependencies, kept);
    lemma_intern_index(s.metadata, m);
    let b1 = bounds(s);
    let b2 = bounds(s2);
    assert(grows(b1, b2));
    {
        lemma_grows(s, b1, b2);
        let a = s2.analysis[p as int].unwrap();
        assert(analysis_ok(a, b2));
        assert(analyses_ok(s2.analysis, b2)) by {
            assert forall|q: int| 0 <= q < s2.analysis.len() && (#[trigger] s2.analysis[q]) is Some implies analysis_ok(s2.analysis[q].unwrap(), b2) by {
                if q != p {
                    assert(s2.analysis[q] == s.analysis[q]);
                    assert(analysis_ok(s.analysis[q].unwrap(), b1));
                }
            }
        }
        assert(published_ok(s2.published, b2)) by {
            assert forall|k: usize| #[trigger] s2.published.contains_key(k) implies k < b2.metadata && s2.published[k] < b2.packages by {
                if s.published.contains_key(k) && k != (seq_find(s2.metadata, m).unwrap() as usize) {
                    assert(k < b1.metadata && s.published[k] < b1.packages);
                }
            }
        }
    }
}

/// Getting an analysis keeps the references valid, gives a valid analysis, and never stops
/// for an index out of range.
proof fn lemma_fetch_analysis(s: SolverView, p: usize, resp: Option<ResponseView>)
    requires
        refs_valid(s),
        p < s.packages.len(),
    ensures
        match spec_fetch_analysis(s, p, resp) {
            AnalysisFetch::Ready { s: s2, analysis: a, resp: _ } => {
                &&& grows(bounds(s), bounds(s2))
                &&& s2.packages == s.packages && s2.names == s.names && s2.versions == s.versions
                &&& s2.errors == s.errors && s2.frames == s.frames && s2.current == s.current && s2.history == s.history
                &&& s2.path_dependencies == s.path_dependencies
                &&& refs_valid(s2) && analysis_ok(a, bounds(s2))
            },
            AnalysisFetch::Stop(a) => no_invalid_reference(a),
        },
{
    match s.analysis[p as int] {
        Some(a) => {
            assert(analysis_ok(a, bounds(s)));
        },
        None => match resp {
            Some(ResponseView::Analysis(Ok((m, deps)))) => {
                lemma_cache_analysis(s, p, m, deps);
            },
            _ => {},
        },
    }
}

/// Marking a dependant permanently keeps the solution valid.
proof fn lemma_mark_perm(s: SolverView, sol: SolutionView, d: Dependant, o: Outcome)
    requires
        solution_ok(sol, bounds(s)),
        dependant_ok(d, bounds(s)),
        outcome_ok(o, bounds(s)),
    ensures
        spec_mark_perm(s, sol, d, o) matches Some((s2, sol2)) ==> {
            &&& s2 == (SolverView { names: s2.names, ..s })
            &&& s2.names.len() >= s.names.len()
            &&& solution_ok(sol2, bounds(s2))
        },
{
    if !spec_is_path_dependency(s, d) {
        match dep_of(s, d).name {
            Some(n) => {
                lemma_intern_index(s.names, n);
            },
            None => {},
        }
    }
    match spec_mark_perm(s, sol, d, o) {
        Some((s2, sol2)) => {
            let b2 = bounds(s2);
            {
                assert forall|x: Dependant| #[trigger] sol2.partial.contains_key(x) implies dependant_ok(x, b2) && mark_ok(sol2.partial[x], b2) by {
                    if x != d {
                        assert(sol.partial.contains_key(x));
                    }
                }
                assert forall|n: usize| #[trigger] sol2.permanent.contains_key(n) implies n < b2.names && outcome_ok(sol2.permanent[n], b2) by {
                    if sol.permanent.contains_key(n) {
                        assert(n < bounds(s).names && outcome_ok(sol.permanent[n], bounds(s)));
                    }
                }
            }
        },
        None => {},
    }
}

/// Finishing a step with a permanent mark keeps the references valid.
proof fn lemma_finish_permanently(s: SolverView, next: FrameView, d: Dependant, o: Outcome)
    requires
        refs_valid(s),
        frame_ok(next, bounds(s)),
        dependant_ok(d, bounds(s)),
        outcome_ok(o, bounds(s)),
    ensures
        ({
            let (s2, a) = spec_finish_permanently(s, next, d, o);
            &&& grows(bounds(s), bounds(s2))
            &&& no_invalid_reference(a)
            &&& refs_valid(s2)
        }),
{
    lemma_mark_perm(s, next.solution, d, o);
    match spec_mark_perm(s, next.solution, d, o) {
        Some((s2, sol2)) => {
            let b1 = bounds(s);
            let b2 = bounds(s2);
            assert(grows(b1, b2));
            {
                lemma_grows(s, b1, b2);
                lemma_frame_grows(next, b1, b2);
                let r = with_current(s2, with_solution(next, sol2));
                assert(frame_ok(r.current, b2));
            }
        },
        None => {},
    }
}

/// Finishing a step after an error, by backtracking or with a permanent error, keeps the
/// references valid.
proof fn lemma_finish_with_backtrack(s: SolverView, next: FrameView, d: Dependant, name: Option<Seq<char>>, e: usize)
    requires
        refs_valid(s),
        frame_ok(next, bounds(s)),
        dependant_ok(d, bounds(s)),
        e < s.errors.len(),
    ensures
        ({
            let (s2, a) = spec_finish_with_backtrack(s, next, d, name, e);
            &&& grows(bounds(s), bounds(s2))
            &&& no_invalid_reference(a)
            &&& refs_valid(s2)
        }),
{
    match name {
        None => {},
        Some(n) => match spec_try_backtrack(s, n, e) {
            Some((f, k)) => {
                crate::laws::lemma_chooser_index(s, n, s.history.len() as int);
                assert(s.history[k] < s.frames.len());
                assert(frame_ok(s.frames[s.history[k] as int], bounds(s)));
                assert(frame_ok(f, bounds(s)));
                let s2 = SolverView { history: s.history.take(k), ..with_current(s, f) };
                assert(bounds(s2) == bounds(s));
                assert(history_ok(s2.history, bounds(s2)));
                lemma_grows(s, bounds(s), bounds(s));
            },
            None => {
                lemma_finish_permanently(s, next, d, Outcome::Failed(e));
            },
        },
    }
}


/// Adding a valid error keeps the references valid.
proof fn lemma_with_error(s: SolverView, error: SpecError)
    requires
        refs_valid(s),
        error_ok(error, bounds(s)),
    ensures
        grows(bounds(s), bounds(with_error(s, error))),
        with_error(s, error).errors.len() == s.errors.len() + 1,
        refs_valid(with_error(s, error)),
{
    let s2 = with_error(s, error);
    lemma_grows(s, bounds(s), bounds(s2));
    lemma_error_grows(error, bounds(s), bounds(s2));
    assert forall|i: int| 0 <= i < s2.errors.len() implies error_ok(#[trigger] s2.errors[i], bounds(s2)) by {
        if i < s.errors.len() {
            assert(s2.errors[i] == s.errors[i]);
            lemma_error_grows(s.errors[i], bounds(s), bounds(s2));
        }
    }
}

/// A dependant whose name is settled is finished without an index out of range, and the
/// references stay valid.
proof fn lemma_case_settled(s: SolverView, next: FrameView, d: Dependant, o: Outcome, resp: Option<ResponseView>)
    requires
        refs_valid(s),
        frame_ok(next, bounds(s)),
        dependant_ok(d, bounds(s)),
        outcome_ok(o, bounds(s)),
    ensures
        ({
            let (s2, a) = spec_case_settled(s, next, d, o, resp);
            &&& grows(bounds(s), bounds(s2))
            &&& no_invalid_reference(a)
            &&& refs_valid(s2)
        }),
{
    match o {
        Outcome::Failed(e) => {
            lemma_finish_permanently(s, next, d, o);
        },
        Outcome::Resolved(p) => {
            lemma_fetch_analysis(s, p, resp);
            match spec_fetch_analysis(s, p, resp) {
                AnalysisFetch::Stop(_) => {},
                AnalysisFetch::Ready { s: s2, analysis: a, resp: _ } => {
                    lemma_frame_grows(next, bounds(s), bounds(s2));
                    match spec_analysis_version(s2, a) {
                        Some(Some(v)) => match crate::version::spec_version_matches(v, dep_of(s2, d).version) {
                            Ok(true) => {
                                lemma_finish_permanently(s2, next, d, Outcome::Resolved(p));
                            },
                            Ok(false) => {
                                lemma_with_error(s2, SpecError::PackageVersionConflict);
                                let s3 = with_error(s2, SpecError::PackageVersionConflict);
                                lemma_frame_grows(next, bounds(s2), bounds(s3));
                                lemma_finish_with_backtrack(s3, next, d, dep_of(s3, d).name, s2.errors.len() as usize);
                            },
                            Err(m) => {
                                lemma_with_error(s2, SpecError::Other(m));
                                let s3 = with_error(s2, SpecError::Other(m));
                                lemma_frame_grows(next, bounds(s2), bounds(s3));
                                lemma_finish_permanently(s3, next, d, Outcome::Failed(s2.errors.len() as usize));
                            },
                        },
                        _ => {},
                    }
                },
            }
        },
    }
}


/// Checking the children of a package only adds cycle errors for `d`, and the erroneous
/// children are children with errors of the grown list.
proof fn lemma_scan_children(errors: Seq<SpecError>, partial: Map<Dependant, Mark>, p: usize, children: Seq<usize>, d: Dependant, b: Bounds)
    requires
        forall|k: Dependant| #[trigger] partial.contains_key(k) ==> mark_ok(partial[k], b),
        b.errors <= errors.len(),
    ensures
        spec_scan_children(errors, partial, p, children, d) matches Some((e2, acc)) ==> {
            &&& e2.len() >= errors.len()
            &&& forall|i: int| 0 <= i < errors.len() ==> #[trigger] e2[i] == errors[i]
            &&& forall|i: int| errors.len() <= i < e2.len() ==> #[trigger] e2[i] == SpecError::PackageCycleExists { dependant: d }
            &&& forall|i: int| 0 <= i < acc.len() ==> children.contains((#[trigger] acc[i]).0) && acc[i].1 < e2.len()
        },
    decreases children.len(),
{
    if children.len() > 0 {
        let init = children.drop_last();
        lemma_scan_children(errors, partial, p, init, d, b);
        match spec_scan_children(errors, partial, p, init, d) {
            None => {},
            Some((e1, acc)) => {
                let c = children.last();
                assert forall|i: int| 0 <= i < acc.len() implies children.contains((#[trigger] acc[i]).0) by {
                    let j = choose|j: int| 0 <= j < init.len() && init[j] == acc[i].0;
                    assert(children[j] == init[j]);
                }
                assert(children[children.len() - 1] == c);
                if partial.contains_key((p, c)) {
                    assert(mark_ok(partial[(p, c)], b));
                    match partial[(p, c)] {
                        Mark::Temporary(_) => {
                            let e2 = e1.push(SpecError::PackageCycleExists { dependant: d });
                            let acc2 = acc.push((c, e1.len() as usize));
                            assert forall|i: int| 0 <= i < acc2.len() implies children.contains((#[trigger] acc2[i]).0) && acc2[i].1 < e2.len() by {
                                if i < acc.len() {
                                    assert(acc2[i] == acc[i]);
                                }
                            }
                        },
                        Mark::Permanent(Outcome::Failed(x)) => {
                            let acc2 = acc.push((c, x));
                            assert forall|i: int| 0 <= i < acc2.len() implies children.contains((#[trigger] acc2[i]).0) && acc2[i].1 < e1.len() by {
                                if i < acc.len() {
                                    assert(acc2[i] == acc[i]);
                                }
                            }
                        },
                        _ => {},
                    }
                }
            },
        }
    }
}

/// A dependant with a tentative package is finished without an index out of range, and the
/// references stay valid.
proof fn lemma_case_tentative(s: SolverView, next: FrameView, d: Dependant, p: usize, resp: Option<ResponseView>)
    requires
        refs_valid(s),
        frame_ok(next, bounds(s)),
        dependant_ok(d, bounds(s)),
        p < s.packages.len(),
    ensures
        ({
            let (s2, a) = spec_case_tentative(s, next, d, p, resp);
            &&& grows(bounds(s), bounds(s2))
            &&& no_invalid_reference(a)
            &&& refs_valid(s2)
        }),
{
    lemma_fetch_analysis(s, p, resp);
    match spec_fetch_analysis(s, p, resp) {
        AnalysisFetch::Stop(_) => {
            lemma_grows(s, bounds(s), bounds(s));
        },
        AnalysisFetch::Ready { s: s2, analysis: a, resp: _ } => {
            let b2 = bounds(s2);
            lemma_frame_grows(next, bounds(s), b2);
            assert(forall|k: Dependant| #[trigger] next.solution.partial.contains_key(k) ==> mark_ok(next.solution.partial[k], b2));
            lemma_scan_children(s2.errors, next.solution.partial, p, a.dependencies, d, b2);
            match spec_scan_children(s2.errors, next.solution.partial, p, a.dependencies, d) {
                None => {},
                Some((errors, erroneous)) => {
                    let s3 = SolverView { errors, ..s2 };
                    let b3 = bounds(s3);
                    assert(grows(b2, b3));
                    lemma_grows(s2, b2, b3);
                    lemma_frame_grows(next, b2, b3);
                    assert(errors_ok(s3.errors, b3)) by {
                        assert forall|i: int| 0 <= i < s3.errors.len() implies error_ok(#[trigger] s3.errors[i], b3) by {
                            if i < s2.errors.len() {
                                assert(errors[i] == s2.errors[i]);
                                lemma_error_grows(s2.errors[i], b2, b3);
                            } else {
                                assert(errors[i] == SpecError::PackageCycleExists { dependant: d });
                            }
                        }
                    }
                    assert(refs_valid(s3));
                    if erroneous.len() == 0 {
                        lemma_finish_permanently(s3, next, d, Outcome::Resolved(p));
                    } else {
                        match spec_analysis_version(s3, a) {
                            Some(Some(v)) => {
                                let error = SpecError::Backtrack { package: p, previous_version: v, erroneous_dependencies: erroneous };
                                assert(error_ok(error, b3)) by {
                                    assert forall|i: int| 0 <= i < erroneous.len() implies
                                        (#[trigger] erroneous[i]).0 < b3.dependencies && erroneous[i].1 < b3.errors by {
                                        let j = choose|j: int| 0 <= j < a.dependencies.len() && a.dependencies[j] == erroneous[i].0;
                                        assert(a.dependencies[j] < b2.dependencies);
                                    }
                                }
                                lemma_with_error(s3, error);
                                let s4 = with_error(s3, error);
                                lemma_frame_grows(next, b3, bounds(s4));
                                lemma_finish_with_backtrack(s4, next, d, dep_of(s4, d).name, s3.errors.len() as usize);
                            },
                            _ => {},
                        }
                    }
                },
            }
        },
    }
}


/// Staging the versions to try keeps the references valid and gives the current frame its
/// versions to try.
proof fn lemma_stage_versions(s: SolverView, d: Dependant, name: Seq<char>, resp: Option<ResponseView>)
    requires
        refs_valid(s),
    ensures
        match spec_stage_versions(s, d, name, resp) {
            VersionsStage::Ready { s: s1, resp: _ } => {
                &&& grows(bounds(s), bounds(s1))
                &&& refs_valid(s1)
                &&& s1.current.remaining_versions is Some
                &&& s1.current.solution == s.current.solution
                &&& s1 == (SolverView { versions: s1.versions, current: s1.current, ..s })
            },
            VersionsStage::Failed(_) => true,
            VersionsStage::Stop(a) => no_invalid_reference(a),
        },
{
    if s.current.remaining_versions is None {
        match resp {
            Some(ResponseView::Versions(Ok(vs))) => {
                let filtered = vs.filter(|v: Seq<char>| crate::version::spec_accepts(v, dep_of(s, d).version));
                lemma_intern_all_refs(s.versions, filtered);
                match spec_stage_versions(s, d, name, resp) {
                    VersionsStage::Ready { s: s1, resp: _ } => {
                        lemma_grows(s, bounds(s), bounds(s1));
                        lemma_frame_grows(s.current, bounds(s), bounds(s1));
                    },
                    _ => {},
                }
            },
            _ => {},
        }
    }
}

/// The package that a path table gives is one of its entries.
proof fn lemma_path_lookup(table: Seq<(Seq<char>, usize)>, path: Seq<char>)
    ensures
        spec_path_lookup(table, path) matches Some(p) ==> exists|i: int| 0 <= i < table.len() && #[trigger] table[i].1 == p,
    decreases table.len(),
{
    if table.len() > 0 && table[0].0 != path {
        lemma_path_lookup(table.drop_first(), path);
        if let Some(p) = spec_path_lookup(table.drop_first(), path) {
            let i = choose|i: int| 0 <= i < table.drop_first().len() && #[trigger] table.drop_first()[i].1 == p;
            assert(table[i + 1].1 == p);
        }
    }
}

/// Choosing a package keeps the references valid, and a chosen package is in the tables.
proof fn lemma_try_resolve(s: SolverView, d: Dependant, name: Seq<char>, resp: Option<ResponseView>)
    requires
        refs_valid(s),
        dependant_ok(d, bounds(s)),
        !spec_is_path_dependency(s, d) ==> s.current.remaining_versions is Some,
    ensures
        match spec_try_resolve(s, d, name, resp) {
            Resolution::Found { s: s2, package, pop, resp: _ } => {
                &&& grows(bounds(s), bounds(s2))
                &&& refs_valid(s2)
                &&& package < s2.packages.len()
                &&& s2.current == s.current
                &&& pop ==> s.current.remaining_versions is Some && s.current.remaining_versions.unwrap().len() > 0
            },
            Resolution::Failed { s: s2, error } => s2 == s && error_ok(error, bounds(s)),
            Resolution::Skip { s: s2 } => bounds(s2) == bounds(s) && refs_valid(s2),
            Resolution::Stop(a) => no_invalid_reference(a),
        },
{
    lemma_grows(s, bounds(s), bounds(s));
    if spec_is_path_dependency(s, d) {
        let table = s.path_dependencies[d.0 as int].unwrap();
        lemma_path_lookup(table, dep_of(s, d).path.unwrap());
        if let Some(p) = spec_path_lookup(table, dep_of(s, d).path.unwrap()) {
            let i = choose|i: int| 0 <= i < table.len() && #[trigger] table[i].1 == p;
            assert(s.path_dependencies[d.0 as int] is Some);
            assert(table[i].1 < bounds(s).packages);
        }
    } else {
        let rem = s.current.remaining_versions.unwrap();
        if rem.len() > 0 {
            assert(rem[rem.len() - 1] < bounds(s).versions);
            if rem.last() < s.versions.len() {
                let version = s.versions[rem.last() as int];
                let key = registry_key(name, version);
                match spec_published(s, key) {
                    Some(p) => {
                        let i = seq_find(s.metadata, key).unwrap();
                        assert(s.published.contains_key(i as usize));
                    },
                    None => match resp {
                        Some(ResponseView::Package(Ok(Some(id)))) => {
                            let (s2, p) = spec_intern_package(s, id);
                            lemma_intern_index(s.packages, id);
                            lemma_intern_index(s2.metadata, key);
                            match spec_try_resolve(s, d, name, resp) {
                                Resolution::Found { s: s3, package, pop: _, resp: _ } => {
                                    let b1 = bounds(s);
                                    let b3 = bounds(s3);
                                    lemma_grows(s, b1, b3);
                                    assert(analyses_ok(s3.analysis, b3)) by {
                                        assert forall|q: int| 0 <= q < s3.analysis.len() && (#[trigger] s3.analysis[q]) is Some implies analysis_ok(s3.analysis[q].unwrap(), b3) by {
                                            assert(q < s.analysis.len());
                                            assert(s3.analysis[q] == s.analysis[q]);
                                        }
                                    }
                                    assert(paths_ok(s3.path_dependencies, b3)) by {
                                        assert forall|q: int, j: int| 0 <= q < s3.path_dependencies.len() && (#[trigger] s3.path_dependencies[q]) is Some && 0 <= j < s3.path_dependencies[q].unwrap().len()
                                            implies #[trigger] s3.path_dependencies[q].unwrap()[j].1 < b3.packages by {
                                            assert(q < s.path_dependencies.len());
                                            assert(s3.path_dependencies[q] == s.path_dependencies[q]);
                                        }
                                    }
                                    assert(published_ok(s3.published, b3)) by {
                                        assert forall|k: usize| #[trigger] s3.published.contains_key(k) implies k < b3.metadata && s3.published[k] < b3.packages by {
                                            if k != (seq_find(s3.metadata, key).unwrap() as usize) {
                                                assert(s.published.contains_key(k));
                                            }
                                        }
                                    }
                                },
                                _ => {},
                            }
                        },
                        _ => {},
                    },
                }
            }
        }
    }
}

/// Committing to a package keeps the references valid.
proof fn lemma_commit_choice(s: SolverView, next: FrameView, d: Dependant, p: usize, pop: bool, a: AnalysisView)
    requires
        refs_valid(s),
        frame_ok(next, bounds(s)),
        dependant_ok(d, bounds(s)),
        p < s.packages.len(),
        analysis_ok(a, bounds(s)),
        pop ==> s.current.remaining_versions is Some && s.current.remaining_versions.unwrap().len() > 0,
    ensures
        grows(bounds(s), bounds(spec_commit_choice(s, next, d, p, pop, a))),
        refs_valid(spec_commit_choice(s, next, d, p, pop, a)),
{
    let r = spec_commit_choice(s, next, d, p, pop, a);
    let b = bounds(s);
    let b2 = bounds(r);
    assert(grows(b, b2));
    lemma_grows(s, b, b2);
    lemma_frame_grows(next, b, b2);
    let saved = r.frames.last();
    assert(frame_ok(saved, b2)) by {
        lemma_frame_grows(s.current, b, b2);
        if pop {
            let rem = s.current.remaining_versions.unwrap();
            assert(frame_ok(s.current, b));
            assert(s.current.remaining_versions == Some(rem));
            assert(forall|i: int| 0 <= i < rem.len() ==> #[trigger] rem[i] < b.versions);
            assert forall|i: int| 0 <= i < rem.drop_last().len() implies #[trigger] rem.drop_last()[i] < b2.versions by {
                assert(rem.drop_last()[i] == rem[i]);
                assert(rem[i] < b.versions);
            }
        }
    }
    assert(frames_ok(r.frames, b2)) by {
        assert forall|i: int| 0 <= i < r.frames.len() implies frame_ok(#[trigger] r.frames[i], b2) by {
            if i < s.frames.len() {
                assert(r.frames[i] == s.frames[i]);
            }
        }
    }
    assert(history_ok(r.history, b2)) by {
        assert forall|i: int| 0 <= i < r.history.len() implies #[trigger] r.history[i] < b2.frames by {
            if i < s.history.len() {
                assert(r.history[i] == s.history[i]);
            }
        }
    }
    let sol = r.current.solution;
    assert(solution_ok(sol, b2)) by {
        assert forall|x: Dependant| #[trigger] sol.partial.contains_key(x) implies dependant_ok(x, b2) && mark_ok(sol.partial[x], b2) by {
            if x != d {
                assert(next.solution.partial.contains_key(x));
            }
        }
        assert forall|n: usize| #[trigger] sol.permanent.contains_key(n) implies n < b2.names && outcome_ok(sol.permanent[n], b2) by {
            assert(next.solution.permanent.contains_key(n));
        }
    }
    let ws = r.current.working_set;
    assert(working_set_ok(ws, b2)) by {
        let front = next.working_set.push(d);
        let kids = children_dependants(p, a.dependencies);
        assert forall|i: int| 0 <= i < ws.len() implies dependant_ok(#[trigger] ws[i], b2) by {
            if i < front.len() {
                assert(ws[i] == front[i]);
                if i < next.working_set.len() {
                    assert(front[i] == next.working_set[i]);
                }
            } else {
                assert(ws[i] == kids[i - front.len()]);
                assert(a.dependencies[i - front.len()] < b.dependencies);
            }
        }
    }
}

/// A dependant without a mark or a settled outcome is handled without an index out of
/// range, and the references stay valid.
proof fn lemma_case_new(s: SolverView, next: FrameView, d: Dependant, resp: Option<ResponseView>)
    requires
        refs_valid(s),
        frame_ok(next, bounds(s)),
        dependant_ok(d, bounds(s)),
    ensures
        ({
            let (s2, a) = spec_case_new(s, next, d, resp);
            &&& grows(bounds(s), bounds(s2))
            &&& no_invalid_reference(a)
            &&& refs_valid(s2)
        }),
{
    lemma_grows(s, bounds(s), bounds(s));
    lemma_frame_grows(next, bounds(s), bounds(s));
    match dep_of(s, d).name {
        None => {},
        Some(name) => {
            lemma_stage_versions(s, d, name, resp);
            match spec_stage_versions(s, d, name, resp) {
                VersionsStage::Stop(_) => {},
                VersionsStage::Failed(m) => {
                    lemma_with_error(s, SpecError::Other(m));
                    let s3 = with_error(s, SpecError::Other(m));
                    lemma_frame_grows(next, bounds(s), bounds(s3));
                    lemma_finish_permanently(s3, next, d, Outcome::Failed(s.errors.len() as usize));
                },
                VersionsStage::Ready { s: s1, resp: resp1 } => {
                    let b1 = bounds(s1);
                    lemma_frame_grows(next, bounds(s), b1);
                    assert(spec_is_path_dependency(s1, d) == spec_is_path_dependency(s, d));
                    lemma_try_resolve(s1, d, name, resp1);
                    match spec_try_resolve(s1, d, name, resp1) {
                        Resolution::Stop(_) => {
                            lemma_grows(s1, b1, b1);
                        },
                        Resolution::Skip { s: s2 } => {
                            lemma_grows(s1, b1, b1);
                        },
                        Resolution::Failed { s: s2, error } => match (error, s2.current.last_error) {
                            (SpecError::PackageVersionConflict, Some(le)) => {
                                lemma_finish_permanently(s2, next, d, Outcome::Failed(le));
                            },
                            _ => {
                                lemma_with_error(s2, error);
                                let s3 = with_error(s2, error);
                                lemma_frame_grows(next, b1, bounds(s3));
                                lemma_finish_permanently(s3, next, d, Outcome::Failed(s2.errors.len() as usize));
                            },
                        },
                        Resolution::Found { s: s2, package, pop, resp: resp2 } => {
                            let b2 = bounds(s2);
                            lemma_frame_grows(next, b1, b2);
                            lemma_fetch_analysis(s2, package, resp2);
                            match spec_fetch_analysis(s2, package, resp2) {
                                AnalysisFetch::Stop(_) => {
                                    lemma_grows(s2, b2, b2);
                                },
                                AnalysisFetch::Ready { s: s3, analysis, resp: _ } => {
                                    lemma_frame_grows(next, b2, bounds(s3));
                                    lemma_commit_choice(s3, next, d, package, pop, analysis);
                                },
                            }
                        },
                    }
                },
            }
        },
    }
}

/// A step of the search never stops because of an index out of range, and it keeps every
/// stored index referring to an entry of the solver's tables.
pub proof fn law_step_keeps_references(s: SolverView, resp: Option<ResponseView>)
    requires
        refs_valid(s),
    ensures
        no_invalid_reference(spec_step(s, resp).1),
        refs_valid(spec_step(s, resp).0),
{
    let b = bounds(s);
    match spec_next_dependant(s.current) {
        None => {},
        Some((working_set, d)) => {
            assert(d == s.current.working_set[s.current.working_set.len() - 1]);
            assert(dependant_ok(d, b));
            let next = FrameView { solution: s.current.solution, working_set, remaining_versions: None, last_error: None };
            assert(frame_ok(next, b)) by {
                assert forall|i: int| 0 <= i < working_set.len() implies dependant_ok(#[trigger] working_set[i], b) by {
                    assert(working_set[i] == s.current.working_set[i]);
                }
            }
            let solution = s.current.solution;
            if solution.partial.contains_key(d) {
                assert(mark_ok(solution.partial[d], b));
                match solution.partial[d] {
                    Mark::Permanent(_) => {
                        lemma_grows(s, b, b);
                    },
                    Mark::Temporary(p) => {
                        lemma_case_tentative(s, next, d, p, resp);
                    },
                }
            } else {
                match spec_get_permanent(s, solution, d) {
                    Some(o) => {
                        let n = dep_of(s, d).name.unwrap();
                        let i = seq_find(s.names, n).unwrap();
                        assert(solution.permanent.contains_key(i as usize));
                        lemma_case_settled(s, next, d, o, resp);
                    },
                    None => {
                        lemma_case_new(s, next, d, resp);
                    },
                }
            }
        },
    }
}


/// Interning a package keeps the references valid and gives an index in range.
proof fn lemma_intern_package(s: SolverView, id: Seq<char>)
    requires
        refs_valid(s),
    ensures
        ({
            let (s2, p) = spec_intern_package(s, id);
            &&& refs_valid(s2)
            &&& grows(bounds(s), bounds(s2))
            &&& p < s2.packages.len()
            &&& s2.current == s.current
        }),
{
    lemma_intern_index(s.packages, id);
    let (s2, p) = spec_intern_package(s, id);
    let b = bounds(s);
    let b2 = bounds(s2);
    lemma_grows(s, b, b2);
    assert(analyses_ok(s2.analysis, b2)) by {
        assert forall|q: int| 0 <= q < s2.analysis.len() && (#[trigger] s2.analysis[q]) is Some implies analysis_ok(s2.analysis[q].unwrap(), b2) by {
            assert(q < s.analysis.len());
            assert(s2.analysis[q] == s.analysis[q]);
        }
    }
    assert(paths_ok(s2.path_dependencies, b2)) by {
        assert forall|q: int, j: int| 0 <= q < s2.path_dependencies.len() && (#[trigger] s2.path_dependencies[q]) is Some && 0 <= j < s2.path_dependencies[q].unwrap().len()
            implies #[trigger] s2.path_dependencies[q].unwrap()[j].1 < b2.packages by {
            assert(q < s.path_dependencies.len());
            assert(s2.path_dependencies[q] == s.path_dependencies[q]);
        }
    }
}

/// The solver that knows nothing yet has only valid references.
pub proof fn law_initial_references()
    ensures
        refs_valid(crate::scan::spec_initial()),
{
}

/// Scanning a package tree keeps every stored index referring to an entry of the solver's
/// tables.
pub proof fn law_scan_keeps_references(s: SolverView, t: crate::scan::PackageTree)
    requires
        refs_valid(s),
    ensures
        refs_valid(crate::scan::spec_scan(s, t)),
        crate::scan::spec_scan(s, t).packages.len() >= s.packages.len(),
    decreases t, t.path_dependencies@.len() + 1,
{
    lemma_intern_package(s, t.id@);
    let (s1, p) = spec_intern_package(s, t.id@);
    if !(s1.path_dependencies[p as int] is Some) {
        let metadata = seq_intern(s1.metadata, t.metadata@);
        let xs = t.dependencies@.map_values(|d: crate::dependency::Dependency| d@);
        lemma_intern_index(s1.metadata, t.metadata@);
        lemma_intern_all_refs(s1.dependencies, xs);
        let mi = seq_find(metadata, t.metadata@).unwrap() as usize;
        let (dependencies, refs) = spec_intern_all(s1.dependencies, xs);
        let s2 = SolverView {
            metadata,
            dependencies,
            analysis: s1.analysis.update(p as int, Some(AnalysisView { metadata: mi, dependencies: refs })),
            current: FrameView {
                working_set: s1.current.working_set + children_dependants(p, refs),
                ..s1.current
            },
            ..s1
        };
        let b1 = bounds(s1);
        let b2 = bounds(s2);
        lemma_grows(s1, b1, b2);
        lemma_frame_grows(s1.current, b1, b2);
        assert(analyses_ok(s2.analysis, b2)) by {
            assert forall|q: int| 0 <= q < s2.analysis.len() && (#[trigger] s2.analysis[q]) is Some implies analysis_ok(s2.analysis[q].unwrap(), b2) by {
                if q != p {
                    assert(s2.analysis[q] == s1.analysis[q]);
                }
            }
        }
        assert(working_set_ok(s2.current.working_set, b2)) by {
            let ws1 = s1.current.working_set;
            let kids = children_dependants(p, refs);
            assert forall|i: int| 0 <= i < s2.current.working_set.len() implies dependant_ok(#[trigger] s2.current.working_set[i], b2) by {
                if i < ws1.len() {
                    assert(s2.current.working_set[i] == ws1[i]);
                } else {
                    assert(s2.current.working_set[i] == kids[i - ws1.len()]);
                }
            }
        }
        assert(refs_valid(s2));
        assert(crate::scan::spec_scan(s, t) == crate::scan::spec_scan_edges(s2, p, t, 0));
        lemma_scan_edges_keeps(s2, p, t, 0);
    }
}

/// Scanning the path dependencies of a package keeps every stored index referring to an
/// entry of the solver's tables.
proof fn lemma_scan_edges_keeps(s: SolverView, p: usize, t: crate::scan::PackageTree, i: int)
    requires
        refs_valid(s),
        p < s.packages.len(),
    ensures
        refs_valid(crate::scan::spec_scan_edges(s, p, t, i)),
        crate::scan::spec_scan_edges(s, p, t, i).packages.len() >= s.packages.len(),
    decreases t, t.path_dependencies@.len() - i,
{
    if 0 <= i < t.path_dependencies@.len() {
        let e = t.path_dependencies@[i];
        lemma_intern_package(s, e.1.id@);
        let (s1, c) = spec_intern_package(s, e.1.id@);
        let table = match s1.path_dependencies[p as int] {
            Some(tb) => tb,
            None => Seq::empty(),
        };
        let new_table = crate::scan::spec_table_insert(table, e.0@.path.unwrap(), c);
        let s2 = SolverView { path_dependencies: s1.path_dependencies.update(p as int, Some(new_table)), ..s1 };
        let b1 = bounds(s1);
        assert(forall|j: int| 0 <= j < table.len() ==> #[trigger] table[j].1 < b1.packages);
        assert(forall|j: int| 0 <= j < new_table.len() ==> #[trigger] new_table[j].1 < b1.packages) by {
            let keys = table.map_values(|x: (Seq<char>, usize)| x.0);
            lemma_seq_find(keys, e.0@.path.unwrap());
            assert(keys.len() == table.len());
            match seq_find(keys, e.0@.path.unwrap()) {
                Some(k) => {
                    assert forall|j: int| 0 <= j < new_table.len() implies #[trigger] new_table[j].1 < b1.packages by {
                        if j != k {
                            assert(new_table[j] == table[j]);
                        }
                    }
                },
                None => {
                    assert forall|j: int| 0 <= j < new_table.len() implies #[trigger] new_table[j].1 < b1.packages by {
                        if j < table.len() {
                            assert(new_table[j] == table[j]);
                        }
                    }
                },
            }
        }
        assert(paths_ok(s2.path_dependencies, b1)) by {
            assert forall|q: int, j: int| 0 <= q < s2.path_dependencies.len() && (#[trigger] s2.path_dependencies[q]) is Some && 0 <= j < s2.path_dependencies[q].unwrap().len()
                implies #[trigger] s2.path_dependencies[q].unwrap()[j].1 < b1.packages by {
                if q != p {
                    assert(s2.path_dependencies[q] == s1.path_dependencies[q]);
                } else {
                    assert(s2.path_dependencies[q].unwrap() == new_table);
                }
            }
        }
        lemma_grows(s1, b1, b1);
        assert(refs_valid(s2));
        law_scan_keeps_references(s2, e.1);
        let s3 = crate::scan::spec_scan(s2, e.1);
        lemma_scan_edges_keeps(s3, p, t, i + 1);
    }
}

} // verus!
