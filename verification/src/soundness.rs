//! The soundness of version solving: every registry dependency that the solver settles with
//! a package, or tries a package for, gets a package whose name is the dependency's name and
//! whose version satisfies the dependency's constraint, as the package's own metadata says.
//! This holds as long as the registry is honest, that is, as long as each package's metadata
//! names the name and version under which the solver found it published.
//!
//! And its closure: when the search is done, no dependant is left tentatively marked, every
//! dependant of the scanned packages is marked, and every package settled for a dependant
//! has all its dependencies marked, so that locking never meets a missing mark.

use vstd::prelude::*;
use crate::dependency::{SpecDependency, distinct, seq_find, seq_intern, lemma_seq_find, lemma_seq_intern};
use crate::laws::extends;
use crate::model::{
    AnalysisFetch, AnalysisView, Resolution, ResponseView, SolverView, SpecError, VersionsStage, dep_of,
    spec_cache_analysis, spec_case_new, spec_case_settled, spec_case_tentative, spec_commit_choice, spec_fetch_analysis,
    spec_finish_permanently, spec_finish_with_backtrack, spec_get_permanent, spec_intern_all, spec_intern_package,
    spec_is_path_dependency, spec_mark_perm, spec_published, spec_stage_versions, spec_step, spec_try_backtrack,
    spec_try_resolve, spec_analysis_version, spec_scan_children, registry_key, with_current, with_error, with_solution,
};
use crate::references::{refs_valid, bounds};
use crate::solution::{Dependant, FrameView, Mark, Outcome, SolutionView, spec_mark_temporarily, spec_next_dependant};
use crate::version::{spec_accepts, spec_version_matches};

verus! {

/// Package `p`, as its metadata says, has the name `name` and a version that satisfies the
/// constraint `constraint`.
pub open spec fn known_as(s: SolverView, p: usize, name: Option<Seq<char>>, constraint: Option<Seq<char>>) -> bool {
    &&& p < s.analysis.len()
    &&& s.analysis[p as int] is Some
    &&& s.analysis[p as int].unwrap().metadata < s.metadata.len()
    &&& s.metadata[s.analysis[p as int].unwrap().metadata as int].name == name
    &&& s.metadata[s.analysis[p as int].unwrap().metadata as int].version matches Some(v) && spec_accepts(v, constraint)
}

/// Package `p`, as its metadata says, has the name `name`.
pub open spec fn named(s: SolverView, p: usize, name: Seq<char>) -> bool {
    &&& p < s.analysis.len()
    &&& s.analysis[p as int] is Some
    &&& s.analysis[p as int].unwrap().metadata < s.metadata.len()
    &&& s.metadata[s.analysis[p as int].unwrap().metadata as int].name == Some(name)
}

/// The mark of `d` is sound: a package tried for or settled for a registry dependency is
/// known as the dependency's name, at a version that satisfies its constraint.
pub open spec fn mark_sound(s: SolverView, d: Dependant, m: Mark) -> bool {
    match m {
        Mark::Permanent(Outcome::Failed(_)) => true,
        Mark::Permanent(Outcome::Resolved(p)) | Mark::Temporary(p) => {
            &&& d.0 < s.path_dependencies.len()
            &&& d.1 < s.dependencies.len()
            &&& !spec_is_path_dependency(s, d) ==> known_as(s, p, dep_of(s, d).name, dep_of(s, d).version)
        },
    }
}

/// The outcome settled for the package name with index `i` is sound: a package settled for
/// a name is known as that name.
pub open spec fn outcome_sound(s: SolverView, i: usize, o: Outcome) -> bool {
    match o {
        Outcome::Failed(_) => true,
        Outcome::Resolved(p) => i < s.names.len() && named(s, p, s.names[i as int]),
    }
}

/// The versions left to try in a frame satisfy the constraint of the dependant on top of its
/// working set, for which they were staged.
pub open spec fn remaining_sound(s: SolverView, f: FrameView) -> bool {
    f.remaining_versions matches Some(r) ==> {
        &&& f.working_set.len() > 0
        &&& f.working_set.last().1 < s.dependencies.len()
        &&& forall|k: int| 0 <= k < r.len() ==> #[trigger] r[k] < s.versions.len()
            && spec_accepts(s.versions[r[k] as int], dep_of(s, f.working_set.last()).version)
    }
}

/// Every mark and outcome of a solution is sound.
pub open spec fn solution_sound(s: SolverView, sol: SolutionView) -> bool {
    &&& forall|d: Dependant| #[trigger] sol.partial.contains_key(d) ==> mark_sound(s, d, sol.partial[d])
    &&& forall|i: usize| #[trigger] sol.permanent.contains_key(i) ==> outcome_sound(s, i, sol.permanent[i])
}

/// Every mark and outcome of a frame is sound, and so are its versions left to try.
pub open spec fn frame_sound(s: SolverView, f: FrameView) -> bool {
    &&& solution_sound(s, f.solution)
    &&& remaining_sound(s, f)
}

/// The current frame and every saved frame are sound.
pub open spec fn sound(s: SolverView) -> bool {
    &&& frame_sound(s, s.current)
    &&& forall|i: int| 0 <= i < s.frames.len() ==> frame_sound(s, #[trigger] s.frames[i])
}

/// The registry has been honest so far: each package recorded as published under some
/// metadata has, once its own metadata is known, that name and that version.
pub open spec fn published_honest(s: SolverView) -> bool {
    forall|m: usize| #[trigger] s.published.contains_key(m) && m < s.metadata.len()
        && s.published[m] < s.analysis.len() && s.analysis[s.published[m] as int] is Some ==> {
        let a = s.analysis[s.published[m] as int].unwrap();
        &&& a.metadata < s.metadata.len()
        &&& s.metadata[a.metadata as int].name == s.metadata[m as int].name
        &&& s.metadata[a.metadata as int].version == s.metadata[m as int].version
    }
}

/// `s2` only adds to the tables of `s1`: what `s1` knows, `s2` knows alike.
pub open spec fn ext(s1: SolverView, s2: SolverView) -> bool {
    &&& extends(s1.names, s2.names)
    &&& extends(s1.versions, s2.versions)
    &&& extends(s1.dependencies, s2.dependencies)
    &&& extends(s1.metadata, s2.metadata)
    &&& extends(s1.path_dependencies, s2.path_dependencies)
    &&& extends(s1.frames, s2.frames)
    &&& s1.analysis.len() <= s2.analysis.len()
    &&& forall|p: int| 0 <= p < s1.analysis.len() && (#[trigger] s1.analysis[p]) is Some ==> s2.analysis[p] == s1.analysis[p]
}

/// Adding to the tables is transitive.
pub proof fn lemma_ext_trans(s1: SolverView, s2: SolverView, s3: SolverView)
    requires
        ext(s1, s2),
        ext(s2, s3),
    ensures
        ext(s1, s3),
{
    assert forall|p: int| 0 <= p < s1.analysis.len() && (#[trigger] s1.analysis[p]) is Some implies s3.analysis[p] == s1.analysis[p] by {
        assert(s2.analysis[p] == s1.analysis[p]);
    }
    assert(extends(s1.names, s3.names)) by {
        assert forall|i: int| 0 <= i < s1.names.len() implies #[trigger] s3.names[i] == s1.names[i] by {
            assert(s2.names[i] == s1.names[i]);
        }
    }
    assert(extends(s1.versions, s3.versions)) by {
        assert forall|i: int| 0 <= i < s1.versions.len() implies #[trigger] s3.versions[i] == s1.versions[i] by {
            assert(s2.versions[i] == s1.versions[i]);
        }
    }
    assert(extends(s1.dependencies, s3.dependencies)) by {
        assert forall|i: int| 0 <= i < s1.dependencies.len() implies #[trigger] s3.dependencies[i] == s1.dependencies[i] by {
            assert(s2.dependencies[i] == s1.dependencies[i]);
        }
    }
    assert(extends(s1.metadata, s3.metadata)) by {
        assert forall|i: int| 0 <= i < s1.metadata.len() implies #[trigger] s3.metadata[i] == s1.metadata[i] by {
            assert(s2.metadata[i] == s1.metadata[i]);
        }
    }
    assert(extends(s1.path_dependencies, s3.path_dependencies)) by {
        assert forall|i: int| 0 <= i < s1.path_dependencies.len() implies #[trigger] s3.path_dependencies[i] == s1.path_dependencies[i] by {
            assert(s2.path_dependencies[i] == s1.path_dependencies[i]);
        }
    }
    assert(extends(s1.frames, s3.frames)) by {
        assert forall|i: int| 0 <= i < s1.frames.len() implies #[trigger] s3.frames[i] == s1.frames[i] by {
            assert(s2.frames[i] == s1.frames[i]);
        }
    }
}

/// What a smaller state knows of a package, a larger one knows alike.
pub proof fn lemma_known_ext(s1: SolverView, s2: SolverView, p: usize, name: Option<Seq<char>>, c: Option<Seq<char>>)
    requires
        ext(s1, s2),
    ensures
        known_as(s1, p, name, c) ==> known_as(s2, p, name, c),
        forall|n: Seq<char>| named(s1, p, n) ==> named(s2, p, n),
{
    if p < s1.analysis.len() && s1.analysis[p as int] is Some {
        assert(s2.analysis[p as int] == s1.analysis[p as int]);
        let mi = s1.analysis[p as int].unwrap().metadata;
        if mi < s1.metadata.len() {
            assert(s2.metadata[mi as int] == s1.metadata[mi as int]);
        }
    }
}

/// A sound frame stays sound as the tables grow.
pub proof fn lemma_frame_sound_ext(s1: SolverView, s2: SolverView, f: FrameView)
    requires
        ext(s1, s2),
        frame_sound(s1, f),
    ensures
        frame_sound(s2, f),
{
    assert forall|d: Dependant| #[trigger] f.solution.partial.contains_key(d) implies mark_sound(s2, d, f.solution.partial[d]) by {
        let m = f.solution.partial[d];
        assert(mark_sound(s1, d, m));
        match m {
            Mark::Permanent(Outcome::Failed(_)) => {},
            Mark::Permanent(Outcome::Resolved(p)) | Mark::Temporary(p) => {
                assert(s2.path_dependencies[d.0 as int] == s1.path_dependencies[d.0 as int]);
                assert(s2.dependencies[d.1 as int] == s1.dependencies[d.1 as int]);
                assert(spec_is_path_dependency(s2, d) == spec_is_path_dependency(s1, d));
                lemma_known_ext(s1, s2, p, dep_of(s1, d).name, dep_of(s1, d).version);
            },
        }
    }
    assert forall|i: usize| #[trigger] f.solution.permanent.contains_key(i) implies outcome_sound(s2, i, f.solution.permanent[i]) by {
        let o = f.solution.permanent[i];
        assert(outcome_sound(s1, i, o));
        match o {
            Outcome::Failed(_) => {},
            Outcome::Resolved(p) => {
                assert(s2.names[i as int] == s1.names[i as int]);
                lemma_known_ext(s1, s2, p, None, None);
            },
        }
    }
    if f.remaining_versions is Some {
        let r = f.remaining_versions.unwrap();
        let d = f.working_set.last();
        assert(s2.dependencies[d.1 as int] == s1.dependencies[d.1 as int]);
        assert forall|k: int| 0 <= k < r.len() implies #[trigger] r[k] < s2.versions.len()
            && spec_accepts(s2.versions[r[k] as int], dep_of(s2, d).version) by {
            assert(s2.versions[r[k] as int] == s1.versions[r[k] as int]);
        }
    }
}

/// The saved frames stay sound as the tables grow.
pub proof fn lemma_frames_sound_ext(s1: SolverView, s2: SolverView)
    requires
        ext(s1, s2),
        forall|i: int| 0 <= i < s1.frames.len() ==> frame_sound(s1, #[trigger] s1.frames[i]),
        s2.frames == s1.frames,
    ensures
        forall|i: int| 0 <= i < s2.frames.len() ==> frame_sound(s2, #[trigger] s2.frames[i]),
{
    assert forall|i: int| 0 <= i < s2.frames.len() implies frame_sound(s2, #[trigger] s2.frames[i]) by {
        lemma_frame_sound_ext(s1, s2, s1.frames[i]);
    }
}


/// The claim that marking `d` permanently with `o` makes: none for an error; for a package,
/// that it is known as the dependency's name at a satisfying version, unless `d` is a path
/// dependency.
pub open spec fn outcome_fits(s: SolverView, d: Dependant, o: Outcome) -> bool {
    o matches Outcome::Resolved(p) ==> (!spec_is_path_dependency(s, d) ==> known_as(s, p, dep_of(s, d).name, dep_of(s, d).version))
}

/// Marking a dependant permanently keeps a sound solution sound, when the outcome fits.
proof fn lemma_mark_perm_sound(s: SolverView, sol: SolutionView, d: Dependant, o: Outcome)
    requires
        solution_sound(s, sol),
        s.names.len() < usize::MAX,
        d.0 < s.path_dependencies.len(),
        d.1 < s.dependencies.len(),
        outcome_fits(s, d, o),
    ensures
        spec_mark_perm(s, sol, d, o) matches Some((s2, sol2)) ==> {
            &&& ext(s, s2)
            &&& s2 == (SolverView { names: s2.names, ..s })
            &&& solution_sound(s2, sol2)
        },
{
    match spec_mark_perm(s, sol, d, o) {
        None => {},
        Some((s2, sol2)) => {
            if spec_is_path_dependency(s, d) {
                assert(s2 == s);
                assert forall|k: Dependant| #[trigger] sol2.partial.contains_key(k) implies mark_sound(s2, k, sol2.partial[k]) by {
                    if k != d {
                        assert(sol2.partial[k] == sol.partial[k]);
                    }
                }
            } else {
                let n = dep_of(s, d).name.unwrap();
                lemma_seq_intern(s.names, n);
                lemma_seq_find(seq_intern(s.names, n), n);
                let i = seq_find(seq_intern(s.names, n), n).unwrap() as usize;
                assert(ext(s, s2));
                assert(spec_is_path_dependency(s2, d) == spec_is_path_dependency(s, d));
                assert forall|k: Dependant| #[trigger] sol2.partial.contains_key(k) implies mark_sound(s2, k, sol2.partial[k]) by {
                    if k != d {
                        assert(sol2.partial[k] == sol.partial[k]);
                        assert(spec_is_path_dependency(s2, k) == spec_is_path_dependency(s, k));
                    }
                }
                assert forall|j: usize| #[trigger] sol2.permanent.contains_key(j) implies outcome_sound(s2, j, sol2.permanent[j]) by {
                    if j != i {
                        assert(sol2.permanent[j] == sol.permanent[j]);
                        if sol.permanent[j] is Resolved {
                            assert(s2.names[j as int] == s.names[j as int]);
                        }
                    } else {
                        assert(s2.names[i as int] == n);
                    }
                }
            }
        },
    }
}

/// Ending a step by marking `d` permanently keeps the solver sound, when the outcome fits.
proof fn lemma_finish_permanently_sound(s: SolverView, next: FrameView, d: Dependant, o: Outcome)
    requires
        sound(s),
        solution_sound(s, next.solution),
        next.remaining_versions is None,
        s.names.len() < usize::MAX,
        d.0 < s.path_dependencies.len(),
        d.1 < s.dependencies.len(),
        outcome_fits(s, d, o),
    ensures
        ext(s, spec_finish_permanently(s, next, d, o).0),
        sound(spec_finish_permanently(s, next, d, o).0),
        spec_finish_permanently(s, next, d, o).0.frames == s.frames,
{
    lemma_mark_perm_sound(s, next.solution, d, o);
    match spec_mark_perm(s, next.solution, d, o) {
        None => {},
        Some((s2, sol2)) => {
            let s3 = with_current(s2, with_solution(next, sol2));
            assert(ext(s2, s3));
            lemma_ext_trans(s, s2, s3);
            lemma_frames_sound_ext(s, s3);
        },
    }
}

/// Ending a step after an error for the package `name`: backtracking or marking `d` with the
/// error keeps the solver sound.
proof fn lemma_finish_with_backtrack_sound(s: SolverView, next: FrameView, d: Dependant, name: Option<Seq<char>>, e: usize)
    requires
        sound(s),
        crate::references::history_ok(s.history, bounds(s)),
        solution_sound(s, next.solution),
        next.remaining_versions is None,
        s.names.len() < usize::MAX,
        d.0 < s.path_dependencies.len(),
        d.1 < s.dependencies.len(),
    ensures
        ext(s, spec_finish_with_backtrack(s, next, d, name, e).0),
        sound(spec_finish_with_backtrack(s, next, d, name, e).0),
        spec_finish_with_backtrack(s, next, d, name, e).0.frames == s.frames,
{
    match name {
        None => {},
        Some(n) => match spec_try_backtrack(s, n, e) {
            Some((f, k)) => {
                crate::laws::lemma_chooser_index(s, n, s.history.len() as int);
                let h = s.history[k];
                assert(h < s.frames.len());
                assert(frame_sound(s, s.frames[h as int]));
                assert(frame_sound(s, f));
            },
            None => {
                lemma_finish_permanently_sound(s, next, d, Outcome::Failed(e));
            },
        },
    }
}


/// Getting the analysis of a package only adds to the tables, keeps the frames, and keeps
/// every record of the package as published.
proof fn lemma_fetch_sound(s: SolverView, p: usize, resp: Option<ResponseView>)
    ensures
        spec_fetch_analysis(s, p, resp) matches AnalysisFetch::Ready { s: s2, analysis: a, resp: _ } ==> {
            &&& ext(s, s2)
            &&& s2.frames == s.frames
            &&& s2.current == s.current
            &&& s2.history == s.history
            &&& s2.errors == s.errors
            &&& s2.names == s.names
            &&& s2.versions == s.versions
            &&& s2.path_dependencies == s.path_dependencies
            &&& p < s2.analysis.len()
            &&& s2.analysis[p as int] == Some(a)
            &&& forall|m: usize| #[trigger] s.published.contains_key(m) && s.published[m] == p
                ==> s2.published.contains_key(m) && s2.published[m] == p
        },
{
    if p < s.packages.len() && p < s.analysis.len() && s.analysis[p as int] is None {
        match resp {
            Some(ResponseView::Analysis(Ok((m, deps)))) => {
                let s2 = spec_cache_analysis(s, p, m, deps);
                lemma_seq_intern(s.metadata, m);
                let kept = deps.filter(|x: SpecDependency| crate::model::spec_analysis_keeps(s, p, x));
                crate::solve::lemma_intern_all_grows(s.dependencies, kept);
                assert forall|q: int| 0 <= q < s.analysis.len() && (#[trigger] s.analysis[q]) is Some implies s2.analysis[q] == s.analysis[q] by {
                    assert(q != p);
                }
                assert(ext(s, s2));
            },
            _ => {},
        }
    }
}


/// A sound solver stays sound as its tables grow, its frames staying as they are.
proof fn lemma_sound_ext(s: SolverView, s2: SolverView)
    requires
        sound(s),
        ext(s, s2),
        s2.frames == s.frames,
        s2.current == s.current,
    ensures
        sound(s2),
{
    lemma_frame_sound_ext(s, s2, s.current);
    lemma_frames_sound_ext(s, s2);
}

/// What the settled outcome of a dependant's name tells of it.
proof fn lemma_get_permanent_sound(s: SolverView, sol: SolutionView, d: Dependant)
    requires
        solution_sound(s, sol),
        s.names.len() < usize::MAX,
    ensures
        spec_get_permanent(s, sol, d) matches Some(Outcome::Resolved(p)) ==> {
            &&& !spec_is_path_dependency(s, d)
            &&& dep_of(s, d).name matches Some(n) && named(s, p, n)
        },
{
    if !spec_is_path_dependency(s, d) {
        match dep_of(s, d).name {
            None => {},
            Some(n) => {
                lemma_seq_find(s.names, n);
                match seq_find(s.names, n) {
                    None => {},
                    Some(i) => {
                        if sol.permanent.contains_key(i as usize) {
                            assert(outcome_sound(s, i as usize, sol.permanent[i as usize]));
                        }
                    },
                }
            },
        }
    }
}

/// A dependant whose name is settled is settled soundly.
proof fn lemma_case_settled_sound(s: SolverView, next: FrameView, d: Dependant, resp: Option<ResponseView>)
    requires
        sound(s),
        crate::references::history_ok(s.history, bounds(s)),
        s.names.len() < usize::MAX,
        solution_sound(s, next.solution),
        next.remaining_versions is None,
        d.0 < s.path_dependencies.len(),
        d.1 < s.dependencies.len(),
        spec_get_permanent(s, next.solution, d) is Some,
    ensures
        ext(s, spec_case_settled(s, next, d, spec_get_permanent(s, next.solution, d).unwrap(), resp).0),
        sound(spec_case_settled(s, next, d, spec_get_permanent(s, next.solution, d).unwrap(), resp).0),
{
    let o = spec_get_permanent(s, next.solution, d).unwrap();
    lemma_get_permanent_sound(s, next.solution, d);
    match o {
        Outcome::Failed(e) => {
            lemma_finish_permanently_sound(s, next, d, o);
        },
        Outcome::Resolved(p) => {
            lemma_fetch_sound(s, p, resp);
            match spec_fetch_analysis(s, p, resp) {
                AnalysisFetch::Stop(_) => {
                    assert(ext(s, s));
                },
                AnalysisFetch::Ready { s: s2, analysis: a, resp: _ } => {
                    lemma_sound_ext(s, s2);
                    lemma_frame_sound_ext(s, s2, next);
                    lemma_known_ext(s, s2, p, None, None);
                    match spec_analysis_version(s2, a) {
                        Some(Some(v)) => match spec_version_matches(v, dep_of(s2, d).version) {
                            Ok(true) => {
                                assert(known_as(s2, p, dep_of(s2, d).name, dep_of(s2, d).version));
                                lemma_finish_permanently_sound(s2, next, d, Outcome::Resolved(p));
                                lemma_ext_trans(s, s2, spec_finish_permanently(s2, next, d, Outcome::Resolved(p)).0);
                            },
                            Ok(false) => {
                                let s3 = with_error(s2, SpecError::PackageVersionConflict);
                                assert(ext(s2, s3));
                                lemma_sound_ext(s2, s3);
                                lemma_frame_sound_ext(s2, s3, next);
                                lemma_finish_with_backtrack_sound(s3, next, d, dep_of(s3, d).name, s2.errors.len() as usize);
                                lemma_ext_trans(s2, s3, spec_finish_with_backtrack(s3, next, d, dep_of(s3, d).name, s2.errors.len() as usize).0);
                                lemma_ext_trans(s, s2, spec_finish_with_backtrack(s3, next, d, dep_of(s3, d).name, s2.errors.len() as usize).0);
                            },
                            Err(m) => {
                                let s3 = with_error(s2, SpecError::Other(m));
                                assert(ext(s2, s3));
                                lemma_sound_ext(s2, s3);
                                lemma_frame_sound_ext(s2, s3, next);
                                lemma_finish_permanently_sound(s3, next, d, Outcome::Failed(s2.errors.len() as usize));
                                lemma_ext_trans(s2, s3, spec_finish_permanently(s3, next, d, Outcome::Failed(s2.errors.len() as usize)).0);
                                lemma_ext_trans(s, s2, spec_finish_permanently(s3, next, d, Outcome::Failed(s2.errors.len() as usize)).0);
                            },
                        },
                        _ => {},
                    }
                },
            }
        },
    }
}


/// A dependant tentatively marked with a package is settled, or backtracked from, soundly.
proof fn lemma_case_tentative_sound(s: SolverView, next: FrameView, d: Dependant, p: usize, resp: Option<ResponseView>)
    requires
        sound(s),
        crate::references::history_ok(s.history, bounds(s)),
        s.names.len() < usize::MAX,
        solution_sound(s, next.solution),
        next.remaining_versions is None,
        d.0 < s.path_dependencies.len(),
        d.1 < s.dependencies.len(),
        next.solution.partial.contains_key(d),
        next.solution.partial[d] == Mark::Temporary(p),
    ensures
        ext(s, spec_case_tentative(s, next, d, p, resp).0),
        sound(spec_case_tentative(s, next, d, p, resp).0),
{
    assert(mark_sound(s, d, Mark::Temporary(p)));
    lemma_fetch_sound(s, p, resp);
    match spec_fetch_analysis(s, p, resp) {
        AnalysisFetch::Stop(_) => {
            assert(ext(s, s));
        },
        AnalysisFetch::Ready { s: s2, analysis: a, resp: _ } => {
            lemma_sound_ext(s, s2);
            lemma_frame_sound_ext(s, s2, next);
            lemma_known_ext(s, s2, p, dep_of(s, d).name, dep_of(s, d).version);
            match spec_scan_children(s2.errors, next.solution.partial, p, a.dependencies, d) {
                None => {},
                Some((errors, erroneous)) => {
                    let s3 = SolverView { errors, ..s2 };
                    assert(ext(s2, s3));
                    lemma_sound_ext(s2, s3);
                    lemma_frame_sound_ext(s2, s3, next);
                    lemma_known_ext(s2, s3, p, dep_of(s, d).name, dep_of(s, d).version);
                    lemma_ext_trans(s, s2, s3);
                    assert(spec_is_path_dependency(s3, d) == spec_is_path_dependency(s, d));
                    if erroneous.len() == 0 {
                        lemma_finish_permanently_sound(s3, next, d, Outcome::Resolved(p));
                        lemma_ext_trans(s, s3, spec_finish_permanently(s3, next, d, Outcome::Resolved(p)).0);
                    } else {
                        match spec_analysis_version(s3, a) {
                            Some(Some(v)) => {
                                let e = s3.errors.len() as usize;
                                let err = SpecError::Backtrack { package: p, previous_version: v, erroneous_dependencies: erroneous };
                                let s4 = with_error(s3, err);
                                assert(ext(s3, s4));
                                lemma_sound_ext(s3, s4);
                                lemma_frame_sound_ext(s3, s4, next);
                                lemma_finish_with_backtrack_sound(s4, next, d, dep_of(s4, d).name, e);
                                lemma_ext_trans(s3, s4, spec_finish_with_backtrack(s4, next, d, dep_of(s4, d).name, e).0);
                                lemma_ext_trans(s, s3, spec_finish_with_backtrack(s4, next, d, dep_of(s4, d).name, e).0);
                            },
                            _ => {},
                        }
                    }
                },
            }
        },
    }
}


/// Interning gives each item an index at which the grown table holds it.
proof fn lemma_intern_all_values<T>(t: Seq<T>, xs: Seq<T>)
    requires
        spec_intern_all(t, xs).0.len() < usize::MAX,
    ensures
        spec_intern_all(t, xs).1.len() == xs.len(),
        forall|k: int| 0 <= k < xs.len() ==> (#[trigger] spec_intern_all(t, xs).1[k]) < spec_intern_all(t, xs).0.len()
            && spec_intern_all(t, xs).0[spec_intern_all(t, xs).1[k] as int] == xs[k],
    decreases xs.len(),
{
    if xs.len() > 0 {
        let init = xs.drop_last();
        let (t1, r1) = spec_intern_all(t, init);
        let t2 = seq_intern(t1, xs.last());
        lemma_seq_intern(t1, xs.last());
        assert(spec_intern_all(t, xs).0 == t2);
        lemma_intern_all_values(t, init);
        lemma_seq_find(t2, xs.last());
        let (t3, r3) = spec_intern_all(t, xs);
        assert forall|k: int| 0 <= k < xs.len() implies (#[trigger] r3[k]) < t3.len() && t3[r3[k] as int] == xs[k] by {
            if k < xs.len() - 1 {
                assert(r3[k] == r1[k]);
                assert(init[k] == xs[k]);
                assert(t3[r1[k] as int] == t1[r1[k] as int]);
            }
        }
    }
}

/// Staging the versions to try keeps the solver sound: each satisfies the constraint of the
/// dependant on top of the working set.
proof fn lemma_stage_sound(s: SolverView, d: Dependant, name: Seq<char>, resp: Option<ResponseView>)
    requires
        sound(s),
        s.current.working_set.len() > 0,
        s.current.working_set.last() == d,
        d.1 < s.dependencies.len(),
    ensures
        spec_stage_versions(s, d, name, resp) matches VersionsStage::Ready { s: s1, resp: _ } ==> {
            &&& ext(s, s1)
            &&& s1.versions.len() < usize::MAX ==> sound(s1)
            &&& s1 == (SolverView { versions: s1.versions, current: s1.current, ..s })
            &&& s1.current == (FrameView { remaining_versions: s1.current.remaining_versions, ..s.current })
            &&& s1.current.remaining_versions is Some
        },
{
    if s.current.remaining_versions is None {
        match resp {
            Some(ResponseView::Versions(Ok(vs))) => {
                let c = dep_of(s, d).version;
                let f = |v: Seq<char>| spec_accepts(v, c);
                let filtered = vs.filter(f);
                crate::solve::lemma_intern_all_grows(s.versions, filtered);
                let (versions, refs) = spec_intern_all(s.versions, filtered);
                let s1 = SolverView { versions, current: FrameView { remaining_versions: Some(refs), ..s.current }, ..s };
                assert(ext(s, s1));
                if versions.len() < usize::MAX {
                    lemma_intern_all_values(s.versions, filtered);
                    lemma_frames_sound_ext(s, s1);
                    lemma_frame_sound_ext(s, s1, s.current);
                    assert forall|k: int| 0 <= k < refs.len() implies #[trigger] refs[k] < s1.versions.len()
                        && spec_accepts(s1.versions[refs[k] as int], dep_of(s1, d).version) by {
                        vs.lemma_filter_pred(f, k);
                        assert(s1.dependencies == s.dependencies);
                    }
                    assert(remaining_sound(s1, s1.current));
                }
            },
            _ => {},
        }
    }
}

/// Choosing a package for a registry dependant takes the last of the versions left to try,
/// and the package recorded as published under the name and that version.
proof fn lemma_try_resolve_sound(s: SolverView, d: Dependant, name: Seq<char>, resp: Option<ResponseView>)
    requires
        s.current.remaining_versions is Some,
    ensures
        match spec_try_resolve(s, d, name, resp) {
            Resolution::Found { s: s2, package: p, pop, resp: _ } => {
                &&& ext(s, s2)
                &&& s2.frames == s.frames
                &&& s2.current == s.current
                &&& s2.history == s.history
                &&& s2.errors == s.errors
                &&& s2.names == s.names
                &&& s2.versions == s.versions
                &&& s2.dependencies == s.dependencies
                &&& (spec_is_path_dependency(s2, d) == spec_is_path_dependency(s, d))
                &&& !spec_is_path_dependency(s, d) ==> {
                    let rem = s.current.remaining_versions.unwrap();
                    &&& pop
                    &&& rem.len() > 0
                    &&& rem.last() < s.versions.len()
                    &&& seq_find(s2.metadata, registry_key(name, s.versions[rem.last() as int])) matches Some(m)
                        && s2.published.contains_key(m as usize) && s2.published[m as usize] == p
                        && 0 <= m < s2.metadata.len()
                        && s2.metadata[m] == registry_key(name, s.versions[rem.last() as int])
                }
            },
            Resolution::Failed { s: s2, error: _ } => s2 == s,
            Resolution::Skip { s: s2 } => {
                &&& s.current.remaining_versions.unwrap().len() > 0
                &&& s2 == (SolverView { current: FrameView { remaining_versions: Some(s.current.remaining_versions.unwrap().drop_last()), ..s.current }, ..s })
            },
            Resolution::Stop(_) => true,
        },
{
    if !spec_is_path_dependency(s, d) {
        let rem = s.current.remaining_versions.unwrap();
        if rem.len() > 0 && rem.last() < s.versions.len() {
            let key = registry_key(name, s.versions[rem.last() as int]);
            lemma_seq_find(s.metadata, key);
            match spec_published(s, key) {
                Some(p) => {
                    assert(ext(s, s));
                },
                None => match resp {
                    Some(ResponseView::Package(Ok(Some(id)))) => {
                        let (s2, p) = spec_intern_package(s, id);
                        lemma_seq_intern(s2.metadata, key);
                        lemma_seq_find(seq_intern(s2.metadata, key), key);
                        crate::dependency::lemma_seq_intern(s.packages, id);
                        assert(ext(s, s2));
                        let metadata = seq_intern(s2.metadata, key);
                        let s3 = SolverView { metadata, published: s2.published.insert(seq_find(metadata, key).unwrap() as usize, p), ..s2 };
                        assert(ext(s2, s3));
                        lemma_ext_trans(s, s2, s3);
                        assert(spec_is_path_dependency(s3, d) == spec_is_path_dependency(s, d));
                    },
                    _ => {},
                },
            }
        }
    } else {
        assert(ext(s, s));
    }
}

/// Committing the choice of a package that fits the dependant keeps the solver sound.
proof fn lemma_commit_sound(s: SolverView, next: FrameView, d: Dependant, p: usize, pop: bool, a: AnalysisView)
    requires
        sound(s),
        solution_sound(s, next.solution),
        s.current.remaining_versions is Some,
        pop ==> s.current.remaining_versions.unwrap().len() > 0,
        d.0 < s.path_dependencies.len(),
        d.1 < s.dependencies.len(),
        !spec_is_path_dependency(s, d) ==> known_as(s, p, dep_of(s, d).name, dep_of(s, d).version),
    ensures
        ext(s, spec_commit_choice(s, next, d, p, pop, a)),
        sound(spec_commit_choice(s, next, d, p, pop, a)),
{
    let s4 = spec_commit_choice(s, next, d, p, pop, a);
    let saved = if pop {
        FrameView { remaining_versions: Some(s.current.remaining_versions.unwrap().drop_last()), ..s.current }
    } else {
        s.current
    };
    assert(s4.frames == s.frames.push(saved));
    assert(ext(s, s4));
    assert(frame_sound(s, saved));
    lemma_frame_sound_ext(s, s4, saved);
    assert forall|i: int| 0 <= i < s4.frames.len() implies frame_sound(s4, #[trigger] s4.frames[i]) by {
        if i < s.frames.len() {
            lemma_frame_sound_ext(s, s4, s.frames[i]);
        }
    }
    let sol = spec_mark_temporarily(spec_mark_temporarily(next.solution, d, p), d, p);
    assert(spec_is_path_dependency(s4, d) == spec_is_path_dependency(s, d));
    lemma_known_ext(s, s4, p, dep_of(s, d).name, dep_of(s, d).version);
    lemma_frame_sound_ext(s, s4, FrameView { solution: next.solution, ..s4.current });
    assert forall|k: Dependant| #[trigger] sol.partial.contains_key(k) implies mark_sound(s4, k, sol.partial[k]) by {
        if k != d {
            assert(sol.partial[k] == next.solution.partial[k]);
        }
    }
}


/// The tables of names, versions and metadata are small enough to be indexed by `usize`.
pub open spec fn fits(s: SolverView) -> bool {
    &&& s.names.len() < usize::MAX
    &&& s.versions.len() < usize::MAX
    &&& s.metadata.len() < usize::MAX
}

/// A dependant with no mark and no settled outcome gets a sound choice, or a sound error,
/// when the registry is honest.
proof fn lemma_case_new_sound(s: SolverView, next: FrameView, d: Dependant, resp: Option<ResponseView>)
    requires
        sound(s),
        crate::references::history_ok(s.history, bounds(s)),
        fits(s),
        fits(spec_case_new(s, next, d, resp).0),
        published_honest(spec_case_new(s, next, d, resp).0),
        solution_sound(s, next.solution),
        next.remaining_versions is None,
        d.0 < s.path_dependencies.len(),
        d.1 < s.dependencies.len(),
        s.current.working_set.len() > 0,
        s.current.working_set.last() == d,
    ensures
        ext(s, spec_case_new(s, next, d, resp).0),
        sound(spec_case_new(s, next, d, resp).0),
{
    let fin = spec_case_new(s, next, d, resp).0;
    match dep_of(s, d).name {
        None => {
            assert(ext(s, s));
        },
        Some(name) => {
            lemma_stage_sound(s, d, name, resp);
            match spec_stage_versions(s, d, name, resp) {
                VersionsStage::Stop(_) => {
                    assert(ext(s, s));
                },
                VersionsStage::Failed(m) => {
                    let s3 = with_error(s, SpecError::Other(m));
                    assert(ext(s, s3));
                    lemma_sound_ext(s, s3);
                    lemma_frame_sound_ext(s, s3, next);
                    lemma_finish_permanently_sound(s3, next, d, Outcome::Failed(s.errors.len() as usize));
                    lemma_ext_trans(s, s3, fin);
                },
                VersionsStage::Ready { s: s1, resp: resp1 } => {
                    lemma_try_resolve_sound(s1, d, name, resp1);
                    match spec_try_resolve(s1, d, name, resp1) {
                        Resolution::Stop(_) => {
                            assert(fin == s1);
                        },
                        Resolution::Skip { s: s2 } => {
                            assert(fin == s2);
                            assert(sound(s1));
                            assert(ext(s1, s2));
                            lemma_frames_sound_ext(s1, s2);
                            lemma_frame_sound_ext(s1, s2, s1.current);
                            lemma_ext_trans(s, s1, s2);
                            let r1 = s1.current.remaining_versions.unwrap();
                            let r2 = s2.current.remaining_versions.unwrap();
                            assert forall|k: int| 0 <= k < r2.len() implies #[trigger] r2[k] < s2.versions.len()
                                && spec_accepts(s2.versions[r2[k] as int], dep_of(s2, s2.current.working_set.last()).version) by {
                                assert(r2[k] == r1[k]);
                            }
                        },
                        Resolution::Failed { s: s2, error } => {
                            assert(fin.versions == s1.versions);
                            assert(sound(s1));
                            lemma_frame_sound_ext(s, s1, next);
                            match (error, s2.current.last_error) {
                                (SpecError::PackageVersionConflict, Some(le)) => {
                                    lemma_finish_permanently_sound(s2, next, d, Outcome::Failed(le));
                                    lemma_ext_trans(s, s2, fin);
                                },
                                _ => {
                                    let s3 = with_error(s2, error);
                                    assert(ext(s2, s3));
                                    lemma_sound_ext(s2, s3);
                                    lemma_frame_sound_ext(s2, s3, next);
                                    lemma_finish_permanently_sound(s3, next, d, Outcome::Failed(s2.errors.len() as usize));
                                    lemma_ext_trans(s2, s3, fin);
                                    lemma_ext_trans(s, s2, fin);
                                },
                            }
                        },
                        Resolution::Found { s: s2, package: p, pop, resp: resp2 } => {
                            lemma_fetch_sound(s2, p, resp2);
                            match spec_fetch_analysis(s2, p, resp2) {
                                AnalysisFetch::Stop(_) => {
                                    assert(fin == s2);
                                    lemma_ext_trans(s, s1, s2);
                                },
                                AnalysisFetch::Ready { s: s3, analysis: a, resp: _ } => {
                                    assert(fin == spec_commit_choice(s3, next, d, p, pop, a));
                                    assert(fin.versions == s1.versions);
                                    assert(sound(s1));
                                    lemma_ext_trans(s, s1, s2);
                                    lemma_ext_trans(s, s2, s3);
                                    lemma_sound_ext(s1, s2);
                                    lemma_sound_ext(s2, s3);
                                    lemma_frame_sound_ext(s, s3, next);
                                    assert(spec_is_path_dependency(s3, d) == spec_is_path_dependency(s, d));
                                    if !spec_is_path_dependency(s, d) {
                                        let rem = s1.current.remaining_versions.unwrap();
                                        let v = s1.versions[rem.last() as int];
                                        let key = registry_key(name, v);
                                        let m = seq_find(s2.metadata, key).unwrap();
                                        assert(s3.published.contains_key(m as usize) && s3.published[m as usize] == p);
                                        assert(s3.metadata[m] == key);
                                        assert(fin.published == s3.published && fin.metadata == s3.metadata && fin.analysis == s3.analysis);
                                        assert(fin.published.contains_key(m as usize));
                                        assert((m as usize) as int == m);
                                        assert(s3.analysis[p as int] is Some);
                                        assert(remaining_sound(s1, s1.current));
                                        assert(rem.last() == rem[rem.len() - 1]);
                                        assert(spec_accepts(v, dep_of(s1, d).version));
                                        assert(dep_of(s3, d) == dep_of(s, d));
                                        assert(known_as(s3, p, dep_of(s3, d).name, dep_of(s3, d).version));
                                    }
                                    lemma_commit_sound(s3, next, d, p, pop, a);
                                    lemma_ext_trans(s, s3, fin);
                                },
                            }
                        },
                    }
                },
            }
        },
    }
}


/// Each step of the search keeps the solver sound, as long as the registry is honest: every
/// package tried for or settled for a registry dependency, in the current frame and in every
/// saved frame, has the dependency's name and a version that satisfies its constraint, as
/// the package's own metadata says; every outcome settled for a package name is a package of
/// that name; and the versions left to try satisfy the constraint they were staged for.
pub proof fn law_step_keeps_soundness(s: SolverView, resp: Option<ResponseView>)
    requires
        refs_valid(s),
        sound(s),
        fits(s),
        fits(spec_step(s, resp).0),
        published_honest(spec_step(s, resp).0),
    ensures
        sound(spec_step(s, resp).0),
{
    match spec_next_dependant(s.current) {
        None => {},
        Some((working_set, d)) => {
            if d.0 < s.packages.len() && d.1 < s.dependencies.len() {
                let next = FrameView { solution: s.current.solution, working_set, remaining_versions: None, last_error: None };
                let solution = s.current.solution;
                if solution.partial.contains_key(d) {
                    match solution.partial[d] {
                        Mark::Permanent(_) => {},
                        Mark::Temporary(p) => {
                            lemma_case_tentative_sound(s, next, d, p, resp);
                        },
                    }
                } else {
                    match spec_get_permanent(s, solution, d) {
                        Some(o) => {
                            lemma_case_settled_sound(s, next, d, resp);
                        },
                        None => {
                            lemma_case_new_sound(s, next, d, resp);
                        },
                    }
                }
            }
        },
    }
}

/// A solver with no marks, no outcomes, no saved frames and no versions to try is sound:
/// the solver that `Solver::new` gives is one, and scanning keeps it one (see
/// `law_scan_keeps_solution`).
pub proof fn law_fresh_is_sound(s: SolverView)
    requires
        s.frames.len() == 0,
        s.current.solution.partial.dom().is_empty(),
        s.current.solution.permanent.dom().is_empty(),
        s.current.remaining_versions is None,
    ensures
        sound(s),
{
    assert forall|d: Dependant| #[trigger] s.current.solution.partial.contains_key(d) implies mark_sound(s, d, s.current.solution.partial[d]) by {
        assert(s.current.solution.partial.dom().contains(d));
    }
    assert forall|i: usize| #[trigger] s.current.solution.permanent.contains_key(i) implies outcome_sound(s, i, s.current.solution.permanent[i]) by {
        assert(s.current.solution.permanent.dom().contains(i));
    }
}

/// When the search is done, each dependant settled with a package, other than a path
/// dependency, depends on a package of that name at a version that satisfies the
/// dependency's constraint, as the package's metadata says.
pub proof fn law_solution_is_sound(s: SolverView, d: Dependant, p: usize)
    requires
        sound(s),
        s.current.solution.partial.contains_key(d),
        s.current.solution.partial[d] == Mark::Permanent(Outcome::Resolved(p)),
        !spec_is_path_dependency(s, d),
    ensures
        d.1 < s.dependencies.len(),
        known_as(s, p, dep_of(s, d).name, dep_of(s, d).version),
{
    assert(mark_sound(s, d, s.current.solution.partial[d]));
}


/// Scanning a package tree leaves the solution, the saved frames and the versions to try as
/// they were: it only adds to the tables and to the working set.
pub proof fn law_scan_keeps_solution(s: SolverView, t: crate::scan::PackageTree)
    ensures
        crate::scan::spec_scan(s, t).frames == s.frames,
        crate::scan::spec_scan(s, t).current.solution == s.current.solution,
        crate::scan::spec_scan(s, t).current.remaining_versions == s.current.remaining_versions,
    decreases t, t.path_dependencies@.len() + 1,
{
    let (s1, p) = spec_intern_package(s, t.id@);
    if !(s1.path_dependencies[p as int] is Some) {
        let metadata = seq_intern(s1.metadata, t.metadata@);
        let mi = seq_find(metadata, t.metadata@).unwrap() as usize;
        let (dependencies, refs) = spec_intern_all(s1.dependencies, t.dependencies@.map_values(|d: crate::dependency::Dependency| d@));
        let s2 = SolverView {
            metadata,
            dependencies,
            analysis: s1.analysis.update(p as int, Some(AnalysisView { metadata: mi, dependencies: refs })),
            current: FrameView {
                working_set: s1.current.working_set + crate::model::children_dependants(p, refs),
                ..s1.current
            },
            ..s1
        };
        lemma_scan_edges_keeps_solution(s2, p, t, 0);
    }
}

/// Scanning the path dependencies of a package leaves the solution, the saved frames and
/// the versions to try as they were.
proof fn lemma_scan_edges_keeps_solution(s: SolverView, p: usize, t: crate::scan::PackageTree, i: int)
    ensures
        crate::scan::spec_scan_edges(s, p, t, i).frames == s.frames,
        crate::scan::spec_scan_edges(s, p, t, i).current.solution == s.current.solution,
        crate::scan::spec_scan_edges(s, p, t, i).current.remaining_versions == s.current.remaining_versions,
    decreases t, t.path_dependencies@.len() - i,
{
    if 0 <= i < t.path_dependencies@.len() {
        let e = t.path_dependencies@[i];
        let (s1, c) = spec_intern_package(s, e.1.id@);
        let table = match s1.path_dependencies[p as int] {
            Some(tb) => tb,
            None => Seq::empty(),
        };
        let s2 = SolverView {
            path_dependencies: s1.path_dependencies.update(p as int, Some(crate::scan::spec_table_insert(table, e.0@.path.unwrap(), c))),
            ..s1
        };
        law_scan_keeps_solution(s2, e.1);
        lemma_scan_edges_keeps_solution(crate::scan::spec_scan(s2, e.1), p, t, i + 1);
    }
}


/// Each registry entry of a lock names a package that has the dependency's name and a
/// version that satisfies its constraint, as the package's metadata says: a lock entry of a
/// dependency that is not resolved by a path table is the package that the solution
/// settled for it.
pub proof fn law_lock_entries_are_sound(s: SolverView, p: usize, d: usize)
    requires
        sound(s),
        crate::locking::spec_resolve_entry(s, p, d) is Ok,
        !spec_is_path_dependency(s, (p, d)),
    ensures
        known_as(s, crate::locking::spec_resolve_entry(s, p, d).unwrap(), dep_of(s, (p, d)).name, dep_of(s, (p, d)).version),
{
    let partial = s.current.solution.partial;
    assert(partial.contains_key((p, d)));
    assert(mark_sound(s, (p, d), partial[(p, d)]));
}


/// The package that a mark settles, if it is a permanent mark with a package.
pub open spec fn settled_package(m: Mark) -> Option<usize> {
    match m {
        Mark::Permanent(Outcome::Resolved(p)) => Some(p),
        _ => None,
    }
}

/// The package of an outcome, if it is one.
pub open spec fn outcome_package(o: Outcome) -> Option<usize> {
    match o {
        Outcome::Resolved(p) => Some(p),
        Outcome::Failed(_) => None,
    }
}

/// Every dependency of package `p`, as its analysis lists them, has a mark in `sol`.
pub open spec fn children_marked(s: SolverView, sol: SolutionView, p: usize) -> bool {
    &&& p < s.analysis.len()
    &&& s.analysis[p as int] is Some
    &&& forall|k: int| 0 <= k < s.analysis[p as int].unwrap().dependencies.len()
        ==> sol.partial.contains_key((p, #[trigger] s.analysis[p as int].unwrap().dependencies[k]))
}

/// A frame is closed over the dependants `roots`: every dependant tentatively marked is still
/// to be taken from its working set; every root is marked or still to be taken; and every
/// package settled for a dependant or a name has all its dependencies marked.
pub open spec fn frame_closed(s: SolverView, f: FrameView, roots: Set<Dependant>) -> bool {
    &&& forall|d: Dependant| #[trigger] f.solution.partial.contains_key(d) && f.solution.partial[d] is Temporary
        ==> f.working_set.contains(d)
    &&& forall|d: Dependant| #[trigger] roots.contains(d) ==> f.solution.partial.contains_key(d) || f.working_set.contains(d)
    &&& forall|d: Dependant| #[trigger] f.solution.partial.contains_key(d) && settled_package(f.solution.partial[d]) is Some
        ==> children_marked(s, f.solution, settled_package(f.solution.partial[d]).unwrap())
    &&& forall|i: usize| #[trigger] f.solution.permanent.contains_key(i) && outcome_package(f.solution.permanent[i]) is Some
        ==> children_marked(s, f.solution, outcome_package(f.solution.permanent[i]).unwrap())
}

/// The current frame and every saved frame are closed over `roots`.
pub open spec fn closed(s: SolverView, roots: Set<Dependant>) -> bool {
    &&& frame_closed(s, s.current, roots)
    &&& forall|i: int| 0 <= i < s.frames.len() ==> frame_closed(s, #[trigger] s.frames[i], roots)
}

/// A closed frame stays closed as the tables grow.
proof fn lemma_frame_closed_ext(s1: SolverView, s2: SolverView, f: FrameView, roots: Set<Dependant>)
    requires
        ext(s1, s2),
        frame_closed(s1, f, roots),
    ensures
        frame_closed(s2, f, roots),
{
    assert forall|p: usize| children_marked(s1, f.solution, p) implies children_marked(s2, f.solution, p) by {
        assert(s2.analysis[p as int] == s1.analysis[p as int]);
    }
}

/// A closed solver stays closed as its tables grow, its frames staying as they are.
proof fn lemma_closed_ext(s1: SolverView, s2: SolverView, roots: Set<Dependant>)
    requires
        closed(s1, roots),
        ext(s1, s2),
        s2.frames == s1.frames,
        s2.current == s1.current,
    ensures
        closed(s2, roots),
{
    lemma_frame_closed_ext(s1, s2, s1.current, roots);
    assert forall|i: int| 0 <= i < s2.frames.len() implies frame_closed(s2, #[trigger] s2.frames[i], roots) by {
        lemma_frame_closed_ext(s1, s2, s1.frames[i], roots);
    }
}

/// The frame `next` after taking `d` off the working set of a closed frame: closed but for
/// `d` itself.
pub open spec fn closed_but(s: SolverView, next: FrameView, d: Dependant, roots: Set<Dependant>) -> bool {
    &&& forall|x: Dependant| #[trigger] next.solution.partial.contains_key(x) && next.solution.partial[x] is Temporary && x != d
        ==> next.working_set.contains(x)
    &&& forall|x: Dependant| #[trigger] roots.contains(x) && x != d ==> next.solution.partial.contains_key(x) || next.working_set.contains(x)
    &&& forall|x: Dependant| #[trigger] next.solution.partial.contains_key(x) && settled_package(next.solution.partial[x]) is Some
        ==> children_marked(s, next.solution, settled_package(next.solution.partial[x]).unwrap())
    &&& forall|i: usize| #[trigger] next.solution.permanent.contains_key(i) && outcome_package(next.solution.permanent[i]) is Some
        ==> children_marked(s, next.solution, outcome_package(next.solution.permanent[i]).unwrap())
}

/// The frame after taking `d` is closed but for `d`.
proof fn lemma_closed_but_ext(s1: SolverView, s2: SolverView, next: FrameView, d: Dependant, roots: Set<Dependant>)
    requires
        ext(s1, s2),
        closed_but(s1, next, d, roots),
    ensures
        closed_but(s2, next, d, roots),
{
    assert forall|p: usize| children_marked(s1, next.solution, p) implies children_marked(s2, next.solution, p) by {
        assert(s2.analysis[p as int] == s1.analysis[p as int]);
    }
}

/// Marking `d` permanently keeps the marks of every other dependant.
proof fn lemma_mark_perm_keeps(s: SolverView, sol: SolutionView, d: Dependant, o: Outcome)
    ensures
        spec_mark_perm(s, sol, d, o) matches Some((s2, sol2)) ==> {
            &&& sol2.partial == sol.partial.insert(d, Mark::Permanent(o))
            &&& forall|i: usize| #[trigger] sol2.permanent.contains_key(i) ==> sol.permanent.contains_key(i) && sol2.permanent[i] == sol.permanent[i] || sol2.permanent[i] == o
        },
{
}

/// Ending a step by marking `d` permanently closes the frame again, when a package that it
/// is settled with has all its dependencies marked.
proof fn lemma_finish_permanently_closed(s: SolverView, next: FrameView, d: Dependant, o: Outcome, roots: Set<Dependant>)
    requires
        closed(s, roots),
        closed_but(s, next, d, roots),
        outcome_package(o) is Some ==> children_marked(s, next.solution, outcome_package(o).unwrap()),
    ensures
        closed(spec_finish_permanently(s, next, d, o).0, roots),
{
    lemma_mark_perm_keeps(s, next.solution, d, o);
    match spec_mark_perm(s, next.solution, d, o) {
        None => {},
        Some((s2, sol2)) => {
            let s3 = with_current(s2, with_solution(next, sol2));
            assert(ext(s, s2)) by {
                if !spec_is_path_dependency(s, d) {
                    lemma_seq_intern(s.names, dep_of(s, d).name.unwrap());
                }
            }
            assert(ext(s2, s3));
            lemma_ext_trans(s, s2, s3);
            assert forall|i: int| 0 <= i < s3.frames.len() implies frame_closed(s3, #[trigger] s3.frames[i], roots) by {
                lemma_frame_closed_ext(s, s3, s.frames[i], roots);
            }
            assert forall|p: usize| children_marked(s, next.solution, p) implies children_marked(s3, sol2, p) by {
                assert(s3.analysis == s.analysis);
                let ds = s.analysis[p as int].unwrap().dependencies;
                assert forall|k: int| 0 <= k < ds.len() implies sol2.partial.contains_key((p, #[trigger] ds[k])) by {
                    assert(next.solution.partial.contains_key((p, ds[k])));
                }
            }
            assert forall|x: Dependant| #[trigger] sol2.partial.contains_key(x) && settled_package(sol2.partial[x]) is Some
                implies children_marked(s3, sol2, settled_package(sol2.partial[x]).unwrap()) by {
                if x != d {
                    assert(next.solution.partial.contains_key(x) && next.solution.partial[x] == sol2.partial[x]);
                }
            }
            assert forall|i: usize| #[trigger] sol2.permanent.contains_key(i) && outcome_package(sol2.permanent[i]) is Some
                implies children_marked(s3, sol2, outcome_package(sol2.permanent[i]).unwrap()) by {
                if sol2.permanent[i] != o {
                    assert(next.solution.permanent.contains_key(i) && next.solution.permanent[i] == sol2.permanent[i]);
                }
            }
            assert forall|x: Dependant| #[trigger] sol2.partial.contains_key(x) && sol2.partial[x] is Temporary
                implies s3.current.working_set.contains(x) by {
                assert(x != d);
                assert(next.solution.partial.contains_key(x) && next.solution.partial[x] == sol2.partial[x]);
            }
            assert forall|x: Dependant| #[trigger] roots.contains(x) implies sol2.partial.contains_key(x) || s3.current.working_set.contains(x) by {
                if x != d {
                    assert(next.solution.partial.contains_key(x) || next.working_set.contains(x));
                }
            }
        },
    }
}

/// Ending a step after an error, by backtracking or by marking `d` with the error, closes
/// the frame again.
proof fn lemma_finish_with_backtrack_closed(s: SolverView, next: FrameView, d: Dependant, name: Option<Seq<char>>, e: usize, roots: Set<Dependant>)
    requires
        closed(s, roots),
        crate::references::history_ok(s.history, bounds(s)),
        closed_but(s, next, d, roots),
    ensures
        closed(spec_finish_with_backtrack(s, next, d, name, e).0, roots),
{
    match name {
        None => {},
        Some(n) => match spec_try_backtrack(s, n, e) {
            Some((f, k)) => {
                crate::laws::lemma_chooser_index(s, n, s.history.len() as int);
                let h = s.history[k];
                assert(frame_closed(s, s.frames[h as int], roots));
            },
            None => {
                lemma_finish_permanently_closed(s, next, d, Outcome::Failed(e), roots);
            },
        },
    }
}


/// Checking the children of a package succeeds only when each of them has a mark.
proof fn lemma_scan_children_marked(errors: Seq<SpecError>, partial: Map<Dependant, Mark>, p: usize, children: Seq<usize>, d: Dependant)
    ensures
        spec_scan_children(errors, partial, p, children, d) is Some
            ==> forall|k: int| 0 <= k < children.len() ==> partial.contains_key((p, #[trigger] children[k])),
    decreases children.len(),
{
    if children.len() > 0 {
        let init = children.drop_last();
        lemma_scan_children_marked(errors, partial, p, init, d);
        if spec_scan_children(errors, partial, p, children, d) is Some {
            assert forall|k: int| 0 <= k < children.len() implies partial.contains_key((p, #[trigger] children[k])) by {
                if k < children.len() - 1 {
                    assert(init[k] == children[k]);
                }
            }
        }
    }
}

/// A frame whose solution and working set are those of a closed frame is closed.
proof fn lemma_frame_closed_same(s: SolverView, f: FrameView, g: FrameView, roots: Set<Dependant>)
    requires
        frame_closed(s, f, roots),
        g.solution == f.solution,
        g.working_set == f.working_set,
    ensures
        frame_closed(s, g, roots),
{
}

/// A closed solver stays closed when only its tables grow and its current frame keeps its
/// solution and working set.
proof fn lemma_closed_ext_current(s1: SolverView, s2: SolverView, roots: Set<Dependant>)
    requires
        closed(s1, roots),
        ext(s1, s2),
        s2.frames == s1.frames,
        s2.current.solution == s1.current.solution,
        s2.current.working_set == s1.current.working_set,
    ensures
        closed(s2, roots),
{
    lemma_frame_closed_ext(s1, s2, s1.current, roots);
    lemma_frame_closed_same(s2, s1.current, s2.current, roots);
    assert forall|i: int| 0 <= i < s2.frames.len() implies frame_closed(s2, #[trigger] s2.frames[i], roots) by {
        lemma_frame_closed_ext(s1, s2, s1.frames[i], roots);
    }
}

/// A dependant whose name is settled is settled or backtracked from keeping the solver closed.
proof fn lemma_case_settled_closed(s: SolverView, next: FrameView, d: Dependant, resp: Option<ResponseView>, roots: Set<Dependant>)
    requires
        closed(s, roots),
        crate::references::history_ok(s.history, bounds(s)),
        closed_but(s, next, d, roots),
        spec_get_permanent(s, next.solution, d) is Some,
    ensures
        closed(spec_case_settled(s, next, d, spec_get_permanent(s, next.solution, d).unwrap(), resp).0, roots),
{
    let o = spec_get_permanent(s, next.solution, d).unwrap();
    match o {
        Outcome::Failed(e) => {
            lemma_finish_permanently_closed(s, next, d, o, roots);
        },
        Outcome::Resolved(p) => {
            let i = seq_find(s.names, dep_of(s, d).name.unwrap()).unwrap() as usize;
            assert(next.solution.permanent.contains_key(i) && next.solution.permanent[i] == o);
            assert(children_marked(s, next.solution, p));
            lemma_fetch_sound(s, p, resp);
            match spec_fetch_analysis(s, p, resp) {
                AnalysisFetch::Stop(_) => {},
                AnalysisFetch::Ready { s: s2, analysis: a, resp: _ } => {
                    lemma_closed_ext(s, s2, roots);
                    lemma_closed_but_ext(s, s2, next, d, roots);
                    match spec_analysis_version(s2, a) {
                        Some(Some(v)) => match spec_version_matches(v, dep_of(s2, d).version) {
                            Ok(true) => {
                                lemma_finish_permanently_closed(s2, next, d, Outcome::Resolved(p), roots);
                            },
                            Ok(false) => {
                                let s3 = with_error(s2, SpecError::PackageVersionConflict);
                                assert(ext(s2, s3));
                                lemma_closed_ext(s2, s3, roots);
                                lemma_closed_but_ext(s2, s3, next, d, roots);
                                lemma_finish_with_backtrack_closed(s3, next, d, dep_of(s3, d).name, s2.errors.len() as usize, roots);
                            },
                            Err(m) => {
                                let s3 = with_error(s2, SpecError::Other(m));
                                assert(ext(s2, s3));
                                lemma_closed_ext(s2, s3, roots);
                                lemma_closed_but_ext(s2, s3, next, d, roots);
                                lemma_finish_permanently_closed(s3, next, d, Outcome::Failed(s2.errors.len() as usize), roots);
                            },
                        },
                        _ => {},
                    }
                },
            }
        },
    }
}

/// A dependant tentatively marked is settled or backtracked from keeping the solver closed:
/// it is settled only once every dependency of its package has a mark.
proof fn lemma_case_tentative_closed(s: SolverView, next: FrameView, d: Dependant, p: usize, resp: Option<ResponseView>, roots: Set<Dependant>)
    requires
        closed(s, roots),
        crate::references::history_ok(s.history, bounds(s)),
        closed_but(s, next, d, roots),
    ensures
        closed(spec_case_tentative(s, next, d, p, resp).0, roots),
{
    lemma_fetch_sound(s, p, resp);
    match spec_fetch_analysis(s, p, resp) {
        AnalysisFetch::Stop(_) => {},
        AnalysisFetch::Ready { s: s2, analysis: a, resp: _ } => {
            lemma_closed_ext(s, s2, roots);
            lemma_closed_but_ext(s, s2, next, d, roots);
            lemma_scan_children_marked(s2.errors, next.solution.partial, p, a.dependencies, d);
            match spec_scan_children(s2.errors, next.solution.partial, p, a.dependencies, d) {
                None => {},
                Some((errors, erroneous)) => {
                    let s3 = SolverView { errors, ..s2 };
                    assert(ext(s2, s3));
                    lemma_closed_ext(s2, s3, roots);
                    lemma_closed_but_ext(s2, s3, next, d, roots);
                    if erroneous.len() == 0 {
                        assert(children_marked(s3, next.solution, p));
                        lemma_finish_permanently_closed(s3, next, d, Outcome::Resolved(p), roots);
                    } else {
                        match spec_analysis_version(s3, a) {
                            Some(Some(v)) => {
                                let e = s3.errors.len() as usize;
                                let err = SpecError::Backtrack { package: p, previous_version: v, erroneous_dependencies: erroneous };
                                let s4 = with_error(s3, err);
                                assert(ext(s3, s4));
                                lemma_closed_ext(s3, s4, roots);
                                lemma_closed_but_ext(s3, s4, next, d, roots);
                                lemma_finish_with_backtrack_closed(s4, next, d, dep_of(s4, d).name, e, roots);
                            },
                            _ => {},
                        }
                    }
                },
            }
        },
    }
}

/// Committing a choice keeps the solver closed: the dependant is marked tentatively and put
/// back on the working set, below the dependencies of its package.
proof fn lemma_commit_closed(s: SolverView, next: FrameView, d: Dependant, p: usize, pop: bool, a: AnalysisView, roots: Set<Dependant>)
    requires
        closed(s, roots),
        closed_but(s, next, d, roots),
    ensures
        closed(spec_commit_choice(s, next, d, p, pop, a), roots),
{
    let s4 = spec_commit_choice(s, next, d, p, pop, a);
    let saved = if pop {
        FrameView { remaining_versions: Some(s.current.remaining_versions.unwrap().drop_last()), ..s.current }
    } else {
        s.current
    };
    assert(s4.frames == s.frames.push(saved));
    assert(ext(s, s4));
    lemma_frame_closed_same(s, s.current, saved, roots);
    lemma_frame_closed_ext(s, s4, saved, roots);
    assert forall|i: int| 0 <= i < s4.frames.len() implies frame_closed(s4, #[trigger] s4.frames[i], roots) by {
        if i < s.frames.len() {
            lemma_frame_closed_ext(s, s4, s.frames[i], roots);
        }
    }
    lemma_closed_but_ext(s, s4, next, d, roots);
    let sol = s4.current.solution;
    let ws = s4.current.working_set;
    assert(sol.partial == next.solution.partial.insert(d, Mark::Temporary(p)));
    assert(ws == next.working_set.push(d) + crate::model::children_dependants(p, a.dependencies));
    assert forall|x: Dependant| next.working_set.contains(x) implies ws.contains(x) by {
        let k = choose|k: int| 0 <= k < next.working_set.len() && next.working_set[k] == x;
        assert(ws[k] == x);
    }
    assert(ws[next.working_set.len() as int] == d);
    assert forall|q: usize| children_marked(s4, next.solution, q) implies children_marked(s4, sol, q) by {
        let ds = s4.analysis[q as int].unwrap().dependencies;
        assert forall|k: int| 0 <= k < ds.len() implies sol.partial.contains_key((q, #[trigger] ds[k])) by {
            assert(next.solution.partial.contains_key((q, ds[k])));
        }
    }
    assert forall|x: Dependant| #[trigger] sol.partial.contains_key(x) && settled_package(sol.partial[x]) is Some
        implies children_marked(s4, sol, settled_package(sol.partial[x]).unwrap()) by {
        assert(x != d);
        assert(next.solution.partial.contains_key(x) && next.solution.partial[x] == sol.partial[x]);
    }
    assert forall|i: usize| #[trigger] sol.permanent.contains_key(i) && outcome_package(sol.permanent[i]) is Some
        implies children_marked(s4, sol, outcome_package(sol.permanent[i]).unwrap()) by {
        assert(next.solution.permanent.contains_key(i));
    }
    assert forall|x: Dependant| #[trigger] sol.partial.contains_key(x) && sol.partial[x] is Temporary implies ws.contains(x) by {
        if x != d {
            assert(next.solution.partial.contains_key(x) && next.solution.partial[x] == sol.partial[x]);
        }
    }
    assert forall|x: Dependant| #[trigger] roots.contains(x) implies sol.partial.contains_key(x) || ws.contains(x) by {
        if x != d {
            assert(next.solution.partial.contains_key(x) || next.working_set.contains(x));
        }
    }
}


/// A dependant with no mark and no settled outcome gets a choice or an error, keeping the
/// solver closed.
proof fn lemma_case_new_closed(s: SolverView, next: FrameView, d: Dependant, resp: Option<ResponseView>, roots: Set<Dependant>)
    requires
        closed(s, roots),
        crate::references::history_ok(s.history, bounds(s)),
        closed_but(s, next, d, roots),
    ensures
        closed(spec_case_new(s, next, d, resp).0, roots),
{
    match dep_of(s, d).name {
        None => {},
        Some(name) => {
            match spec_stage_versions(s, d, name, resp) {
                VersionsStage::Stop(_) => {},
                VersionsStage::Failed(m) => {
                    let s3 = with_error(s, SpecError::Other(m));
                    assert(ext(s, s3));
                    lemma_closed_ext(s, s3, roots);
                    lemma_closed_but_ext(s, s3, next, d, roots);
                    lemma_finish_permanently_closed(s3, next, d, Outcome::Failed(s.errors.len() as usize), roots);
                },
                VersionsStage::Ready { s: s1, resp: resp1 } => {
                    if s.current.remaining_versions is None {
                        match resp {
                            Some(ResponseView::Versions(Ok(vs))) => {
                                let filtered = vs.filter(|v: Seq<char>| spec_accepts(v, dep_of(s, d).version));
                                crate::solve::lemma_intern_all_grows(s.versions, filtered);
                            },
                            _ => {},
                        }
                    }
                    assert(ext(s, s1));
                    lemma_closed_ext_current(s, s1, roots);
                    lemma_closed_but_ext(s, s1, next, d, roots);
                    lemma_try_resolve_sound(s1, d, name, resp1);
                    match spec_try_resolve(s1, d, name, resp1) {
                        Resolution::Stop(_) => {},
                        Resolution::Skip { s: s2 } => {
                            lemma_closed_ext_current(s1, s2, roots);
                        },
                        Resolution::Failed { s: s2, error } => {
                            match (error, s2.current.last_error) {
                                (SpecError::PackageVersionConflict, Some(le)) => {
                                    lemma_finish_permanently_closed(s2, next, d, Outcome::Failed(le), roots);
                                },
                                _ => {
                                    let s3 = with_error(s2, error);
                                    assert(ext(s2, s3));
                                    lemma_closed_ext(s2, s3, roots);
                                    lemma_closed_but_ext(s2, s3, next, d, roots);
                                    lemma_finish_permanently_closed(s3, next, d, Outcome::Failed(s2.errors.len() as usize), roots);
                                },
                            }
                        },
                        Resolution::Found { s: s2, package: p, pop, resp: resp2 } => {
                            lemma_closed_ext(s1, s2, roots);
                            lemma_closed_but_ext(s1, s2, next, d, roots);
                            lemma_fetch_sound(s2, p, resp2);
                            match spec_fetch_analysis(s2, p, resp2) {
                                AnalysisFetch::Stop(_) => {},
                                AnalysisFetch::Ready { s: s3, analysis: a, resp: _ } => {
                                    lemma_closed_ext(s2, s3, roots);
                                    lemma_closed_but_ext(s2, s3, next, d, roots);
                                    lemma_commit_closed(s3, next, d, p, pop, a, roots);
                                },
                            }
                        },
                    }
                },
            }
        },
    }
}

/// Each step of the search keeps the solver closed over the dependants `roots`: a dependant
/// tentatively marked is still to be taken; each root is marked or still to be taken; and a
/// package settled for a dependant or a name has every dependency marked.
pub proof fn law_step_keeps_closure(s: SolverView, resp: Option<ResponseView>, roots: Set<Dependant>)
    requires
        refs_valid(s),
        closed(s, roots),
    ensures
        closed(spec_step(s, resp).0, roots),
{
    match spec_next_dependant(s.current) {
        None => {},
        Some((working_set, d)) => {
            if d.0 < s.packages.len() && d.1 < s.dependencies.len() {
                let next = FrameView { solution: s.current.solution, working_set, remaining_versions: None, last_error: None };
                let ws = s.current.working_set;
                assert(ws == working_set.push(d));
                assert forall|x: Dependant| ws.contains(x) && x != d implies working_set.contains(x) by {
                    let k = choose|k: int| 0 <= k < ws.len() && ws[k] == x;
                    assert(k < working_set.len());
                    assert(working_set[k] == x);
                }
                assert(closed_but(s, next, d, roots));
                let solution = s.current.solution;
                if solution.partial.contains_key(d) {
                    match solution.partial[d] {
                        Mark::Permanent(_) => {
                            assert forall|x: Dependant| #[trigger] roots.contains(x) implies solution.partial.contains_key(x) || working_set.contains(x) by {
                            }
                        },
                        Mark::Temporary(p) => {
                            lemma_case_tentative_closed(s, next, d, p, resp, roots);
                        },
                    }
                } else {
                    match spec_get_permanent(s, solution, d) {
                        Some(o) => {
                            lemma_case_settled_closed(s, next, d, resp, roots);
                        },
                        None => {
                            lemma_case_new_closed(s, next, d, resp, roots);
                        },
                    }
                }
            }
        },
    }
}

/// A fresh frame is closed over the dependants of its working set.
pub proof fn law_fresh_is_closed(s: SolverView)
    requires
        s.frames.len() == 0,
        s.current.solution.partial.dom().is_empty(),
        s.current.solution.permanent.dom().is_empty(),
    ensures
        closed(s, s.current.working_set.to_set()),
{
    assert forall|d: Dependant| #[trigger] s.current.solution.partial.contains_key(d) && s.current.solution.partial[d] is Temporary
        implies s.current.working_set.contains(d) by {
        assert(s.current.solution.partial.dom().contains(d));
    }
    assert forall|d: Dependant| #[trigger] s.current.solution.partial.contains_key(d) && settled_package(s.current.solution.partial[d]) is Some
        implies children_marked(s, s.current.solution, settled_package(s.current.solution.partial[d]).unwrap()) by {
        assert(s.current.solution.partial.dom().contains(d));
    }
    assert forall|i: usize| #[trigger] s.current.solution.permanent.contains_key(i) && outcome_package(s.current.solution.permanent[i]) is Some
        implies children_marked(s, s.current.solution, outcome_package(s.current.solution.permanent[i]).unwrap()) by {
        assert(s.current.solution.permanent.dom().contains(i));
    }
}

/// When the search is done, the solution is closed: no dependant is left tentatively marked,
/// every root is marked, and every package settled for a dependant has every dependency
/// marked, so that a lock can be made of it without meeting a missing mark.
pub proof fn law_done_is_closed(s: SolverView, roots: Set<Dependant>)
    requires
        closed(s, roots),
        spec_next_dependant(s.current) is None,
    ensures
        forall|d: Dependant| #[trigger] s.current.solution.partial.contains_key(d) ==> !(s.current.solution.partial[d] is Temporary),
        forall|d: Dependant| #[trigger] roots.contains(d) ==> s.current.solution.partial.contains_key(d),
        forall|d: Dependant| #[trigger] s.current.solution.partial.contains_key(d) && settled_package(s.current.solution.partial[d]) is Some
            ==> children_marked(s, s.current.solution, settled_package(s.current.solution.partial[d]).unwrap()),
{
    assert(s.current.working_set.len() == 0);
}


/// Ending a step by marking `d` permanently only adds to the tables.
proof fn lemma_finish_permanently_extends(s: SolverView, next: FrameView, d: Dependant, o: Outcome)
    ensures
        ext(s, spec_finish_permanently(s, next, d, o).0),
{
    lemma_ext_refl(s);
    match spec_mark_perm(s, next.solution, d, o) {
        None => {},
        Some((s2, sol2)) => {
            if !spec_is_path_dependency(s, d) {
                lemma_seq_intern(s.names, dep_of(s, d).name.unwrap());
            }
            assert(ext(s, s2));
            let s3 = with_current(s2, with_solution(next, sol2));
            assert(ext(s2, s3));
            lemma_ext_trans(s, s2, s3);
        },
    }
}

/// Ending a step by backtracking, or else by marking `d`, only adds to the tables.
proof fn lemma_finish_with_backtrack_extends(s: SolverView, next: FrameView, d: Dependant, name: Option<Seq<char>>, e: usize)
    ensures
        ext(s, spec_finish_with_backtrack(s, next, d, name, e).0),
{
    lemma_ext_refl(s);
    match name {
        None => {},
        Some(n) => match spec_try_backtrack(s, n, e) {
            Some((f, k)) => {
                assert(ext(s, SolverView { history: s.history.take(k), ..with_current(s, f) }));
            },
            None => {
                lemma_finish_permanently_extends(s, next, d, Outcome::Failed(e));
            },
        },
    }
}

/// Every solver extends itself.
proof fn lemma_ext_refl(s: SolverView)
    ensures
        ext(s, s),
{
}

/// Storing an error and then ending the step by backtracking only adds to the tables.
proof fn lemma_error_then_backtrack_extends(s: SolverView, error: SpecError, next: FrameView, d: Dependant, e: usize)
    ensures
        ext(s, spec_finish_with_backtrack(with_error(s, error), next, d, dep_of(with_error(s, error), d).name, e).0),
{
    let s2 = with_error(s, error);
    assert(ext(s, s2));
    lemma_finish_with_backtrack_extends(s2, next, d, dep_of(s2, d).name, e);
    lemma_ext_trans(s, s2, spec_finish_with_backtrack(s2, next, d, dep_of(s2, d).name, e).0);
}

/// Storing an error and then marking `d` with it only adds to the tables.
proof fn lemma_error_then_finish_extends(s: SolverView, error: SpecError, next: FrameView, d: Dependant, o: Outcome)
    ensures
        ext(s, spec_finish_permanently(with_error(s, error), next, d, o).0),
{
    let s2 = with_error(s, error);
    assert(ext(s, s2));
    lemma_finish_permanently_extends(s2, next, d, o);
    lemma_ext_trans(s, s2, spec_finish_permanently(s2, next, d, o).0);
}

/// Settling a dependant whose name has an outcome only adds to the tables.
proof fn lemma_case_settled_extends(s: SolverView, next: FrameView, d: Dependant, o: Outcome, resp: Option<ResponseView>)
    ensures
        ext(s, spec_case_settled(s, next, d, o, resp).0),
{
    lemma_ext_refl(s);
    match o {
        Outcome::Failed(e) => {
            lemma_finish_permanently_extends(s, next, d, Outcome::Failed(e));
        },
        Outcome::Resolved(p) => {
            lemma_fetch_sound(s, p, resp);
            match spec_fetch_analysis(s, p, resp) {
                AnalysisFetch::Stop(_) => {},
                AnalysisFetch::Ready { s: s2, analysis: a, resp: _ } => {
                    match spec_analysis_version(s2, a) {
                        Some(Some(v)) => match spec_version_matches(v, dep_of(s2, d).version) {
                            Ok(true) => {
                                lemma_finish_permanently_extends(s2, next, d, Outcome::Resolved(p));
                                lemma_ext_trans(s, s2, spec_case_settled(s, next, d, o, resp).0);
                            },
                            Ok(false) => {
                                lemma_error_then_backtrack_extends(s2, SpecError::PackageVersionConflict, next, d, s2.errors.len() as usize);
                                lemma_ext_trans(s, s2, spec_case_settled(s, next, d, o, resp).0);
                            },
                            Err(m) => {
                                lemma_error_then_finish_extends(s2, SpecError::Other(m), next, d, Outcome::Failed(s2.errors.len() as usize));
                                lemma_ext_trans(s, s2, spec_case_settled(s, next, d, o, resp).0);
                            },
                        },
                        _ => {},
                    }
                },
            }
        },
    }
}

/// Taking a tentatively marked dependant again only adds to the tables.
proof fn lemma_case_tentative_extends(s: SolverView, next: FrameView, d: Dependant, p: usize, resp: Option<ResponseView>)
    ensures
        ext(s, spec_case_tentative(s, next, d, p, resp).0),
{
    lemma_ext_refl(s);
    lemma_fetch_sound(s, p, resp);
    match spec_fetch_analysis(s, p, resp) {
        AnalysisFetch::Stop(_) => {},
        AnalysisFetch::Ready { s: s2, analysis: a, resp: _ } => {
            match spec_scan_children(s2.errors, next.solution.partial, p, a.dependencies, d) {
                None => {},
                Some((errors, erroneous)) => {
                    let s3 = SolverView { errors, ..s2 };
                    assert(ext(s2, s3));
                    lemma_ext_trans(s, s2, s3);
                    if erroneous.len() == 0 {
                        lemma_finish_permanently_extends(s3, next, d, Outcome::Resolved(p));
                        lemma_ext_trans(s, s3, spec_case_tentative(s, next, d, p, resp).0);
                    } else {
                        match spec_analysis_version(s3, a) {
                            Some(Some(v)) => {
                                lemma_error_then_backtrack_extends(
                                    s3,
                                    SpecError::Backtrack { package: p, previous_version: v, erroneous_dependencies: erroneous },
                                    next,
                                    d,
                                    s3.errors.len() as usize,
                                );
                                lemma_ext_trans(s, s3, spec_case_tentative(s, next, d, p, resp).0);
                            },
                            _ => {},
                        }
                    }
                },
            }
        },
    }
}

/// Choosing a package for a new dependant only adds to the tables.
proof fn lemma_case_new_extends(s: SolverView, next: FrameView, d: Dependant, resp: Option<ResponseView>)
    ensures
        ext(s, spec_case_new(s, next, d, resp).0),
{
    lemma_ext_refl(s);
    match dep_of(s, d).name {
        None => {},
        Some(name) => {
            if s.current.remaining_versions is None {
                match resp {
                    Some(ResponseView::Versions(Ok(vs))) => {
                        let filtered = vs.filter(|v: Seq<char>| spec_accepts(v, dep_of(s, d).version));
                        crate::solve::lemma_intern_all_grows(s.versions, filtered);
                    },
                    _ => {},
                }
            }
            match spec_stage_versions(s, d, name, resp) {
                VersionsStage::Stop(_) => {},
                VersionsStage::Failed(m) => {
                    lemma_error_then_finish_extends(s, SpecError::Other(m), next, d, Outcome::Failed(s.errors.len() as usize));
                },
                VersionsStage::Ready { s: s1, resp: resp1 } => {
                    assert(ext(s, s1));
                    assert(s1.current.remaining_versions is Some);
                    lemma_try_resolve_sound(s1, d, name, resp1);
                    match spec_try_resolve(s1, d, name, resp1) {
                        Resolution::Stop(_) => {},
                        Resolution::Skip { s: s2 } => {
                            assert(ext(s1, s2));
                            lemma_ext_trans(s, s1, s2);
                        },
                        Resolution::Failed { s: s2, error } => {
                            match (error, s2.current.last_error) {
                                (SpecError::PackageVersionConflict, Some(le)) => {
                                    lemma_finish_permanently_extends(s2, next, d, Outcome::Failed(le));
                                },
                                _ => {
                                    lemma_error_then_finish_extends(s2, error, next, d, Outcome::Failed(s2.errors.len() as usize));
                                },
                            }
                            lemma_ext_trans(s, s1, spec_case_new(s, next, d, resp).0);
                        },
                        Resolution::Found { s: s2, package, pop, resp: resp2 } => {
                            lemma_ext_trans(s, s1, s2);
                            lemma_fetch_sound(s2, package, resp2);
                            match spec_fetch_analysis(s2, package, resp2) {
                                AnalysisFetch::Stop(_) => {},
                                AnalysisFetch::Ready { s: s3, analysis, resp: _ } => {
                                    lemma_ext_trans(s, s2, s3);
                                    let s4 = spec_commit_choice(s3, next, d, package, pop, analysis);
                                    assert(ext(s3, s4));
                                    lemma_ext_trans(s, s3, s4);
                                },
                            }
                        },
                    }
                },
            }
        },
    }
}

/// Each step of the search only adds to the solver's tables: the packages, names, versions,
/// dependencies, metadata and path tables it knows keep their entries, a cached analysis
/// stays as it is, and the saved frames stay as they are.
pub proof fn law_step_extends(s: SolverView, resp: Option<ResponseView>)
    ensures
        ext(s, spec_step(s, resp).0),
{
    lemma_ext_refl(s);
    match spec_next_dependant(s.current) {
        None => {},
        Some((working_set, d)) => {
            if d.0 < s.packages.len() && d.1 < s.dependencies.len() {
                let next = FrameView { solution: s.current.solution, working_set, remaining_versions: None, last_error: None };
                let solution = s.current.solution;
                if solution.partial.contains_key(d) {
                    match solution.partial[d] {
                        Mark::Permanent(_) => {
                            assert(ext(s, with_current(s, next)));
                        },
                        Mark::Temporary(p) => {
                            lemma_case_tentative_extends(s, next, d, p, resp);
                        },
                    }
                } else {
                    match spec_get_permanent(s, solution, d) {
                        Some(o) => {
                            lemma_case_settled_extends(s, next, d, o, resp);
                        },
                        None => {
                            lemma_case_new_extends(s, next, d, resp);
                        },
                    }
                }
            }
        },
    }
}


/// `s2` keeps the packages and dependencies of `s1` at their indices, and no package or
/// dependency twice where `s1` has none twice.
pub open spec fn tables_kept(s1: SolverView, s2: SolverView) -> bool {
    &&& extends(s1.packages, s2.packages)
    &&& extends(s1.dependencies, s2.dependencies)
    &&& distinct(s1.packages) ==> distinct(s2.packages)
    &&& distinct(s1.dependencies) ==> distinct(s2.dependencies)
}

/// Keeping the tables is transitive.
proof fn lemma_tables_kept_trans(s1: SolverView, s2: SolverView, s3: SolverView)
    requires
        tables_kept(s1, s2),
        tables_kept(s2, s3),
    ensures
        tables_kept(s1, s3),
{
    assert forall|i: int| 0 <= i < s1.packages.len() implies #[trigger] s3.packages[i] == s1.packages[i] by {
        assert(s2.packages[i] == s1.packages[i]);
    }
    assert forall|i: int| 0 <= i < s1.dependencies.len() implies #[trigger] s3.dependencies[i] == s1.dependencies[i] by {
        assert(s2.dependencies[i] == s1.dependencies[i]);
    }
}

/// Interning keeps a table without repeats without repeats.
pub proof fn lemma_intern_distinct<T>(t: Seq<T>, x: T)
    requires
        distinct(t),
    ensures
        distinct(seq_intern(t, x)),
{
    lemma_seq_intern(t, x);
    if !t.contains(x) {
        let u = seq_intern(t, x);
        assert forall|i: int, j: int| 0 <= i < u.len() && 0 <= j < u.len() && i != j implies u[i] != u[j] by {
            if i == t.len() && j < t.len() {
                assert(u[j] == t[j]);
                assert(t.contains(t[j]));
            }
            if j == t.len() && i < t.len() {
                assert(u[i] == t[i]);
                assert(t.contains(t[i]));
            }
            if i < t.len() && j < t.len() {
                assert(u[i] == t[i] && u[j] == t[j]);
            }
        }
    }
}

/// Interning several values keeps a table without repeats without repeats.
pub proof fn lemma_intern_all_distinct<T>(t: Seq<T>, xs: Seq<T>)
    requires
        distinct(t),
    ensures
        distinct(spec_intern_all(t, xs).0),
    decreases xs.len(),
{
    if xs.len() > 0 {
        lemma_intern_all_distinct(t, xs.drop_last());
        lemma_intern_distinct(spec_intern_all(t, xs.drop_last()).0, xs.last());
    }
}

/// Getting an analysis keeps the tables.
proof fn lemma_fetch_keeps_tables(s: SolverView, p: usize, resp: Option<ResponseView>)
    ensures
        spec_fetch_analysis(s, p, resp) matches AnalysisFetch::Ready { s: s2, analysis: _, resp: _ } ==> tables_kept(s, s2),
{
    if p < s.packages.len() && p < s.analysis.len() && s.analysis[p as int] is None {
        match resp {
            Some(ResponseView::Analysis(Ok((m, deps)))) => {
                let kept = deps.filter(|x: SpecDependency| crate::model::spec_analysis_keeps(s, p, x));
                crate::solve::lemma_intern_all_grows(s.dependencies, kept);
                if distinct(s.dependencies) {
                    lemma_intern_all_distinct(s.dependencies, kept);
                }
            },
            _ => {},
        }
    }
}

/// Choosing a package keeps the tables.
proof fn lemma_try_resolve_keeps_tables(s: SolverView, d: Dependant, name: Seq<char>, resp: Option<ResponseView>)
    ensures
        match spec_try_resolve(s, d, name, resp) {
            Resolution::Found { s: s2, package: _, pop: _, resp: _ } => tables_kept(s, s2),
            Resolution::Failed { s: s2, error: _ } => tables_kept(s, s2),
            Resolution::Skip { s: s2 } => tables_kept(s, s2),
            Resolution::Stop(_) => true,
        },
{
    if !spec_is_path_dependency(s, d) {
        let rem = s.current.remaining_versions.unwrap();
        if rem.len() > 0 && rem.last() < s.versions.len() {
            let key = registry_key(name, s.versions[rem.last() as int]);
            match spec_published(s, key) {
                Some(_) => {},
                None => match resp {
                    Some(ResponseView::Package(Ok(Some(id)))) => {
                        lemma_seq_intern(s.packages, id);
                        if distinct(s.packages) {
                            lemma_intern_distinct(s.packages, id);
                        }
                    },
                    _ => {},
                },
            }
        }
    }
}

/// Each step of the search keeps the packages and dependencies the solver knows at their
/// indices, and adds none twice.
pub proof fn law_step_keeps_tables(s: SolverView, resp: Option<ResponseView>)
    ensures
        tables_kept(s, spec_step(s, resp).0),
{
    match spec_next_dependant(s.current) {
        None => {},
        Some((working_set, d)) => {
            if d.0 < s.packages.len() && d.1 < s.dependencies.len() {
                let next = FrameView { solution: s.current.solution, working_set, remaining_versions: None, last_error: None };
                let solution = s.current.solution;
                if solution.partial.contains_key(d) {
                    match solution.partial[d] {
                        Mark::Permanent(_) => {},
                        Mark::Temporary(p) => {
                            lemma_fetch_keeps_tables(s, p, resp);
                        },
                    }
                } else {
                    match spec_get_permanent(s, solution, d) {
                        Some(o) => {
                            match o {
                                Outcome::Resolved(p) => {
                                    lemma_fetch_keeps_tables(s, p, resp);
                                },
                                _ => {},
                            }
                        },
                        None => {
                            match dep_of(s, d).name {
                                None => {},
                                Some(name) => {
                                    match spec_stage_versions(s, d, name, resp) {
                                        VersionsStage::Ready { s: s1, resp: resp1 } => {
                                            assert(tables_kept(s, s1));
                                            lemma_try_resolve_keeps_tables(s1, d, name, resp1);
                                            match spec_try_resolve(s1, d, name, resp1) {
                                                Resolution::Found { s: s2, package, pop: _, resp: resp2 } => {
                                                    lemma_tables_kept_trans(s, s1, s2);
                                                    lemma_fetch_keeps_tables(s2, package, resp2);
                                                    match spec_fetch_analysis(s2, package, resp2) {
                                                        AnalysisFetch::Ready { s: s3, analysis: _, resp: _ } => {
                                                            lemma_tables_kept_trans(s, s2, s3);
                                                        },
                                                        _ => {},
                                                    }
                                                },
                                                Resolution::Failed { s: s2, error: _ } => {
                                                    lemma_tables_kept_trans(s, s1, s2);
                                                },
                                                Resolution::Skip { s: s2 } => {
                                                    lemma_tables_kept_trans(s, s1, s2);
                                                },
                                                _ => {},
                                            }
                                        },
                                        _ => {},
                                    }
                                },
                            }
                        },
                    }
                }
            }
        },
    }
}

} // verus!
