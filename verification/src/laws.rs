//! Properties of version solving and lockfiles that relate several operations.

use vstd::prelude::*;
use crate::dependency::{SpecDependency, seq_find, seq_intern, lemma_seq_find, lemma_seq_intern, distinct};
use crate::lockfile::EntryView;
use crate::dependency::Dependency;
use crate::reading::{spec_fits, spec_fits_edges, edges_among_dependencies};
use crate::scan::PackageTree;
use crate::model::spec_path_lookup;
use crate::locking::{LockError, spec_lock, spec_lock_deps, spec_lock_roots, spec_resolve_entry};
use crate::model::{
    ActionView, AnalysisView, ResponseView, SolverView, spec_step, spec_commit_choice, dep_of, frame_chose, spec_chooser_index, spec_get_permanent, spec_is_path_dependency,
    spec_mark_perm, spec_try_backtrack, spec_finish_with_backtrack, spec_finish_permanently,
};
use crate::solution::{Dependant, FrameView, Mark, Outcome, SolutionView};

verus! {

/// Settling a dependant settles its package name: once a dependant that is no path
/// dependency is marked permanently with an outcome, it carries that mark, and every
/// dependant that is no path dependency and depends on a package of the same name finds
/// that outcome as the settled one. A path dependency never finds a settled outcome.
pub proof fn law_mark_then_get_permanent(s: SolverView, solution: SolutionView, d: Dependant, o: Outcome, d2: Dependant)
    requires
        spec_mark_perm(s, solution, d, o) is Some,
    ensures
        ({
            let (s2, solution2) = spec_mark_perm(s, solution, d, o).unwrap();
            &&& solution2.partial.contains_key(d)
            &&& solution2.partial[d] == Mark::Permanent(o)
            &&& (!spec_is_path_dependency(s, d) && !spec_is_path_dependency(s2, d2) && dep_of(s2, d2).name == dep_of(s, d).name)
                ==> spec_get_permanent(s2, solution2, d2) == Some(o)
            &&& spec_is_path_dependency(s2, d2) ==> spec_get_permanent(s2, solution2, d2) is None
        }),
{
    if !spec_is_path_dependency(s, d) {
        let n = dep_of(s, d).name.unwrap();
        lemma_seq_intern(s.names, n);
        lemma_seq_find(seq_intern(s.names, n), n);
    }
}

/// Marking a dependant leaves the marks of every other dependant as they were.
pub proof fn law_mark_keeps_other_marks(s: SolverView, solution: SolutionView, d: Dependant, o: Outcome, d2: Dependant)
    requires
        spec_mark_perm(s, solution, d, o) is Some,
        d2 != d,
    ensures
        spec_mark_perm(s, solution, d, o).unwrap().1.partial.contains_key(d2) == solution.partial.contains_key(d2),
        solution.partial.contains_key(d2) ==> spec_mark_perm(s, solution, d, o).unwrap().1.partial[d2] == solution.partial[d2],
{
}

/// The position found by the backtracking search is the newest saved frame before `j`, in
/// the order of the history, that chose a package for the name.
pub proof fn lemma_chooser_index(s: SolverView, name: Seq<char>, j: int)
    requires
        0 <= j <= s.history.len(),
    ensures
        -1 <= spec_chooser_index(s, name, j) < j,
        spec_chooser_index(s, name, j) >= 0 ==> frame_chose(s, s.history[spec_chooser_index(s, name, j)], name),
        forall|k: int| spec_chooser_index(s, name, j) < k < j ==> !frame_chose(s, #[trigger] s.history[k], name),
    decreases j,
{
    if j > 0 && !frame_chose(s, s.history[j - 1], name) {
        lemma_chooser_index(s, name, j - 1);
    }
}

/// Backtracking for a package name returns to the newest saved frame in which a package was
/// chosen for that name, with the error that caused it as the frame's last error, and drops
/// the frames saved after it from the history; when no saved frame chose a package for the
/// name, there is nothing to return to and the dependant is marked with the error.
pub proof fn law_backtrack_to_chooser(s: SolverView, next: FrameView, d: Dependant, name: Seq<char>, error: usize)
    ensures
        match spec_try_backtrack(s, name, error) {
            Some((f, k)) => {
                &&& 0 <= k < s.history.len()
                &&& frame_chose(s, s.history[k], name)
                &&& f == (FrameView { last_error: Some(error), ..s.frames[s.history[k] as int] })
                &&& forall|j: int| k < j < s.history.len() ==> !frame_chose(s, #[trigger] s.history[j], name)
                &&& spec_finish_with_backtrack(s, next, d, Some(name), error)
                    == (SolverView { history: s.history.take(k), current: f, ..s }, ActionView::Continue)
            },
            None => {
                &&& forall|j: int| 0 <= j < s.history.len() ==> !frame_chose(s, #[trigger] s.history[j], name)
                &&& spec_finish_with_backtrack(s, next, d, Some(name), error) == spec_finish_permanently(s, next, d, Outcome::Failed(error))
            },
        },
{
    lemma_chooser_index(s, name, s.history.len() as int);
}

/// Every entry of every lock refers to a lock of the list.
pub open spec fn locks_closed(locks: Seq<Map<SpecDependency, EntryView>>) -> bool {
    forall|i: int, k: SpecDependency| 0 <= i < locks.len() && #[trigger] locks[i].contains_key(k) ==> locks[i][k].lock < locks.len()
}

/// Every entry of the map refers to a lock of the list.
pub open spec fn entries_below(m: Map<SpecDependency, EntryView>, n: nat) -> bool {
    forall|k: SpecDependency| #[trigger] m.contains_key(k) ==> m[k].lock < n
}

/// `b` extends `a`.
pub open spec fn extends<T>(a: Seq<T>, b: Seq<T>) -> bool {
    a.len() <= b.len() && forall|i: int| 0 <= i < a.len() ==> #[trigger] b[i] == a[i]
}

/// Adding a lock whose entries refer to locks of the list keeps the list distinct and
/// closed, and its index is in range.
proof fn lemma_intern_lock(locks: Seq<Map<SpecDependency, EntryView>>, m: Map<SpecDependency, EntryView>)
    requires
        distinct(locks),
        entries_below(m, locks.len()),
    ensures
        distinct(seq_intern(locks, m)),
        locks_closed(locks) ==> locks_closed(seq_intern(locks, m)),
        extends(locks, seq_intern(locks, m)),
        seq_find(seq_intern(locks, m), m) is Some,
        0 <= seq_find(seq_intern(locks, m), m).unwrap() < seq_intern(locks, m).len(),
{
    lemma_seq_intern(locks, m);
    lemma_seq_find(seq_intern(locks, m), m);
    let l2 = seq_intern(locks, m);
    if !locks.contains(m) {
        assert forall|i: int, j: int| 0 <= i < l2.len() && 0 <= j < l2.len() && i != j implies l2[i] != l2[j] by {
            if i == locks.len() && j < locks.len() {
                assert(locks[j] == l2[j]);
            }
            if j == locks.len() && i < locks.len() {
                assert(locks[i] == l2[i]);
            }
        }
        if locks_closed(locks) {
            assert forall|i: int, k: SpecDependency| 0 <= i < l2.len() && #[trigger] l2[i].contains_key(k) implies l2[i][k].lock < l2.len() by {
                if i < locks.len() {
                    assert(l2[i] == locks[i]);
                }
            }
        }
    }
}

/// Creating the lock of a package, on a list of locks that holds no lock twice, keeps the
/// old list as a prefix and holds no lock twice either (and when every entry of the old list
/// refers to a lock of the list, so does every entry of the new one): the
/// locks of the package's dependencies are added first, and then the package's own lock is
/// added at the end, unless an equal lock is already in the list, which is then reused; the
/// index given is that of a lock equal to the package's.
pub proof fn law_lock_extends(s: SolverView, p: usize, locks: Seq<Map<SpecDependency, EntryView>>, fuel: nat)
    requires
        distinct(locks),
    ensures
        spec_lock(s, p, locks, fuel) is Ok ==> {
            let (l2, i) = spec_lock(s, p, locks, fuel).unwrap();
            &&& distinct(l2) && extends(locks, l2) && i < l2.len()
            &&& locks_closed(locks) ==> locks_closed(l2)
            &&& fuel > 0 && p < s.analysis.len() && s.analysis[p as int] is Some
            &&& spec_lock_deps(s, p, s.analysis[p as int].unwrap().dependencies, 0, locks, Map::empty(), (fuel - 1) as nat) matches Ok((l1, m))
                && l2 == seq_intern(l1, m) && l2[i as int] == m && (l1.contains(m) ==> l2 == l1)
        },
    decreases fuel, 0int,
{
    if fuel > 0 && p < s.analysis.len() && s.analysis[p as int] is Some {
        let a = s.analysis[p as int].unwrap();
        lemma_lock_deps_closed(s, p, a.dependencies, 0, locks, Map::empty(), (fuel - 1) as nat);
        match spec_lock_deps(s, p, a.dependencies, 0, locks, Map::empty(), (fuel - 1) as nat) {
            Ok((l2, m)) => {
                lemma_intern_lock(l2, m);
                let l3 = seq_intern(l2, m);
                lemma_seq_find(l3, m);
                assert(distinct(l3));
                assert(seq_find(l3, m).unwrap() < l3.len());
                assert(spec_lock(s, p, locks, fuel) == Ok::<(Seq<Map<SpecDependency, EntryView>>, nat), LockError>((l3, seq_find(l3, m).unwrap() as nat)));
                assert(extends(locks, l2));
                assert(extends(locks, l3)) by {
                    assert forall|i: int| 0 <= i < locks.len() implies #[trigger] l3[i] == locks[i] by {
                        assert(l2[i] == locks[i]);
                    }
                }
            },
            Err(_) => {
                assert(spec_lock(s, p, locks, fuel) is Err);
            },
        }
    } else {
        assert(spec_lock(s, p, locks, fuel) is Err);
    }
}

/// Creating the entries of the dependencies of a package keeps the list of locks distinct
/// and closed, only adds locks at its end, and gives entries that refer to locks of the list.
proof fn lemma_lock_deps_closed(
    s: SolverView,
    p: usize,
    ds: Seq<usize>,
    i: int,
    locks: Seq<Map<SpecDependency, EntryView>>,
    acc: Map<SpecDependency, EntryView>,
    fuel: nat,
)
    requires
        distinct(locks),
        entries_below(acc, locks.len()),
    ensures
        spec_lock_deps(s, p, ds, i, locks, acc, fuel) matches Ok((l2, m))
            ==> distinct(l2) && (locks_closed(locks) ==> locks_closed(l2)) && extends(locks, l2) && entries_below(m, l2.len()),
    decreases fuel, ds.len() - i + 1,
{
    if 0 <= i < ds.len() && ds[i] < s.dependencies.len() {
        match crate::locking::spec_resolve_entry(s, p, ds[i]) {
            Ok(c) => {
                if c < s.packages.len() {
                    law_lock_extends(s, c, locks, fuel);
                    match spec_lock(s, c, locks, fuel) {
                        Ok((l2, li)) => {
                            assert(li < l2.len());
                            let acc2 = acc.insert(s.dependencies[ds[i] as int], EntryView { package: Some(s.packages[c as int]), lock: li });
                            assert(entries_below(acc2, l2.len()));
                            lemma_lock_deps_closed(s, p, ds, i + 1, l2, acc2, fuel);
                            match spec_lock_deps(s, p, ds, i + 1, l2, acc2, fuel) {
                                Ok((l3, _)) => {
                                    assert(extends(locks, l3)) by {
                                        assert forall|j: int| 0 <= j < locks.len() implies #[trigger] l3[j] == locks[j] by {
                                            assert(l2[j] == locks[j]);
                                        }
                                    }
                                },
                                Err(_) => {},
                            }
                        },
                        Err(_) => {},
                    }
                }
            },
            Err(_) => {},
        }
    }
}

/// A lockfile created from a solution is well formed: no two of its locks are equal, and
/// every entry of every lock refers to a lock of the lockfile.
pub proof fn law_lockfile_closed(s: SolverView, from: int, locks: Seq<Map<SpecDependency, EntryView>>)
    requires
        distinct(locks),
        locks_closed(locks),
    ensures
        spec_lock_roots(s, from, locks) matches Ok(l) ==> distinct(l) && locks_closed(l),
    decreases s.path_dependencies.len() - from,
{
    if 0 <= from < s.path_dependencies.len() {
        if s.path_dependencies[from] is Some {
            law_lock_extends(s, from as usize, locks, (s.packages.len() + 1) as nat);
            match spec_lock(s, from as usize, locks, (s.packages.len() + 1) as nat) {
                Ok((l2, _)) => {
                    law_lockfile_closed(s, from + 1, l2);
                },
                Err(_) => {},
            }
        } else {
            law_lockfile_closed(s, from + 1, locks);
        }
    }
}


/// Choosing a version saves the frame to come back to with the versions still to try:
/// those before the chosen one, so that backtracking there tries the next version; the new
/// frame holds the choice tentatively and has the chosen dependant and then the package's
/// dependencies on top of its working set.
pub proof fn law_choice_saves_remaining_versions(s: SolverView, next: FrameView, d: Dependant, p: usize, a: AnalysisView)
    requires
        s.current.remaining_versions is Some,
        s.current.remaining_versions.unwrap().len() > 0,
    ensures
        ({
            let r = spec_commit_choice(s, next, d, p, true, a);
            &&& r.frames.len() == s.frames.len() + 1
            &&& r.frames.last().remaining_versions == Some(s.current.remaining_versions.unwrap().drop_last())
            &&& r.history == s.history.push(s.frames.len() as usize)
            &&& r.current.solution.partial[d] == Mark::Temporary(p)
            &&& r.current.working_set == next.working_set.push(d) + crate::model::children_dependants(p, a.dependencies)
        }),
{
}


/// The dependencies of the analysis of package `p`, by index.
pub open spec fn analysis_deps(s: SolverView, p: usize) -> Seq<usize> {
    s.analysis[p as int].unwrap().dependencies
}

/// The dependencies named by the first `n` indices of `ds`.
pub open spec fn keys_upto(s: SolverView, ds: Seq<usize>, n: int) -> Set<SpecDependency> {
    Set::new(|key: SpecDependency| exists|k: int| 0 <= k < n && key == s.dependencies[#[trigger] ds[k] as int])
}

/// Entry `e` of a lock of package `p` in the list `l` records what dependency `d` of `p`
/// resolves to: the id of that package, and a lock of the list that records, in turn, the
/// choices for that package, `depth` levels down.
pub open spec fn entry_records(
    s: SolverView,
    l: Seq<Map<SpecDependency, EntryView>>,
    p: usize,
    d: usize,
    e: EntryView,
    depth: nat,
) -> bool
    decreases depth, 0int,
{
    &&& d < s.dependencies.len()
    &&& spec_resolve_entry(s, p, d) matches Ok(c)
    &&& c < s.packages.len()
    &&& e.package == Some(s.packages[c as int])
    &&& e.lock < l.len()
    &&& depth > 0 ==> records_choices(s, l, e.lock, c, (depth - 1) as nat)
}

/// The lock at index `j` of the list `l` is a lock of package `p` as the solution has it:
/// its keys are the dependencies of `p`, and the entry of each records the package that the
/// dependency resolves to (by the path table of `p`, or else by the permanent mark of the
/// dependant) and, `depth` levels down, that package's own lock.
pub open spec fn records_choices(s: SolverView, l: Seq<Map<SpecDependency, EntryView>>, j: nat, p: usize, depth: nat) -> bool
    decreases depth, 1int,
{
    &&& j < l.len()
    &&& p < s.analysis.len()
    &&& s.analysis[p as int] is Some
    &&& l[j as int].dom() == keys_upto(s, analysis_deps(s, p), analysis_deps(s, p).len() as int)
    &&& forall|k: int| 0 <= k < analysis_deps(s, p).len() ==>
            entry_records(s, l, p, #[trigger] analysis_deps(s, p)[k], l[j as int][s.dependencies[analysis_deps(s, p)[k] as int]], depth)
}

/// An entry that records a choice in a list of locks records it in every longer list.
proof fn lemma_entry_records_extend(
    s: SolverView,
    l: Seq<Map<SpecDependency, EntryView>>,
    l2: Seq<Map<SpecDependency, EntryView>>,
    p: usize,
    d: usize,
    e: EntryView,
    depth: nat,
)
    requires
        entry_records(s, l, p, d, e, depth),
        extends(l, l2),
    ensures
        entry_records(s, l2, p, d, e, depth),
    decreases depth, 0int,
{
    if depth > 0 {
        let c = spec_resolve_entry(s, p, d).unwrap();
        lemma_records_extend(s, l, l2, e.lock, c, (depth - 1) as nat);
    }
}

/// A lock that records the choices for a package in a list of locks records them in every
/// longer list.
proof fn lemma_records_extend(
    s: SolverView,
    l: Seq<Map<SpecDependency, EntryView>>,
    l2: Seq<Map<SpecDependency, EntryView>>,
    j: nat,
    p: usize,
    depth: nat,
)
    requires
        records_choices(s, l, j, p, depth),
        extends(l, l2),
    ensures
        records_choices(s, l2, j, p, depth),
    decreases depth, 1int,
{
    assert(l2[j as int] == l[j as int]);
    let ds = analysis_deps(s, p);
    assert forall|k: int| 0 <= k < ds.len() implies
        entry_records(s, l2, p, #[trigger] ds[k], l2[j as int][s.dependencies[ds[k] as int]], depth) by {
        lemma_entry_records_extend(s, l, l2, p, ds[k], l[j as int][s.dependencies[ds[k] as int]], depth);
    }
}

/// The entries made for the dependencies `ds` of package `p` from the `i`th on, added to
/// `acc`, record the choices of the solution, `fuel` levels down.
proof fn lemma_lock_deps_records(
    s: SolverView,
    p: usize,
    ds: Seq<usize>,
    i: int,
    locks: Seq<Map<SpecDependency, EntryView>>,
    acc: Map<SpecDependency, EntryView>,
    fuel: nat,
)
    requires
        distinct(locks),
        distinct(s.dependencies),
        0 <= i <= ds.len(),
        acc.dom() == keys_upto(s, ds, i),
        forall|k: int| 0 <= k < i ==> entry_records(s, locks, p, #[trigger] ds[k], acc[s.dependencies[ds[k] as int]], fuel),
    ensures
        spec_lock_deps(s, p, ds, i, locks, acc, fuel) matches Ok((l2, m)) ==> {
            &&& distinct(l2)
            &&& extends(locks, l2)
            &&& m.dom() == keys_upto(s, ds, ds.len() as int)
            &&& forall|k: int| 0 <= k < ds.len() ==> entry_records(s, l2, p, #[trigger] ds[k], m[s.dependencies[ds[k] as int]], fuel)
        },
    decreases fuel, ds.len() - i + 1,
{
    if i >= ds.len() {
        assert(extends(locks, locks));
    } else if ds[i] < s.dependencies.len() {
        let d = ds[i];
        match spec_resolve_entry(s, p, d) {
        Err(_) => {},
        Ok(c) => {
            if c < s.packages.len() {
                lemma_lock_records(s, c, locks, fuel);
                law_lock_extends(s, c, locks, fuel);
                match spec_lock(s, c, locks, fuel) {
                    Err(_) => {},
                    Ok((l2, li)) => {
                        let key = s.dependencies[d as int];
                        let e = EntryView { package: Some(s.packages[c as int]), lock: li };
                        let acc2 = acc.insert(key, e);
                        assert(entry_records(s, l2, p, d, e, fuel));
                        assert forall|k: int| 0 <= k < i + 1 implies
                            entry_records(s, l2, p, #[trigger] ds[k], acc2[s.dependencies[ds[k] as int]], fuel) by {
                            if k < i {
                                let kk = s.dependencies[ds[k] as int];
                                if kk == key {
                                    assert(ds[k] == d);
                                } else {
                                    lemma_entry_records_extend(s, locks, l2, p, ds[k], acc[kk], fuel);
                                }
                            }
                        }
                        assert(acc2.dom() =~= keys_upto(s, ds, i + 1)) by {
                            assert forall|x: SpecDependency| keys_upto(s, ds, i + 1).contains(x) implies acc2.dom().contains(x) by {
                                let k = choose|k: int| 0 <= k < i + 1 && x == s.dependencies[#[trigger] ds[k] as int];
                                if k < i {
                                    assert(keys_upto(s, ds, i).contains(x));
                                }
                            }
                            assert forall|x: SpecDependency| acc2.dom().contains(x) implies keys_upto(s, ds, i + 1).contains(x) by {
                                if x == key {
                                    assert(0 <= i < i + 1 && x == s.dependencies[ds[i] as int]);
                                } else {
                                    assert(keys_upto(s, ds, i).contains(x));
                                    let k = choose|k: int| 0 <= k < i && x == s.dependencies[#[trigger] ds[k] as int];
                                    assert(0 <= k < i + 1 && x == s.dependencies[ds[k] as int]);
                                }
                            }
                        }
                        lemma_lock_deps_records(s, p, ds, i + 1, l2, acc2, fuel);
                        match spec_lock_deps(s, p, ds, i + 1, l2, acc2, fuel) {
                            Ok((l3, _)) => {
                                assert(extends(locks, l3)) by {
                                    assert forall|j: int| 0 <= j < locks.len() implies #[trigger] l3[j] == locks[j] by {
                                        assert(l2[j] == locks[j]);
                                    }
                                }
                            },
                            Err(_) => {},
                        }
                    },
                }
            }
        },
        }
    }
}

/// The lock that `spec_lock` gives for package `p` records the choices of the solution for
/// `p`, `fuel - 1` levels down.
proof fn lemma_lock_records(s: SolverView, p: usize, locks: Seq<Map<SpecDependency, EntryView>>, fuel: nat)
    requires
        distinct(locks),
        distinct(s.dependencies),
    ensures
        spec_lock(s, p, locks, fuel) matches Ok((l2, i)) ==> records_choices(s, l2, i, p, (fuel - 1) as nat),
    decreases fuel, 0int,
{
    if fuel > 0 && p < s.analysis.len() && s.analysis[p as int] is Some {
        let ds = analysis_deps(s, p);
        let f = (fuel - 1) as nat;
        assert(Map::<SpecDependency, EntryView>::empty().dom() =~= keys_upto(s, ds, 0));
        lemma_lock_deps_records(s, p, ds, 0, locks, Map::empty(), f);
        lemma_lock_deps_closed(s, p, ds, 0, locks, Map::empty(), f);
        law_lock_extends(s, p, locks, fuel);
        match spec_lock_deps(s, p, ds, 0, locks, Map::empty(), f) {
            Ok((l1, m)) => {
                lemma_intern_lock(l1, m);
                let (l2, i) = spec_lock(s, p, locks, fuel).unwrap();
                assert(l2 == seq_intern(l1, m));
                assert(l2[i as int] == m);
                assert forall|k: int| 0 <= k < ds.len() implies
                    entry_records(s, l2, p, #[trigger] ds[k], l2[i as int][s.dependencies[ds[k] as int]], f) by {
                    lemma_entry_records_extend(s, l1, l2, p, ds[k], m[s.dependencies[ds[k] as int]], f);
                }
            },
            Err(_) => {},
        }
    }
}

/// Every package below `bound` that has a path table has a lock in `l` that records its
/// choices, as deep as there are packages.
pub open spec fn roots_recorded(s: SolverView, l: Seq<Map<SpecDependency, EntryView>>, bound: int) -> bool {
    forall|q: usize| q < bound && q < s.path_dependencies.len() && (#[trigger] s.path_dependencies[q as int]) is Some
        ==> exists|j: nat| records_choices(s, l, j, q, s.packages.len())
}

/// Creating the locks of the packages with path tables from package `from` on keeps, for
/// each such package before `from`, a lock that records its choices, and adds one for each
/// such package from `from` on.
proof fn lemma_roots_records(s: SolverView, from: int, locks: Seq<Map<SpecDependency, EntryView>>)
    requires
        0 <= from,
        distinct(locks),
        distinct(s.dependencies),
        roots_recorded(s, locks, from),
    ensures
        spec_lock_roots(s, from, locks) matches Ok(l) ==> roots_recorded(s, l, s.path_dependencies.len() as int),
    decreases s.path_dependencies.len() - from,
{
    let n = s.packages.len();
    if from >= s.path_dependencies.len() {
        assert(roots_recorded(s, locks, s.path_dependencies.len() as int)) by {
            assert forall|q: usize| q < s.path_dependencies.len() && q < s.path_dependencies.len() && (#[trigger] s.path_dependencies[q as int]) is Some
                implies exists|j: nat| records_choices(s, locks, j, q, n) by {
                assert(q < from);
            }
        }
        assert(spec_lock_roots(s, from, locks) == Ok::<Seq<Map<SpecDependency, EntryView>>, LockError>(locks));
    } else if s.path_dependencies[from] is Some {
        let fuel = (n + 1) as nat;
        lemma_lock_records(s, from as usize, locks, fuel);
        law_lock_extends(s, from as usize, locks, fuel);
        match spec_lock(s, from as usize, locks, fuel) {
            Err(_) => {},
            Ok((l2, i)) => {
                assert(roots_recorded(s, l2, from + 1)) by {
                    assert forall|q: usize| q < from + 1 && q < s.path_dependencies.len() && (#[trigger] s.path_dependencies[q as int]) is Some
                        implies exists|j: nat| records_choices(s, l2, j, q, n) by {
                        if q == from {
                            assert(records_choices(s, l2, i, q, n));
                        } else {
                            let j = choose|j: nat| records_choices(s, locks, j, q, n);
                            lemma_records_extend(s, locks, l2, j, q, n);
                        }
                    }
                }
                lemma_roots_records(s, from + 1, l2);
            },
        }
    } else {
        assert(roots_recorded(s, locks, from + 1)) by {
            assert forall|q: usize| q < from + 1 && q < s.path_dependencies.len() && (#[trigger] s.path_dependencies[q as int]) is Some
                implies exists|j: nat| records_choices(s, locks, j, q, n) by {
            }
        }
        lemma_roots_records(s, from + 1, locks);
    }
}

/// What a lockfile created from a solution gives back: for every package with a path table,
/// the lockfile holds a lock whose keys are the package's dependencies and whose entry for
/// each dependency names the package that the solution resolved it to (the package of the
/// path table entry for a path dependency, and otherwise the package of the dependant's
/// permanent mark), with that package's lock, which records its own choices in the same way,
/// as deep as there are packages. (`Lock::get` reads these entries back exactly.)
pub proof fn law_lockfile_records_choices(s: SolverView)
    requires
        distinct(s.dependencies),
    ensures
        spec_lock_roots(s, 0, Seq::empty()) matches Ok(l) ==> roots_recorded(s, l, s.path_dependencies.len() as int),
{
    lemma_roots_records(s, 0, Seq::empty());
}


/// The package tree `t` is what the solver knows of package `p`, `depth` levels down: `p`
/// is the package with the id of `t`, the dependencies of `p` are those of `t`, every path dependency of `t` is among them, and the
/// path table of `p` maps the path of each path dependency of `t` to a package of which the
/// tree of that path dependency is in turn what the solver knows (so a tree of depth 0 has
/// no path dependencies).
pub open spec fn tree_matches(s: SolverView, t: PackageTree, p: usize, depth: nat) -> bool
    decreases depth,
{
    &&& p < s.packages.len()
    &&& s.packages[p as int] == t.id@
    &&& p < s.analysis.len()
    &&& s.analysis[p as int] is Some
    &&& keys_upto(s, analysis_deps(s, p), analysis_deps(s, p).len() as int) == t.dependencies@.map_values(|d: Dependency| d@).to_set()
    &&& edges_among_dependencies(t)
    &&& forall|i: int| 0 <= i < t.path_dependencies@.len() ==> {
            &&& depth > 0
            &&& p < s.path_dependencies.len()
            &&& s.path_dependencies[p as int] is Some
            &&& (#[trigger] t.path_dependencies@[i]).0@.path is Some
            &&& spec_path_lookup(s.path_dependencies[p as int].unwrap(), t.path_dependencies@[i].0@.path.unwrap()) matches Some(c)
            &&& tree_matches(s, t.path_dependencies@[i].1, c, (depth - 1) as nat)
        }
}

/// A lock that records the choices for a package fits every package tree that is what the
/// solver knows of that package: reading it back against the tree finds the same
/// dependencies at every level, with enough fuel to follow the tree.
pub proof fn law_recorded_lock_fits(
    s: SolverView,
    l: Seq<Map<SpecDependency, EntryView>>,
    j: nat,
    p: usize,
    t: PackageTree,
    depth: nat,
    fuel: nat,
)
    requires
        records_choices(s, l, j, p, depth),
        tree_matches(s, t, p, depth),
        depth < fuel,
    ensures
        spec_fits(t, l, j, fuel) == Ok::<bool, crate::reading::ReadError>(true),
    decreases depth, t.path_dependencies@.len() + 2,
{
    assert(l[j as int].dom() == t.dependencies@.map_values(|d: Dependency| d@).to_set());
    lemma_fits_edges(s, l, j, p, t, depth, (fuel - 1) as nat, 0);
}

/// The path dependencies of `t` from the `i`th on fit the entries of a lock that records
/// the choices for package `p`.
proof fn lemma_fits_edges(
    s: SolverView,
    l: Seq<Map<SpecDependency, EntryView>>,
    j: nat,
    p: usize,
    t: PackageTree,
    depth: nat,
    fuel: nat,
    i: int,
)
    requires
        records_choices(s, l, j, p, depth),
        tree_matches(s, t, p, depth),
        depth <= fuel,
        0 <= i,
    ensures
        spec_fits_edges(t, l, l[j as int], i, fuel) == Ok::<bool, crate::reading::ReadError>(true),
    decreases depth, t.path_dependencies@.len() - i + 1,
{
    if i < t.path_dependencies@.len() {
        let e = t.path_dependencies@[i];
        let ds = analysis_deps(s, p);
        assert(depth > 0);
        let dv = t.dependencies@.map_values(|d: Dependency| d@);
        assert(dv.contains(e.0@));
        assert(dv.to_set().contains(e.0@));
        assert(keys_upto(s, ds, ds.len() as int).contains(e.0@));
        let k = choose|k: int| 0 <= k < ds.len() && e.0@ == s.dependencies[#[trigger] ds[k] as int];
        let entry = l[j as int][e.0@];
        assert(entry_records(s, l, p, ds[k], l[j as int][s.dependencies[ds[k] as int]], depth));
        assert(ds[k] < s.dependencies.len());
        assert(s.dependencies[ds[k] as int] == t.path_dependencies@[i].0@);
        let c = spec_path_lookup(s.path_dependencies[p as int].unwrap(), e.0@.path.unwrap()).unwrap();
        assert(spec_resolve_entry(s, p, ds[k]) == Ok::<usize, LockError>(c));
        assert(records_choices(s, l, entry.lock, c, (depth - 1) as nat));
        law_recorded_lock_fits(s, l, entry.lock, c, e.1, (depth - 1) as nat, fuel);
        lemma_fits_edges(s, l, j, p, t, depth, fuel, i + 1);
    }
}


/// Reading back a lockfile created from a solution: for a package with a path table, and a
/// package tree that is what the solver knows of it, the lockfile holds a lock that records
/// the package's choices (see `law_lockfile_records_choices`) and that fits the tree, read
/// with any fuel above the number of packages. The lockfile is written with the locks of a
/// package's dependencies before the package's own lock, so that lock is found at the index
/// that creating it gave, not necessarily at the front.
pub proof fn law_lockfile_fits_tree(s: SolverView, t: PackageTree, q: usize)
    requires
        distinct(s.dependencies),
        q < s.path_dependencies.len(),
        s.path_dependencies[q as int] is Some,
        tree_matches(s, t, q, s.packages.len()),
    ensures
        spec_lock_roots(s, 0, Seq::empty()) matches Ok(l) ==> exists|j: nat| {
            &&& #[trigger] records_choices(s, l, j, q, s.packages.len())
            &&& forall|fuel: nat| fuel > s.packages.len() ==> #[trigger] spec_fits(t, l, j, fuel) == Ok::<bool, crate::reading::ReadError>(true)
        },
{
    law_lockfile_records_choices(s);
    match spec_lock_roots(s, 0, Seq::empty()) {
        Ok(l) => {
            assert(s.path_dependencies[q as int] is Some);
            let j = choose|j: nat| records_choices(s, l, j, q, s.packages.len());
            assert forall|fuel: nat| fuel > s.packages.len() implies #[trigger] spec_fits(t, l, j, fuel) == Ok::<bool, crate::reading::ReadError>(true) by {
                law_recorded_lock_fits(s, l, j, q, t, s.packages.len(), fuel);
            }
        },
        Err(_) => {},
    }
}


/// What the solver knows of a package tree stays known as the solver's tables grow.
pub proof fn law_tree_matches_ext(s1: SolverView, s2: SolverView, t: PackageTree, p: usize, depth: nat)
    requires
        crate::soundness::ext(s1, s2),
        extends(s1.packages, s2.packages),
        crate::references::analyses_ok(s1.analysis, crate::references::bounds(s1)),
        tree_matches(s1, t, p, depth),
    ensures
        tree_matches(s2, t, p, depth),
    decreases depth,
{
    assert(s2.analysis[p as int] == s1.analysis[p as int]);
    let ds = analysis_deps(s1, p);
    assert(analysis_deps(s2, p) == ds);
    assert(keys_upto(s2, ds, ds.len() as int) =~= keys_upto(s1, ds, ds.len() as int)) by {
        assert(crate::references::analysis_ok(s1.analysis[p as int].unwrap(), crate::references::bounds(s1)));
        assert forall|x: SpecDependency| keys_upto(s1, ds, ds.len() as int).contains(x) implies keys_upto(s2, ds, ds.len() as int).contains(x) by {
            let k = choose|k: int| 0 <= k < ds.len() && x == s1.dependencies[#[trigger] ds[k] as int];
            assert(s2.dependencies[ds[k] as int] == s1.dependencies[ds[k] as int]);
        }
        assert forall|x: SpecDependency| keys_upto(s2, ds, ds.len() as int).contains(x) implies keys_upto(s1, ds, ds.len() as int).contains(x) by {
            let k = choose|k: int| 0 <= k < ds.len() && x == s2.dependencies[#[trigger] ds[k] as int];
            assert(s2.dependencies[ds[k] as int] == s1.dependencies[ds[k] as int]);
        }
    }
    assert forall|i: int| 0 <= i < t.path_dependencies@.len() implies {
        &&& depth > 0
        &&& p < s2.path_dependencies.len()
        &&& s2.path_dependencies[p as int] is Some
        &&& (#[trigger] t.path_dependencies@[i]).0@.path is Some
        &&& spec_path_lookup(s2.path_dependencies[p as int].unwrap(), t.path_dependencies@[i].0@.path.unwrap()) matches Some(c)
        &&& tree_matches(s2, t.path_dependencies@[i].1, c, (depth - 1) as nat)
    } by {
        assert(s2.path_dependencies[p as int] == s1.path_dependencies[p as int]);
        let c = spec_path_lookup(s1.path_dependencies[p as int].unwrap(), t.path_dependencies@[i].0@.path.unwrap()).unwrap();
        law_tree_matches_ext(s1, s2, t.path_dependencies@[i].1, c, (depth - 1) as nat);
    }
}

/// Each step of the search keeps what the solver knows of a package tree: a tree that
/// matches what the solver knows of a package after scanning still does when the search is
/// done, so the law `law_lockfile_fits_tree` applies to the lockfile created then.
pub proof fn law_step_keeps_tree_matches(s: SolverView, resp: Option<ResponseView>, t: PackageTree, p: usize, depth: nat)
    requires
        crate::references::refs_valid(s),
        tree_matches(s, t, p, depth),
    ensures
        tree_matches(spec_step(s, resp).0, t, p, depth),
{
    crate::soundness::law_step_extends(s, resp);
    crate::soundness::law_step_keeps_tables(s, resp);
    law_tree_matches_ext(s, spec_step(s, resp).0, t, p, depth);
}

} // verus!
