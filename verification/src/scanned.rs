//! What scanning a package tree tells the solver (for every package of the tree, its
//! dependencies and the packages that the paths of its path dependencies lead to), and what
//! a run of the search from there keeps: that knowledge, and a solution closed over the
//! scanned dependants; so the lockfile created at the end reads back as the tree.

use vstd::prelude::*;
use crate::dependency::{Dependency, SpecDependency, distinct, seq_find, seq_intern, lemma_seq_find, lemma_seq_intern};
use crate::laws::extends;
use crate::laws::{analysis_deps, keys_upto, law_lockfile_fits_tree, law_step_keeps_tree_matches, records_choices, tree_matches};
use crate::locking::spec_lock_roots;
use crate::lockfile::EntryView;
use crate::reading::{ReadError, spec_fits};
use crate::references::{law_initial_references, law_scan_keeps_references, law_step_keeps_references, refs_valid};
use crate::soundness::{law_step_keeps_tables, lemma_intern_all_distinct};
use crate::model::{AnalysisView, ResponseView, SolverView, spec_intern_all, spec_intern_package, spec_path_lookup, spec_step};
use crate::reading::edges_among_dependencies;
use crate::scan::{PackageTree, spec_initial, spec_scan, spec_scan_edges, spec_table_insert};

verus! {

/// `v` is `t` or a tree of a path dependency of `t`, at any depth.
pub open spec fn within(v: PackageTree, t: PackageTree) -> bool
    decreases t,
{
    v == t || exists|i: int| 0 <= i < t.path_dependencies@.len() && within(v, #[trigger] t.path_dependencies@[i].1)
}

/// The length of the longest chain of path dependencies from `t`.
pub open spec fn height(t: PackageTree) -> nat
    decreases t, t.path_dependencies@.len() + 1,
{
    height_from(t, 0)
}

/// The longest chain of path dependencies from `t` through its `i`th path dependency or a
/// later one.
pub open spec fn height_from(t: PackageTree, i: int) -> nat
    decreases t, t.path_dependencies@.len() - i,
{
    if i < 0 || i >= t.path_dependencies@.len() {
        0
    } else {
        let h = height(t.path_dependencies@[i].1) + 1;
        let rest = height_from(t, i + 1);
        if h > rest { h } else { rest }
    }
}

/// The tree of each path dependency is lower than the tree.
proof fn lemma_height_from(t: PackageTree, i: int, j: int)
    requires
        0 <= i <= j < t.path_dependencies@.len(),
    ensures
        height(t.path_dependencies@[j].1) < height_from(t, i),
    decreases j - i,
{
    if i < j {
        lemma_height_from(t, i + 1, j);
    }
}

/// The tree of each path dependency is lower than the tree.
pub proof fn lemma_height_child(t: PackageTree, j: int)
    requires
        0 <= j < t.path_dependencies@.len(),
    ensures
        height(t.path_dependencies@[j].1) < height(t),
{
    lemma_height_from(t, 0, j);
}

/// A tree within `t` is no higher than `t`.
pub proof fn lemma_within_height(v: PackageTree, t: PackageTree)
    requires
        within(v, t),
    ensures
        height(v) <= height(t),
    decreases t,
{
    if v != t {
        let i = choose|i: int| 0 <= i < t.path_dependencies@.len() && within(v, #[trigger] t.path_dependencies@[i].1);
        lemma_within_height(v, t.path_dependencies@[i].1);
        lemma_height_child(t, i);
    }
}

/// A tree within the tree of a path dependency of `t` is within `t`.
pub proof fn lemma_within_child(v: PackageTree, t: PackageTree, i: int)
    requires
        0 <= i < t.path_dependencies@.len(),
        within(v, t.path_dependencies@[i].1),
    ensures
        within(v, t),
{
}

/// Within a tree within `t` is within `t`.
pub proof fn lemma_within_trans(u: PackageTree, v: PackageTree, t: PackageTree)
    requires
        within(u, v),
        within(v, t),
    ensures
        within(u, t),
    decreases t,
{
    if v != t {
        let i = choose|i: int| 0 <= i < t.path_dependencies@.len() && within(v, #[trigger] t.path_dependencies@[i].1);
        lemma_within_trans(u, v, t.path_dependencies@[i].1);
    }
}

/// The tree `t` is consistent: trees with the same id are the same tree, each package's
/// path dependencies are among its dependencies and have paths, and equal paths from one
/// package lead to the same package.
pub open spec fn consistent(t: PackageTree) -> bool {
    &&& forall|v: PackageTree, w: PackageTree| #![trigger within(v, t), within(w, t)] within(v, t) && within(w, t) && v.id@ == w.id@ ==> v == w
    &&& forall|v: PackageTree| #[trigger] within(v, t) ==> edges_among_dependencies(v)
    &&& forall|v: PackageTree, i: int| #[trigger] within(v, t) && 0 <= i < v.path_dependencies@.len() ==> (#[trigger] v.path_dependencies@[i]).0@.path is Some
    &&& forall|v: PackageTree, i: int, j: int| #![trigger within(v, t), v.path_dependencies@[i], v.path_dependencies@[j]]
            within(v, t) && 0 <= i < v.path_dependencies@.len() && 0 <= j < v.path_dependencies@.len()
            && v.path_dependencies@[i].0@.path == v.path_dependencies@[j].0@.path
            ==> v.path_dependencies@[i].1.id@ == v.path_dependencies@[j].1.id@
}


/// The first entry for `path` decides the lookup.
proof fn lemma_lookup_at(tb: Seq<(Seq<char>, usize)>, path: Seq<char>, k: int)
    requires
        0 <= k < tb.len(),
        tb[k].0 == path,
        forall|j: int| 0 <= j < k ==> tb[j].0 != path,
    ensures
        spec_path_lookup(tb, path) == Some(tb[k].1),
    decreases tb.len(),
{
    if k > 0 {
        assert(tb[0].0 != path);
        assert(tb.drop_first()[k - 1] == tb[k]);
        assert forall|j: int| 0 <= j < k - 1 implies tb.drop_first()[j].0 != path by {
            assert(tb.drop_first()[j] == tb[j + 1]);
        }
        lemma_lookup_at(tb.drop_first(), path, k - 1);
    }
}

/// Without an entry for `path`, the lookup finds nothing.
proof fn lemma_lookup_none(tb: Seq<(Seq<char>, usize)>, path: Seq<char>)
    requires
        forall|j: int| 0 <= j < tb.len() ==> tb[j].0 != path,
    ensures
        spec_path_lookup(tb, path) is None,
    decreases tb.len(),
{
    if tb.len() > 0 {
        assert forall|j: int| 0 <= j < tb.len() - 1 implies tb.drop_first()[j].0 != path by {
            assert(tb.drop_first()[j] == tb[j + 1]);
        }
        lemma_lookup_none(tb.drop_first(), path);
    }
}

/// A lookup that finds a package finds it at the first entry for the path.
proof fn lemma_lookup_found(tb: Seq<(Seq<char>, usize)>, path: Seq<char>)
    ensures
        spec_path_lookup(tb, path) matches Some(c) ==> exists|k: int| {
            &&& 0 <= k < tb.len()
            &&& #[trigger] tb[k].0 == path
            &&& tb[k].1 == c
            &&& forall|j: int| 0 <= j < k ==> tb[j].0 != path
        },
    decreases tb.len(),
{
    if tb.len() > 0 && tb[0].0 != path {
        lemma_lookup_found(tb.drop_first(), path);
        if let Some(c) = spec_path_lookup(tb, path) {
            let k = choose|k: int| {
                &&& 0 <= k < tb.drop_first().len()
                &&& #[trigger] tb.drop_first()[k].0 == path
                &&& tb.drop_first()[k].1 == c
                &&& forall|j: int| 0 <= j < k ==> tb.drop_first()[j].0 != path
            };
            assert(tb[k + 1] == tb.drop_first()[k]);
            assert forall|j: int| 0 <= j < k + 1 implies tb[j].0 != path by {
                if j > 0 {
                    assert(tb[j] == tb.drop_first()[j - 1]);
                }
            }
        }
    }
}

/// Entering `path` in a path table maps it to `c` and leaves the other paths as they were.
pub proof fn lemma_lookup_insert(tb: Seq<(Seq<char>, usize)>, p0: Seq<char>, c: usize, path: Seq<char>)
    ensures
        spec_path_lookup(spec_table_insert(tb, p0, c), path) == if path == p0 { Some(c) } else { spec_path_lookup(tb, path) },
{
    let keys = tb.map_values(|e: (Seq<char>, usize)| e.0);
    lemma_seq_find(keys, p0);
    let nt = spec_table_insert(tb, p0, c);
    lemma_lookup_found(tb, path);
    match seq_find(keys, p0) {
        Some(k) => {
            assert(nt == tb.update(k, (p0, c)));
            assert(tb[k].0 == p0) by { assert(keys[k] == tb[k].0); }
            if path == p0 {
                assert forall|j: int| 0 <= j < k implies nt[j].0 != p0 by {
                    assert(keys[j] == tb[j].0);
                }
                lemma_lookup_at(nt, p0, k);
            } else {
                match spec_path_lookup(tb, path) {
                    Some(c1) => {
                        let k1 = choose|k1: int| {
                            &&& 0 <= k1 < tb.len()
                            &&& #[trigger] tb[k1].0 == path
                            &&& tb[k1].1 == c1
                            &&& forall|j: int| 0 <= j < k1 ==> tb[j].0 != path
                        };
                        assert(nt[k1] == tb[k1]);
                        assert forall|j: int| 0 <= j < k1 implies nt[j].0 != path by {
                            if j != k {
                                assert(nt[j] == tb[j]);
                            }
                        }
                        lemma_lookup_at(nt, path, k1);
                    },
                    None => {
                        assert forall|j: int| 0 <= j < nt.len() implies nt[j].0 != path by {
                            if j != k {
                                assert(nt[j] == tb[j]);
                                if tb[j].0 == path {
                                    lemma_lookup_first(tb, path, j);
                                }
                            }
                        }
                        lemma_lookup_none(nt, path);
                    },
                }
            }
        },
        None => {
            assert(nt == tb.push((p0, c)));
            assert forall|j: int| 0 <= j < tb.len() implies tb[j].0 != p0 by {
                assert(keys[j] == tb[j].0);
            }
            if path == p0 {
                assert forall|j: int| 0 <= j < tb.len() implies nt[j].0 != p0 by {
                    assert(nt[j] == tb[j]);
                }
                lemma_lookup_at(nt, p0, tb.len() as int);
            } else {
                match spec_path_lookup(tb, path) {
                    Some(c1) => {
                        let k1 = choose|k1: int| {
                            &&& 0 <= k1 < tb.len()
                            &&& #[trigger] tb[k1].0 == path
                            &&& tb[k1].1 == c1
                            &&& forall|j: int| 0 <= j < k1 ==> tb[j].0 != path
                        };
                        assert(nt[k1] == tb[k1]);
                        assert forall|j: int| 0 <= j < k1 implies nt[j].0 != path by {
                            assert(nt[j] == tb[j]);
                        }
                        lemma_lookup_at(nt, path, k1);
                    },
                    None => {
                        assert forall|j: int| 0 <= j < nt.len() implies nt[j].0 != path by {
                            if j < tb.len() {
                                assert(nt[j] == tb[j]);
                                if tb[j].0 == path {
                                    lemma_lookup_first(tb, path, j);
                                }
                            }
                        }
                        lemma_lookup_none(nt, path);
                    },
                }
            }
        },
    }
}

/// An entry for `path` makes the lookup find something.
proof fn lemma_lookup_first(tb: Seq<(Seq<char>, usize)>, path: Seq<char>, j: int)
    requires
        0 <= j < tb.len(),
        tb[j].0 == path,
    ensures
        spec_path_lookup(tb, path) is Some,
    decreases tb.len(),
{
    if tb[0].0 != path {
        assert(tb.drop_first()[j - 1] == tb[j]);
        lemma_lookup_first(tb.drop_first(), path, j - 1);
    }
}


/// The dependencies of the analysis of package `q`, as a set.
pub open spec fn keys_of(s: SolverView, q: usize) -> Set<SpecDependency> {
    keys_upto(s, analysis_deps(s, q), analysis_deps(s, q).len() as int)
}

/// `s2` knows what `s1` knows of packages: the same packages at the same indices, an
/// analysis with the same dependencies for each analysed package, and a path table that
/// finds the same package for each path that the table of `s1` finds.
pub open spec fn knows_more(s1: SolverView, s2: SolverView) -> bool {
    &&& extends(s1.packages, s2.packages)
    &&& extends(s1.dependencies, s2.dependencies)
    &&& s1.analysis.len() <= s2.analysis.len()
    &&& s1.path_dependencies.len() <= s2.path_dependencies.len()
    &&& forall|q: usize| q < s1.analysis.len() && (#[trigger] s1.analysis[q as int]) is Some
            ==> s2.analysis[q as int] is Some && keys_of(s2, q) == keys_of(s1, q)
    &&& forall|q: usize| q < s1.path_dependencies.len() && (#[trigger] s1.path_dependencies[q as int]) is Some
            ==> s2.path_dependencies[q as int] is Some
    &&& forall|q: usize, path: Seq<char>| q < s1.path_dependencies.len() && s1.path_dependencies[q as int] is Some
            && (#[trigger] spec_path_lookup(s1.path_dependencies[q as int].unwrap(), path)) is Some
            ==> spec_path_lookup(s2.path_dependencies[q as int].unwrap(), path) == spec_path_lookup(s1.path_dependencies[q as int].unwrap(), path)
}

/// Knowing more is transitive.
proof fn lemma_knows_more_trans(s1: SolverView, s2: SolverView, s3: SolverView)
    requires
        knows_more(s1, s2),
        knows_more(s2, s3),
    ensures
        knows_more(s1, s3),
{
    lemma_extends_trans(s1.packages, s2.packages, s3.packages);
    lemma_extends_trans(s1.dependencies, s2.dependencies, s3.dependencies);
    assert forall|q: usize, path: Seq<char>| q < s1.path_dependencies.len() && s1.path_dependencies[q as int] is Some
        && (#[trigger] spec_path_lookup(s1.path_dependencies[q as int].unwrap(), path)) is Some
        implies spec_path_lookup(s3.path_dependencies[q as int].unwrap(), path) == spec_path_lookup(s1.path_dependencies[q as int].unwrap(), path) by {
        assert(spec_path_lookup(s2.path_dependencies[q as int].unwrap(), path) == spec_path_lookup(s1.path_dependencies[q as int].unwrap(), path));
    }
    assert forall|q: usize| q < s1.analysis.len() && (#[trigger] s1.analysis[q as int]) is Some
        implies s3.analysis[q as int] is Some && keys_of(s3, q) == keys_of(s1, q) by {
        assert(s2.analysis[q as int] is Some);
    }
}

/// What a solver knows of a package tree, one that knows more knows too.
proof fn lemma_tree_matches_more(s1: SolverView, s2: SolverView, t: PackageTree, p: usize, depth: nat)
    requires
        knows_more(s1, s2),
        tree_matches(s1, t, p, depth),
    ensures
        tree_matches(s2, t, p, depth),
    decreases depth,
{
    assert(s2.analysis[p as int] is Some && keys_of(s2, p) == keys_of(s1, p));
    assert forall|i: int| 0 <= i < t.path_dependencies@.len() implies {
        &&& depth > 0
        &&& p < s2.path_dependencies.len()
        &&& s2.path_dependencies[p as int] is Some
        &&& (#[trigger] t.path_dependencies@[i]).0@.path is Some
        &&& spec_path_lookup(s2.path_dependencies[p as int].unwrap(), t.path_dependencies@[i].0@.path.unwrap()) matches Some(c)
        &&& tree_matches(s2, t.path_dependencies@[i].1, c, (depth - 1) as nat)
    } by {
        let path = t.path_dependencies@[i].0@.path.unwrap();
        assert(spec_path_lookup(s1.path_dependencies[p as int].unwrap(), path) is Some);
        let c = spec_path_lookup(s1.path_dependencies[p as int].unwrap(), path).unwrap();
        lemma_tree_matches_more(s1, s2, t.path_dependencies@[i].1, c, (depth - 1) as nat);
    }
}

/// What a solver knows of a package tree to some depth, it knows to any greater depth.
proof fn lemma_tree_matches_deeper(s: SolverView, t: PackageTree, p: usize, d1: nat, d2: nat)
    requires
        tree_matches(s, t, p, d1),
        d1 <= d2,
    ensures
        tree_matches(s, t, p, d2),
    decreases d1,
{
    assert forall|i: int| 0 <= i < t.path_dependencies@.len() implies {
        &&& d2 > 0
        &&& p < s.path_dependencies.len()
        &&& s.path_dependencies[p as int] is Some
        &&& (#[trigger] t.path_dependencies@[i]).0@.path is Some
        &&& spec_path_lookup(s.path_dependencies[p as int].unwrap(), t.path_dependencies@[i].0@.path.unwrap()) matches Some(c)
        &&& tree_matches(s, t.path_dependencies@[i].1, c, (d2 - 1) as nat)
    } by {
        let c = spec_path_lookup(s.path_dependencies[p as int].unwrap(), t.path_dependencies@[i].0@.path.unwrap()).unwrap();
        lemma_tree_matches_deeper(s, t.path_dependencies@[i].1, c, (d1 - 1) as nat, (d2 - 1) as nat);
    }
}

/// Interning gives, for each value, an index where the grown table holds it.
proof fn lemma_intern_all_values<T>(t: Seq<T>, xs: Seq<T>)
    requires
        spec_intern_all(t, xs).0.len() <= usize::MAX,
    ensures
        spec_intern_all(t, xs).1.len() == xs.len(),
        extends(t, spec_intern_all(t, xs).0),
        forall|k: int| 0 <= k < xs.len() ==> #[trigger] spec_intern_all(t, xs).1[k] < spec_intern_all(t, xs).0.len()
            && spec_intern_all(t, xs).0[spec_intern_all(t, xs).1[k] as int] == xs[k],
    decreases xs.len(),
{
    if xs.len() > 0 {
        let (t1, r1) = spec_intern_all(t, xs.drop_last());
        let t2 = seq_intern(t1, xs.last());
        lemma_seq_intern(t1, xs.last());
        lemma_intern_all_values(t, xs.drop_last());
        lemma_seq_find(t2, xs.last());
        let (t3, r3) = spec_intern_all(t, xs);
        assert(t3 == t2);
        assert forall|k: int| 0 <= k < xs.len() implies #[trigger] r3[k] < t3.len() && t3[r3[k] as int] == xs[k] by {
            if k < xs.len() - 1 {
                assert(r3[k] == r1[k]);
                assert(xs.drop_last()[k] == xs[k]);
                assert(t2[r1[k] as int] == t1[r1[k] as int]);
            } else {
                assert(r3[k] as int == seq_find(t2, xs.last()).unwrap());
            }
        }
        assert forall|i: int| 0 <= i < t.len() implies #[trigger] t3[i] == t[i] by {
            assert(t1[i] == t[i]);
        }
    }
}

/// The dependencies of an analysis made by interning `xs` are the values of `xs`.
proof fn lemma_keys_of_interned(s: SolverView, refs: Seq<usize>, xs: Seq<SpecDependency>)
    requires
        refs.len() == xs.len(),
        forall|k: int| 0 <= k < xs.len() ==> #[trigger] refs[k] < s.dependencies.len() && s.dependencies[refs[k] as int] == xs[k],
    ensures
        keys_upto(s, refs, refs.len() as int) == xs.to_set(),
{
    assert(keys_upto(s, refs, refs.len() as int) =~= xs.to_set()) by {
        assert forall|x: SpecDependency| keys_upto(s, refs, refs.len() as int).contains(x) implies xs.to_set().contains(x) by {
            let k = choose|k: int| 0 <= k < refs.len() && x == s.dependencies[#[trigger] refs[k] as int];
            assert(xs[k] == x);
            assert(xs.contains(x));
        }
        assert forall|x: SpecDependency| xs.to_set().contains(x) implies keys_upto(s, refs, refs.len() as int).contains(x) by {
            assert(xs.contains(x));
            let k = choose|k: int| 0 <= k < xs.len() && xs[k] == x;
            assert(s.dependencies[refs[k] as int] == x);
        }
    }
}

/// The dependencies of an analysis stay the same as the table of dependencies grows.
proof fn lemma_keys_extend(s1: SolverView, s2: SolverView, q: usize)
    requires
        q < s1.analysis.len(),
        q < s2.analysis.len(),
        s1.analysis[q as int] is Some,
        s2.analysis[q as int] == s1.analysis[q as int],
        extends(s1.dependencies, s2.dependencies),
        forall|k: int| 0 <= k < analysis_deps(s1, q).len() ==> #[trigger] analysis_deps(s1, q)[k] < s1.dependencies.len(),
    ensures
        keys_of(s2, q) == keys_of(s1, q),
{
    let ds = analysis_deps(s1, q);
    assert(analysis_deps(s2, q) == ds);
    assert(keys_of(s2, q) =~= keys_of(s1, q)) by {
        assert forall|x: SpecDependency| keys_upto(s1, ds, ds.len() as int).contains(x) implies keys_upto(s2, ds, ds.len() as int).contains(x) by {
            let k = choose|k: int| 0 <= k < ds.len() && x == s1.dependencies[#[trigger] ds[k] as int];
            assert(s2.dependencies[ds[k] as int] == s1.dependencies[ds[k] as int]);
        }
        assert forall|x: SpecDependency| keys_upto(s2, ds, ds.len() as int).contains(x) implies keys_upto(s1, ds, ds.len() as int).contains(x) by {
            let k = choose|k: int| 0 <= k < ds.len() && x == s2.dependencies[#[trigger] ds[k] as int];
            assert(s2.dependencies[ds[k] as int] == s1.dependencies[ds[k] as int]);
        }
    }
}


/// Extending is transitive.
proof fn lemma_extends_trans<T>(a: Seq<T>, b: Seq<T>, c: Seq<T>)
    requires
        extends(a, b),
        extends(b, c),
    ensures
        extends(a, c),
{
    assert forall|i: int| 0 <= i < a.len() implies #[trigger] c[i] == a[i] by {
        assert(b[i] == a[i]);
    }
}

/// Every solver knows what it knows.
proof fn lemma_knows_more_refl(s: SolverView)
    ensures
        knows_more(s, s),
{
}

/// Scanning only adds packages and dependencies.
proof fn lemma_scan_grows(s: SolverView, t: PackageTree)
    ensures
        extends(s.packages, spec_scan(s, t).packages),
        extends(s.dependencies, spec_scan(s, t).dependencies),
    decreases t, t.path_dependencies@.len() + 1,
{
    let (s1, p) = spec_intern_package(s, t.id@);
    lemma_seq_intern(s.packages, t.id@);
    assert(extends(s.packages, s1.packages));
    if s1.path_dependencies[p as int] is None {
        let (dependencies, refs) = spec_intern_all(s1.dependencies, t.dependencies@.map_values(|d: Dependency| d@));
        crate::solve::lemma_intern_all_grows(s1.dependencies, t.dependencies@.map_values(|d: Dependency| d@));
        let s2 = SolverView {
            metadata: seq_intern(s1.metadata, t.metadata@),
            dependencies,
            analysis: s1.analysis.update(p as int, Some(AnalysisView { metadata: seq_find(seq_intern(s1.metadata, t.metadata@), t.metadata@).unwrap() as usize, dependencies: refs })),
            current: crate::solution::FrameView {
                working_set: s1.current.working_set + crate::model::children_dependants(p, refs),
                ..s1.current
            },
            ..s1
        };
        assert(spec_scan(s, t) == spec_scan_edges(s2, p, t, 0));
        lemma_scan_edges_grows(s2, p, t, 0);
        lemma_extends_trans(s.packages, s2.packages, spec_scan(s, t).packages);
        lemma_extends_trans(s.dependencies, s2.dependencies, spec_scan(s, t).dependencies);
    }
}

/// Scanning path dependencies only adds packages and dependencies.
proof fn lemma_scan_edges_grows(s: SolverView, p: usize, t: PackageTree, i: int)
    ensures
        extends(s.packages, spec_scan_edges(s, p, t, i).packages),
        extends(s.dependencies, spec_scan_edges(s, p, t, i).dependencies),
    decreases t, t.path_dependencies@.len() - i,
{
    if 0 <= i < t.path_dependencies@.len() {
        let e = t.path_dependencies@[i];
        let (s1, c) = spec_intern_package(s, e.1.id@);
        lemma_seq_intern(s.packages, e.1.id@);
        let table = match s1.path_dependencies[p as int] {
            Some(tb) => tb,
            None => Seq::empty(),
        };
        let s2 = SolverView {
            path_dependencies: s1.path_dependencies.update(p as int, Some(spec_table_insert(table, e.0@.path.unwrap(), c))),
            ..s1
        };
        lemma_scan_grows(s2, e.1);
        let s3 = spec_scan(s2, e.1);
        lemma_scan_edges_grows(s3, p, t, i + 1);
        lemma_extends_trans(s.packages, s2.packages, s3.packages);
        lemma_extends_trans(s.packages, s3.packages, spec_scan_edges(s3, p, t, i + 1).packages);
        lemma_extends_trans(s.dependencies, s3.dependencies, spec_scan_edges(s3, p, t, i + 1).dependencies);
    }
}


/// What holds of the solver while the tree `t` is scanned, the packages with ids in `busy`
/// having their path dependencies scanned: the tables have one entry per package and no
/// package twice, a package with a path table has an analysis, every analysis refers to
/// dependencies of the table, and each analysed package of the tree that is not busy is
/// known as the tree has it.
pub open spec fn scan_inv(s: SolverView, t: PackageTree, busy: Set<Seq<char>>) -> bool {
    &&& s.analysis.len() == s.packages.len()
    &&& s.path_dependencies.len() == s.packages.len()
    &&& distinct(s.packages)
    &&& forall|q: int| 0 <= q < s.packages.len() && (#[trigger] s.path_dependencies[q]) is Some ==> s.analysis[q] is Some
    &&& forall|q: usize, k: int| q < s.packages.len() && s.analysis[q as int] is Some && 0 <= k < analysis_deps(s, q).len()
            ==> #[trigger] analysis_deps(s, q)[k] < s.dependencies.len()
    &&& forall|q: usize, v: PackageTree| #![trigger within(v, t), s.packages[q as int]]
            q < s.packages.len() && within(v, t) && v.id@ == s.packages[q as int] && s.analysis[q as int] is Some && !busy.contains(v.id@)
            ==> tree_matches(s, v, q, height(v))
}

/// Interning a package keeps the invariant of scanning, and gives the index of the package.
proof fn lemma_intern_keeps(s: SolverView, id: Seq<char>, t: PackageTree, busy: Set<Seq<char>>)
    requires
        scan_inv(s, t, busy),
        spec_intern_package(s, id).0.packages.len() <= usize::MAX,
    ensures
        ({
            let (s1, p) = spec_intern_package(s, id);
            &&& scan_inv(s1, t, busy)
            &&& knows_more(s, s1)
            &&& p < s1.packages.len()
            &&& s1.packages[p as int] == id
            &&& s1.dependencies == s.dependencies
            &&& forall|q: int| 0 <= q < s.packages.len() ==> s1.path_dependencies[q] == s.path_dependencies[q] && s1.analysis[q] == s.analysis[q]
            &&& s.packages.contains(id) ==> s1 == s
        }),
{
    let (s1, p) = spec_intern_package(s, id);
    lemma_seq_intern(s.packages, id);
    lemma_seq_find(seq_intern(s.packages, id), id);
    if !s.packages.contains(id) {
        assert(distinct(s1.packages)) by {
            assert forall|i: int, j: int| 0 <= i < s1.packages.len() && 0 <= j < s1.packages.len() && i != j implies s1.packages[i] != s1.packages[j] by {
                if i < s.packages.len() && j < s.packages.len() {
                    assert(s1.packages[i] == s.packages[i] && s1.packages[j] == s.packages[j]);
                } else if i < s.packages.len() {
                    assert(s1.packages[i] == s.packages[i]);
                    assert(s.packages.contains(s.packages[i]));
                } else if j < s.packages.len() {
                    assert(s1.packages[j] == s.packages[j]);
                    assert(s.packages.contains(s.packages[j]));
                }
            }
        }
        assert(knows_more(s, s1)) by {
            assert forall|q: usize| q < s.analysis.len() && (#[trigger] s.analysis[q as int]) is Some
                implies s1.analysis[q as int] is Some && keys_of(s1, q) == keys_of(s, q) by {
                assert(s1.analysis[q as int] == s.analysis[q as int]);
                assert(analysis_deps(s1, q) == analysis_deps(s, q));
                assert(keys_of(s1, q) =~= keys_of(s, q));
            }
            assert forall|q: usize, path: Seq<char>| q < s.path_dependencies.len() && s.path_dependencies[q as int] is Some
                && (#[trigger] spec_path_lookup(s.path_dependencies[q as int].unwrap(), path)) is Some
                implies spec_path_lookup(s1.path_dependencies[q as int].unwrap(), path) == spec_path_lookup(s.path_dependencies[q as int].unwrap(), path) by {
                assert(s1.path_dependencies[q as int] == s.path_dependencies[q as int]);
            }
        }
        assert forall|q: usize, k: int| q < s1.packages.len() && s1.analysis[q as int] is Some && 0 <= k < analysis_deps(s1, q).len()
            implies #[trigger] analysis_deps(s1, q)[k] < s1.dependencies.len() by {
            assert(s1.analysis[q as int] == s.analysis[q as int]);
        }
        assert forall|q: usize, v: PackageTree| #![trigger within(v, t), s1.packages[q as int]]
            q < s1.packages.len() && within(v, t) && v.id@ == s1.packages[q as int] && s1.analysis[q as int] is Some && !busy.contains(v.id@)
            implies tree_matches(s1, v, q, height(v)) by {
            assert(s1.analysis[q as int] == s.analysis[q as int]);
            assert(s1.packages[q as int] == s.packages[q as int]);
            lemma_tree_matches_more(s, s1, v, q, height(v));
        }
    } else {
        lemma_knows_more_refl(s);
    }
}


/// For each path dependency `j` of `u` before `i`, the path table of `p` maps its path to the
/// package of its tree, which has an analysis.
pub open spec fn edges_entered(s: SolverView, p: usize, u: PackageTree, i: int) -> bool {
    forall|j: int| 0 <= j < i ==> exists|c: usize| {
        &&& spec_path_lookup(s.path_dependencies[p as int].unwrap(), (#[trigger] u.path_dependencies@[j]).0@.path.unwrap()) == Some(c)
        &&& c < s.packages.len()
        &&& s.packages[c as int] == u.path_dependencies@[j].1.id@
        &&& s.analysis[c as int] is Some
    }
}

/// Every path that the path table of `p` finds is the path of one of the first `i` path
/// dependencies of `u`.
pub open spec fn table_from_edges(s: SolverView, p: usize, u: PackageTree, i: int) -> bool {
    forall|path: Seq<char>| #[trigger] spec_path_lookup(s.path_dependencies[p as int].unwrap(), path) is Some
        ==> exists|j: int| 0 <= j < i && (#[trigger] u.path_dependencies@[j]).0@.path == Some(path)
}

/// Scanning the tree `u`, a part of the tree `t` none of whose packages is busy, keeps the
/// invariant, only adds to what the solver knows, leaves the busy packages alone, and ends
/// with `u`'s package analysed.
proof fn lemma_scan_knows(s: SolverView, u: PackageTree, t: PackageTree, busy: Set<Seq<char>>)
    requires
        consistent(t),
        within(u, t),
        scan_inv(s, t, busy),
        forall|w: PackageTree| #[trigger] within(w, u) ==> !busy.contains(w.id@),
        spec_scan(s, u).packages.len() <= usize::MAX,
        spec_scan(s, u).dependencies.len() <= usize::MAX,
    ensures
        scan_inv(spec_scan(s, u), t, busy),
        knows_more(s, spec_scan(s, u)),
        forall|q: int| 0 <= q < s.packages.len() && busy.contains(s.packages[q])
            ==> spec_scan(s, u).path_dependencies[q] == s.path_dependencies[q] && spec_scan(s, u).analysis[q] == s.analysis[q],
        forall|q: int| 0 <= q < spec_scan(s, u).packages.len() && spec_scan(s, u).packages[q] == u.id@ ==> spec_scan(s, u).analysis[q] is Some,
        spec_scan(s, u).packages.contains(u.id@),
    decreases u, u.path_dependencies@.len() + 1,
{
    let fin = spec_scan(s, u);
    let (s1, p) = spec_intern_package(s, u.id@);
    lemma_scan_grows(s, u);
    assert(within(u, u));
    assert(!busy.contains(u.id@));
    if s1.path_dependencies[p as int] is Some {
        assert(fin == s1);
        lemma_intern_keeps(s, u.id@, t, busy);
        assert forall|q: int| 0 <= q < fin.packages.len() && fin.packages[q] == u.id@ implies fin.analysis[q] is Some by {
            assert(q == p);
        }
        assert(fin.packages[p as int] == u.id@);
    } else {
        let xs = u.dependencies@.map_values(|d: Dependency| d@);
        let metadata = seq_intern(s1.metadata, u.metadata@);
        let mi = seq_find(metadata, u.metadata@).unwrap() as usize;
        let (dependencies, refs) = spec_intern_all(s1.dependencies, xs);
        let s2 = SolverView {
            metadata,
            dependencies,
            analysis: s1.analysis.update(p as int, Some(AnalysisView { metadata: mi, dependencies: refs })),
            current: crate::solution::FrameView {
                working_set: s1.current.working_set + crate::model::children_dependants(p, refs),
                ..s1.current
            },
            ..s1
        };
        assert(fin == spec_scan_edges(s2, p, u, 0));
        lemma_scan_edges_grows(s2, p, u, 0);
        assert(s1.packages.len() <= usize::MAX);
        lemma_intern_keeps(s, u.id@, t, busy);
        assert(s2.dependencies.len() <= usize::MAX);
        lemma_intern_all_values(s1.dependencies, xs);
        crate::solve::lemma_intern_all_grows(s1.dependencies, xs);
        assert(analysis_deps(s2, p) == refs);
        lemma_keys_of_interned(s2, refs, xs);
        assert(keys_of(s2, p) == xs.to_set());
        // What was known stays known.
        assert(knows_more(s1, s2)) by {
            assert forall|q: usize| q < s1.analysis.len() && (#[trigger] s1.analysis[q as int]) is Some
                implies s2.analysis[q as int] is Some && keys_of(s2, q) == keys_of(s1, q) by {
                if q == p {
                    assert(within(u, t) && u.id@ == s1.packages[p as int]);
                    assert(tree_matches(s1, u, p, height(u)));
                } else {
                    lemma_keys_extend(s1, s2, q);
                }
            }
            assert forall|q: usize, path: Seq<char>| q < s1.path_dependencies.len() && s1.path_dependencies[q as int] is Some
                && (#[trigger] spec_path_lookup(s1.path_dependencies[q as int].unwrap(), path)) is Some
                implies spec_path_lookup(s2.path_dependencies[q as int].unwrap(), path) == spec_path_lookup(s1.path_dependencies[q as int].unwrap(), path) by {
            }
        }
        let busy2 = busy.insert(u.id@);
        assert(scan_inv(s2, t, busy2)) by {
            assert forall|q: usize, k: int| q < s2.packages.len() && s2.analysis[q as int] is Some && 0 <= k < analysis_deps(s2, q).len()
                implies #[trigger] analysis_deps(s2, q)[k] < s2.dependencies.len() by {
                if q != p {
                    assert(analysis_deps(s2, q) == analysis_deps(s1, q));
                    assert(analysis_deps(s1, q)[k] < s1.dependencies.len());
                }
            }
            assert forall|q: usize, v: PackageTree| #![trigger within(v, t), s2.packages[q as int]]
                q < s2.packages.len() && within(v, t) && v.id@ == s2.packages[q as int] && s2.analysis[q as int] is Some && !busy2.contains(v.id@)
                implies tree_matches(s2, v, q, height(v)) by {
                assert(q != p);
                assert(s1.analysis[q as int] == s2.analysis[q as int]);
                lemma_tree_matches_more(s1, s2, v, q, height(v));
            }
        }
        assert forall|j: int, w: PackageTree| 0 <= j < u.path_dependencies@.len() && #[trigger] within(w, u.path_dependencies@[j].1)
            implies !busy2.contains(w.id@) by {
            lemma_within_child(w, u, j);
            if w.id@ == u.id@ {
                lemma_within_trans(w, u, t);
                assert(within(u, t));
                assert(w == u);
                lemma_within_height(w, u.path_dependencies@[j].1);
                lemma_height_child(u, j);
            }
        }
        assert(edges_entered(s2, p, u, 0));
        lemma_scan_edges_knows(s2, p, u, 0, t, busy2);
        let fe = fin;
        // The package of `u` is now known as `u` has it.
        assert(tree_matches(fe, u, p, height(u))) by {
            assert(fe.analysis[p as int] == s2.analysis[p as int]);
            assert(keys_of(fe, p) == keys_of(s2, p));
            assert forall|i: int| 0 <= i < u.path_dependencies@.len() implies {
                &&& height(u) > 0
                &&& p < fe.path_dependencies.len()
                &&& fe.path_dependencies[p as int] is Some
                &&& (#[trigger] u.path_dependencies@[i]).0@.path is Some
                &&& spec_path_lookup(fe.path_dependencies[p as int].unwrap(), u.path_dependencies@[i].0@.path.unwrap()) matches Some(c)
                &&& tree_matches(fe, u.path_dependencies@[i].1, c, (height(u) - 1) as nat)
            } by {
                let child = u.path_dependencies@[i].1;
                lemma_height_child(u, i);
                assert(within(u, t));
                let c = choose|c: usize| {
                    &&& spec_path_lookup(fe.path_dependencies[p as int].unwrap(), (#[trigger] u.path_dependencies@[i]).0@.path.unwrap()) == Some(c)
                    &&& c < fe.packages.len()
                    &&& fe.packages[c as int] == u.path_dependencies@[i].1.id@
                    &&& fe.analysis[c as int] is Some
                };
                assert(within(child, child));
                assert(!busy2.contains(child.id@));
                lemma_within_child(child, u, i);
                lemma_within_trans(child, u, t);
                assert(tree_matches(fe, child, c, height(child)));
                lemma_tree_matches_deeper(fe, child, c, height(child), (height(u) - 1) as nat);
            }
        }
        assert(scan_inv(fe, t, busy)) by {
            assert forall|q: usize, v: PackageTree| #![trigger within(v, t), fe.packages[q as int]]
                q < fe.packages.len() && within(v, t) && v.id@ == fe.packages[q as int] && fe.analysis[q as int] is Some && !busy.contains(v.id@)
                implies tree_matches(fe, v, q, height(v)) by {
                if v.id@ == u.id@ {
                    assert(v == u);
                    assert(fe.packages[p as int] == u.id@);
                    assert(q == p);
                } else {
                    assert(!busy2.contains(v.id@));
                }
            }
        }
        lemma_knows_more_trans(s, s1, s2);
        lemma_knows_more_trans(s, s2, fe);
        assert forall|q: int| 0 <= q < fe.packages.len() && fe.packages[q] == u.id@ implies fe.analysis[q] is Some by {
            assert(fe.packages[p as int] == u.id@);
            assert(q == p);
        }
        assert(fe.packages[p as int] == u.id@);
        assert forall|q: int| 0 <= q < s.packages.len() && busy.contains(s.packages[q])
            implies fe.path_dependencies[q] == s.path_dependencies[q] && fe.analysis[q] == s.analysis[q] by {
            assert(q != p);
            assert(s2.packages[q] == s.packages[q]);
        }
    }
}

/// Scanning the path dependencies of `u` (package `p`, busy) from the `i`th on enters each
/// in the path table of `p` and scans its tree, keeping the invariant and leaving the other
/// busy packages alone.
proof fn lemma_scan_edges_knows(s: SolverView, p: usize, u: PackageTree, i: int, t: PackageTree, busy: Set<Seq<char>>)
    requires
        consistent(t),
        within(u, t),
        scan_inv(s, t, busy),
        busy.contains(u.id@),
        forall|j: int, w: PackageTree| 0 <= j < u.path_dependencies@.len() && #[trigger] within(w, u.path_dependencies@[j].1) ==> !busy.contains(w.id@),
        p < s.packages.len(),
        s.packages[p as int] == u.id@,
        s.analysis[p as int] is Some,
        0 <= i <= u.path_dependencies@.len(),
        (s.path_dependencies[p as int] is Some) == (i > 0),
        edges_entered(s, p, u, i),
        i > 0 ==> table_from_edges(s, p, u, i),
        spec_scan_edges(s, p, u, i).packages.len() <= usize::MAX,
        spec_scan_edges(s, p, u, i).dependencies.len() <= usize::MAX,
    ensures
        scan_inv(spec_scan_edges(s, p, u, i), t, busy),
        knows_more(s, spec_scan_edges(s, p, u, i)),
        forall|q: int| 0 <= q < s.packages.len() && q != p && busy.contains(s.packages[q])
            ==> spec_scan_edges(s, p, u, i).path_dependencies[q] == s.path_dependencies[q]
                && spec_scan_edges(s, p, u, i).analysis[q] == s.analysis[q],
        spec_scan_edges(s, p, u, i).analysis[p as int] == s.analysis[p as int],
        u.path_dependencies@.len() > 0 ==> spec_scan_edges(s, p, u, i).path_dependencies[p as int] is Some,
        edges_entered(spec_scan_edges(s, p, u, i), p, u, u.path_dependencies@.len() as int),
    decreases u, u.path_dependencies@.len() - i,
{
    if i >= u.path_dependencies@.len() {
        lemma_knows_more_refl(s);
    } else {
        let fin = spec_scan_edges(s, p, u, i);
        let e = u.path_dependencies@[i];
        let child = e.1;
        let path = e.0@.path.unwrap();
        let (s1, c) = spec_intern_package(s, child.id@);
        let table = match s1.path_dependencies[p as int] {
            Some(tb) => tb,
            None => Seq::empty(),
        };
        let s2 = SolverView {
            path_dependencies: s1.path_dependencies.update(p as int, Some(spec_table_insert(table, path, c))),
            ..s1
        };
        let s3 = spec_scan(s2, child);
        assert(fin == spec_scan_edges(s3, p, u, i + 1));
        lemma_scan_grows(s2, child);
        lemma_scan_edges_grows(s3, p, u, i + 1);
        lemma_intern_keeps(s, child.id@, t, busy);
        assert(s1.packages.len() <= usize::MAX);
        assert(within(u, t));
        assert(e.0@.path is Some);
        // Entering the path keeps what the table found.
        assert forall|path2: Seq<char>| #[trigger] spec_path_lookup(table, path2) is Some
            implies spec_path_lookup(spec_table_insert(table, path, c), path2) == spec_path_lookup(table, path2) by {
            lemma_lookup_insert(table, path, c, path2);
            if path2 == path {
                assert(i > 0);
                assert(table == s.path_dependencies[p as int].unwrap());
                let j = choose|j: int| 0 <= j < i && (#[trigger] u.path_dependencies@[j]).0@.path == Some(path2);
                assert(u.path_dependencies@[j].1.id@ == child.id@);
                let cj = choose|cj: usize| {
                    &&& spec_path_lookup(s.path_dependencies[p as int].unwrap(), (#[trigger] u.path_dependencies@[j]).0@.path.unwrap()) == Some(cj)
                    &&& cj < s.packages.len()
                    &&& s.packages[cj as int] == u.path_dependencies@[j].1.id@
                    &&& s.analysis[cj as int] is Some
                };
                assert(s1.packages[cj as int] == child.id@);
                assert(cj == c);
            }
        }
        assert(knows_more(s1, s2)) by {
            assert forall|q: usize| q < s1.analysis.len() && (#[trigger] s1.analysis[q as int]) is Some
                implies s2.analysis[q as int] is Some && keys_of(s2, q) == keys_of(s1, q) by {
                assert(keys_of(s2, q) =~= keys_of(s1, q));
            }
            assert forall|q: usize, path2: Seq<char>| q < s1.path_dependencies.len() && s1.path_dependencies[q as int] is Some
                && (#[trigger] spec_path_lookup(s1.path_dependencies[q as int].unwrap(), path2)) is Some
                implies spec_path_lookup(s2.path_dependencies[q as int].unwrap(), path2) == spec_path_lookup(s1.path_dependencies[q as int].unwrap(), path2) by {
                if q == p {
                    assert(spec_path_lookup(table, path2) is Some);
                }
            }
        }
        assert(scan_inv(s2, t, busy)) by {
            assert forall|q: usize, k: int| q < s2.packages.len() && s2.analysis[q as int] is Some && 0 <= k < analysis_deps(s2, q).len()
                implies #[trigger] analysis_deps(s2, q)[k] < s2.dependencies.len() by {
                assert(analysis_deps(s2, q) == analysis_deps(s1, q));
            }
            assert forall|q: usize, v: PackageTree| #![trigger within(v, t), s2.packages[q as int]]
                q < s2.packages.len() && within(v, t) && v.id@ == s2.packages[q as int] && s2.analysis[q as int] is Some && !busy.contains(v.id@)
                implies tree_matches(s2, v, q, height(v)) by {
                lemma_tree_matches_more(s1, s2, v, q, height(v));
            }
            assert forall|q: int| 0 <= q < s2.packages.len() && (#[trigger] s2.path_dependencies[q]) is Some implies s2.analysis[q] is Some by {
                if q != p {
                    assert(s1.path_dependencies[q] is Some);
                }
            }
        }
        lemma_lookup_insert(table, path, c, path);
        lemma_within_child(child, u, i);
        lemma_within_trans(child, u, t);
        assert forall|w: PackageTree| #[trigger] within(w, child) implies !busy.contains(w.id@) by {
            assert(within(w, u.path_dependencies@[i].1));
        }
        assert(s3.packages.len() <= usize::MAX);
        assert(s3.dependencies.len() <= usize::MAX);
        lemma_scan_knows(s2, child, t, busy);
        // The package of `u` is busy, so scanning the child leaves its table alone.
        assert(s3.path_dependencies[p as int] == s2.path_dependencies[p as int]);
        assert(s3.analysis[p as int] == s2.analysis[p as int]);
        assert(s3.packages[c as int] == child.id@);
        assert(s3.analysis[c as int] is Some);
        assert(edges_entered(s3, p, u, i + 1)) by {
            assert forall|j: int| 0 <= j < i + 1 implies exists|cc: usize| {
                &&& spec_path_lookup(s3.path_dependencies[p as int].unwrap(), (#[trigger] u.path_dependencies@[j]).0@.path.unwrap()) == Some(cc)
                &&& cc < s3.packages.len()
                &&& s3.packages[cc as int] == u.path_dependencies@[j].1.id@
                &&& s3.analysis[cc as int] is Some
            } by {
                if j < i {
                    let cj = choose|cj: usize| {
                        &&& spec_path_lookup(s.path_dependencies[p as int].unwrap(), (#[trigger] u.path_dependencies@[j]).0@.path.unwrap()) == Some(cj)
                        &&& cj < s.packages.len()
                        &&& s.packages[cj as int] == u.path_dependencies@[j].1.id@
                        &&& s.analysis[cj as int] is Some
                    };
                    let pj = u.path_dependencies@[j].0@.path.unwrap();
                    assert(spec_path_lookup(table, pj) == Some(cj));
                    assert(spec_path_lookup(s2.path_dependencies[p as int].unwrap(), pj) == Some(cj));
                    assert(s3.packages[cj as int] == s.packages[cj as int]);
                    assert(s2.analysis[cj as int] is Some);
                } else {
                    assert(spec_path_lookup(s3.path_dependencies[p as int].unwrap(), path) == Some(c));
                }
            }
        }
        assert(table_from_edges(s3, p, u, i + 1)) by {
            assert forall|path2: Seq<char>| #[trigger] spec_path_lookup(s3.path_dependencies[p as int].unwrap(), path2) is Some
                implies exists|j: int| 0 <= j < i + 1 && (#[trigger] u.path_dependencies@[j]).0@.path == Some(path2) by {
                lemma_lookup_insert(table, path, c, path2);
                if path2 != path {
                    assert(spec_path_lookup(table, path2) is Some);
                    if i == 0 {
                        assert(table == Seq::<(Seq<char>, usize)>::empty());
                    }
                    let j = choose|j: int| 0 <= j < i && (#[trigger] u.path_dependencies@[j]).0@.path == Some(path2);
                } else {
                    assert(u.path_dependencies@[i].0@.path == Some(path2));
                }
            }
        }
        lemma_scan_edges_knows(s3, p, u, i + 1, t, busy);
        lemma_knows_more_trans(s, s1, s2);
        lemma_knows_more_trans(s, s2, s3);
        lemma_knows_more_trans(s, s3, fin);
        assert forall|q: int| 0 <= q < s.packages.len() && q != p && busy.contains(s.packages[q])
            implies fin.path_dependencies[q] == s.path_dependencies[q] && fin.analysis[q] == s.analysis[q] by {
            assert(s2.packages[q] == s.packages[q]);
            assert(s3.packages[q] == s.packages[q]);
        }
    }
}


/// Scanning a consistent package tree into a solver that knows nothing yet tells the solver
/// the tree: the root's package (the one `Solver::scan` interns for the root's id) is known
/// as the tree has it, its dependencies and, through the paths of its path dependencies,
/// the packages of those, as deep as the tree goes. The sizes bound the tables to what
/// memory can index.
pub proof fn law_scan_knows_tree(t: PackageTree)
    requires
        consistent(t),
        spec_scan(spec_initial(), t).packages.len() <= usize::MAX,
        spec_scan(spec_initial(), t).dependencies.len() <= usize::MAX,
    ensures
        seq_find(spec_scan(spec_initial(), t).packages, t.id@) matches Some(q)
            && tree_matches(spec_scan(spec_initial(), t), t, q as usize, height(t)),
{
    let s0 = spec_initial();
    let busy = Set::<Seq<char>>::empty();
    assert(scan_inv(s0, t, busy));
    assert(within(t, t));
    lemma_scan_knows(s0, t, t, busy);
    let s = spec_scan(s0, t);
    lemma_seq_find(s.packages, t.id@);
    let q = seq_find(s.packages, t.id@).unwrap();
    assert(s.analysis[q] is Some);
    assert(s.packages[q as usize as int] == t.id@);
    assert(tree_matches(s, t, q as usize, height(t)));
}


/// Every package of a tree that the solver knows is among the solver's packages.
proof fn lemma_matched_ids_known(s: SolverView, v: PackageTree, q: usize, depth: nat)
    requires
        tree_matches(s, v, q, depth),
    ensures
        forall|w: PackageTree| #[trigger] within(w, v) ==> s.packages.contains(w.id@),
    decreases v,
{
    assert forall|w: PackageTree| #[trigger] within(w, v) implies s.packages.contains(w.id@) by {
        if w == v {
            assert(s.packages[q as int] == v.id@);
        } else {
            let i = choose|i: int| 0 <= i < v.path_dependencies@.len() && within(w, #[trigger] v.path_dependencies@[i].1);
            let c = spec_path_lookup(s.path_dependencies[q as int].unwrap(), v.path_dependencies@[i].0@.path.unwrap()).unwrap();
            lemma_matched_ids_known(s, v.path_dependencies@[i].1, c, (depth - 1) as nat);
        }
    }
}

/// Some path dependency of `t` from the `i`th on has a tree exactly one lower than
/// `height_from(t, i)`.
proof fn lemma_height_from_max(t: PackageTree, i: int)
    requires
        0 <= i < t.path_dependencies@.len(),
    ensures
        exists|j: int| i <= j < t.path_dependencies@.len() && height_from(t, i) == height(#[trigger] t.path_dependencies@[j].1) + 1,
    decreases t.path_dependencies@.len() - i,
{
    if i + 1 < t.path_dependencies@.len() {
        lemma_height_from_max(t, i + 1);
        if height(t.path_dependencies@[i].1) + 1 > height_from(t, i + 1) {
            assert(height_from(t, i) == height(t.path_dependencies@[i].1) + 1);
        }
    } else {
        assert(height_from(t, i + 1) == 0);
        assert(height_from(t, i) == height(t.path_dependencies@[i].1) + 1);
    }
}

/// A tree of a consistent tree, whose packages are all among `pk` and none among `a`, is
/// lower than the number of packages in `pk` besides those of `a`: its longest chain of path
/// dependencies passes through packages with distinct ids.
proof fn lemma_height_bound(root: PackageTree, v: PackageTree, a: Set<Seq<char>>, pk: Seq<Seq<char>>)
    requires
        consistent(root),
        within(v, root),
        a.finite(),
        a.subset_of(pk.to_set()),
        distinct(pk),
        forall|w: PackageTree| #[trigger] within(w, v) ==> pk.contains(w.id@) && !a.contains(w.id@),
    ensures
        height(v) + 1 + a.len() <= pk.len(),
    decreases v,
{
    broadcast use vstd::set::group_set_axioms;
    assert(within(v, v));
    let a2 = a.insert(v.id@);
    assert(a2.len() == a.len() + 1);
    assert(a2.subset_of(pk.to_set()));
    if v.path_dependencies@.len() == 0 {
        assert(height(v) == 0);
        assert(pk.no_duplicates());
        pk.unique_seq_to_set();
        vstd::set_lib::lemma_len_subset(a2, pk.to_set());
    } else {
        lemma_height_from_max(v, 0);
        let j = choose|j: int| 0 <= j < v.path_dependencies@.len() && height_from(v, 0) == height(#[trigger] v.path_dependencies@[j].1) + 1;
        let child = v.path_dependencies@[j].1;
        lemma_within_child(child, v, j);
        lemma_within_trans(child, v, root);
        assert forall|w: PackageTree| #[trigger] within(w, child) implies pk.contains(w.id@) && !a2.contains(w.id@) by {
            lemma_within_child(w, v, j);
            if w.id@ == v.id@ {
                lemma_within_trans(w, v, root);
                assert(w == v);
                lemma_within_height(w, child);
                lemma_height_child(v, j);
            }
        }
        lemma_height_bound(root, child, a2, pk);
    }
}

/// Scanning keeps a table of dependencies without repeats without repeats.
proof fn lemma_scan_keeps_distinct(s: SolverView, t: PackageTree)
    requires
        distinct(s.dependencies),
    ensures
        distinct(spec_scan(s, t).dependencies),
    decreases t, t.path_dependencies@.len() + 1,
{
    let (s1, p) = spec_intern_package(s, t.id@);
    if s1.path_dependencies[p as int] is None {
        let xs = t.dependencies@.map_values(|d: Dependency| d@);
        let (dependencies, refs) = spec_intern_all(s1.dependencies, xs);
        lemma_intern_all_distinct(s1.dependencies, xs);
        let s2 = SolverView {
            metadata: seq_intern(s1.metadata, t.metadata@),
            dependencies,
            analysis: s1.analysis.update(p as int, Some(AnalysisView { metadata: seq_find(seq_intern(s1.metadata, t.metadata@), t.metadata@).unwrap() as usize, dependencies: refs })),
            current: crate::solution::FrameView {
                working_set: s1.current.working_set + crate::model::children_dependants(p, refs),
                ..s1.current
            },
            ..s1
        };
        assert(spec_scan(s, t) == spec_scan_edges(s2, p, t, 0));
        lemma_scan_edges_keeps_distinct(s2, p, t, 0);
    }
}

/// Scanning path dependencies keeps a table of dependencies without repeats without repeats.
proof fn lemma_scan_edges_keeps_distinct(s: SolverView, p: usize, t: PackageTree, i: int)
    requires
        distinct(s.dependencies),
    ensures
        distinct(spec_scan_edges(s, p, t, i).dependencies),
    decreases t, t.path_dependencies@.len() - i,
{
    if 0 <= i < t.path_dependencies@.len() {
        let e = t.path_dependencies@[i];
        let (s1, c) = spec_intern_package(s, e.1.id@);
        let table = match s1.path_dependencies[p as int] {
            Some(tb) => tb,
            None => Seq::empty(),
        };
        let s2 = SolverView {
            path_dependencies: s1.path_dependencies.update(p as int, Some(spec_table_insert(table, e.0@.path.unwrap(), c))),
            ..s1
        };
        lemma_scan_keeps_distinct(s2, e.1);
        lemma_scan_edges_keeps_distinct(spec_scan(s2, e.1), p, t, i + 1);
    }
}

/// The solver after taking a step for each response of `resps` in turn.
pub open spec fn spec_run(s: SolverView, resps: Seq<Option<ResponseView>>) -> SolverView
    decreases resps.len(),
{
    if resps.len() == 0 {
        s
    } else {
        spec_run(spec_step(s, resps[0]).0, resps.drop_first())
    }
}

/// Any run of steps keeps the references valid, the packages and dependencies at their
/// indices and without repeats, and what the solver knows of a package tree.
pub proof fn law_run_keeps_tree_matches(s: SolverView, resps: Seq<Option<ResponseView>>, t: PackageTree, p: usize, depth: nat)
    requires
        refs_valid(s),
        distinct(s.packages),
        distinct(s.dependencies),
        tree_matches(s, t, p, depth),
    ensures
        refs_valid(spec_run(s, resps)),
        distinct(spec_run(s, resps).packages),
        distinct(spec_run(s, resps).dependencies),
        extends(s.packages, spec_run(s, resps).packages),
        tree_matches(spec_run(s, resps), t, p, depth),
    decreases resps.len(),
{
    if resps.len() > 0 {
        let s1 = spec_step(s, resps[0]).0;
        law_step_keeps_references(s, resps[0]);
        law_step_keeps_tables(s, resps[0]);
        law_step_keeps_tree_matches(s, resps[0], t, p, depth);
        law_run_keeps_tree_matches(s1, resps.drop_first(), t, p, depth);
        lemma_extends_trans(s.packages, s1.packages, spec_run(s, resps).packages);
    }
}

/// Reading back the lockfile of a solved package: scan a consistent package tree that has
/// path dependencies into a solver that knows nothing yet, take any steps of the search,
/// and create the lockfile; then the lockfile holds a lock for the tree's package that
/// records the choices of the solution (see `law_lockfile_records_choices`) and that fits
/// the tree, read with any fuel above the number of packages. The sizes bound the tables to
/// what memory can index.
pub proof fn law_solved_lockfile_fits_tree(t: PackageTree, resps: Seq<Option<ResponseView>>)
    requires
        consistent(t),
        t.path_dependencies@.len() > 0,
        spec_scan(spec_initial(), t).packages.len() <= usize::MAX,
        spec_scan(spec_initial(), t).dependencies.len() <= usize::MAX,
    ensures
        ({
            let s = spec_run(spec_scan(spec_initial(), t), resps);
            &&& seq_find(s.packages, t.id@) matches Some(q)
            &&& spec_lock_roots(s, 0, Seq::empty()) matches Ok(l) ==> exists|j: nat| {
                &&& #[trigger] records_choices(s, l, j, q as usize, s.packages.len())
                &&& forall|fuel: nat| fuel > s.packages.len() ==> #[trigger] spec_fits(t, l, j, fuel) == Ok::<bool, ReadError>(true)
            }
        }),
{
    let s0 = spec_initial();
    let busy = Set::<Seq<char>>::empty();
    assert(scan_inv(s0, t, busy));
    assert(within(t, t));
    lemma_scan_knows(s0, t, t, busy);
    let s1 = spec_scan(s0, t);
    lemma_seq_find(s1.packages, t.id@);
    let q = seq_find(s1.packages, t.id@).unwrap();
    assert(s1.packages[q as usize as int] == t.id@);
    assert(tree_matches(s1, t, q as usize, height(t)));
    law_initial_references();
    law_scan_keeps_references(s0, t);
    lemma_scan_keeps_distinct(s0, t);
    let s = spec_run(s1, resps);
    law_run_keeps_tree_matches(s1, resps, t, q as usize, height(t));
    lemma_seq_find(s.packages, t.id@);
    assert(s.packages[q] == t.id@);
    assert(seq_find(s.packages, t.id@) == Some(q)) by {
        let f = seq_find(s.packages, t.id@).unwrap();
        if f != q {
            assert(s.packages[f] == s.packages[q]);
        }
    }
    lemma_matched_ids_known(s, t, q as usize, height(t));
    assert(Set::<Seq<char>>::empty().subset_of(s.packages.to_set()));
    lemma_height_bound(t, t, Set::<Seq<char>>::empty(), s.packages);
    lemma_tree_matches_deeper(s, t, q as usize, height(t), s.packages.len());
    assert(t.path_dependencies@[0] == t.path_dependencies@[0]);
    assert(s.path_dependencies[q] is Some);
    law_lockfile_fits_tree(s, t, q as usize);
}


/// Any run of steps keeps the solver closed over `roots`.
proof fn lemma_run_keeps_closure(s: SolverView, resps: Seq<Option<ResponseView>>, roots: Set<crate::solution::Dependant>)
    requires
        refs_valid(s),
        crate::soundness::closed(s, roots),
    ensures
        crate::soundness::closed(spec_run(s, resps), roots),
    decreases resps.len(),
{
    if resps.len() > 0 {
        law_step_keeps_references(s, resps[0]);
        crate::soundness::law_step_keeps_closure(s, resps[0], roots);
        lemma_run_keeps_closure(spec_step(s, resps[0]).0, resps.drop_first(), roots);
    }
}

/// Any run of the search from a freshly scanned package tree keeps the solution closed over
/// the dependants that scanning put in the working set; once the run is done, no dependant
/// is left tentatively marked, every scanned dependant is marked, and every package settled
/// for a dependant has every dependency marked, so creating the lockfile meets no missing or
/// temporary mark.
pub proof fn law_run_from_scan_is_closed(t: PackageTree, resps: Seq<Option<ResponseView>>)
    ensures
        ({
            let s0 = spec_scan(spec_initial(), t);
            let roots = s0.current.working_set.to_set();
            let s = spec_run(s0, resps);
            &&& crate::soundness::closed(s, roots)
            &&& crate::solution::spec_next_dependant(s.current) is None ==> {
                &&& forall|d: crate::solution::Dependant| #[trigger] s.current.solution.partial.contains_key(d)
                        ==> !(s.current.solution.partial[d] is Temporary)
                &&& forall|d: crate::solution::Dependant| #[trigger] roots.contains(d) ==> s.current.solution.partial.contains_key(d)
                &&& forall|d: crate::solution::Dependant| #[trigger] s.current.solution.partial.contains_key(d)
                        && crate::soundness::settled_package(s.current.solution.partial[d]) is Some
                        ==> crate::soundness::children_marked(s, s.current.solution, crate::soundness::settled_package(s.current.solution.partial[d]).unwrap())
            }
        }),
{
    let s0 = spec_scan(spec_initial(), t);
    crate::soundness::law_scan_keeps_solution(spec_initial(), t);
    assert(s0.current.solution.partial.dom() =~= Set::empty());
    assert(s0.current.solution.permanent.dom() =~= Set::empty());
    crate::soundness::law_fresh_is_closed(s0);
    law_initial_references();
    law_scan_keeps_references(spec_initial(), t);
    let roots = s0.current.working_set.to_set();
    lemma_run_keeps_closure(s0, resps, roots);
    let s = spec_run(s0, resps);
    if crate::solution::spec_next_dependant(s.current) is None {
        crate::soundness::law_done_is_closed(s, roots);
    }
}


/// The registry answered honestly through the first steps of a run, and the tables stayed
/// small enough to be indexed: every state of the run, after each of its first `n` steps
/// and before any, meets `fits` and `published_honest`.
pub open spec fn honest_run(s: SolverView, resps: Seq<Option<ResponseView>>) -> bool {
    forall|k: int| 0 <= k <= resps.len() ==> {
        &&& crate::soundness::fits(#[trigger] spec_run(s, resps.take(k)))
        &&& crate::soundness::published_honest(spec_run(s, resps.take(k)))
    }
}

/// Any run of steps, with the registry honest throughout, keeps the solver sound.
proof fn lemma_run_keeps_soundness(s: SolverView, resps: Seq<Option<ResponseView>>)
    requires
        refs_valid(s),
        crate::soundness::sound(s),
        honest_run(s, resps),
    ensures
        crate::soundness::sound(spec_run(s, resps)),
    decreases resps.len(),
{
    if resps.len() > 0 {
        let s1 = spec_step(s, resps[0]).0;
        assert(resps.take(0) =~= Seq::<Option<ResponseView>>::empty());
        assert(spec_run(s, resps.take(0)) == s);
        assert(resps.take(1).drop_first() =~= Seq::<Option<ResponseView>>::empty());
        assert(resps.take(1)[0] == resps[0]);
        assert(spec_run(s1, resps.take(1).drop_first()) == s1);
        assert(spec_run(s, resps.take(1)) == s1);
        law_step_keeps_references(s, resps[0]);
        crate::soundness::law_step_keeps_soundness(s, resps[0]);
        let rest = resps.drop_first();
        assert forall|k: int| 0 <= k <= rest.len() implies {
            &&& crate::soundness::fits(#[trigger] spec_run(s1, rest.take(k)))
            &&& crate::soundness::published_honest(spec_run(s1, rest.take(k)))
        } by {
            assert(resps.take(k + 1).drop_first() =~= rest.take(k));
            assert(resps.take(k + 1)[0] == resps[0]);
            assert(spec_run(s, resps.take(k + 1)) == spec_run(s1, rest.take(k)));
        }
        lemma_run_keeps_soundness(s1, rest);
    }
}

/// Any run of the search from a freshly scanned package tree, with the registry honest
/// throughout, leaves the solver sound: every registry dependency settled with a package,
/// or tried with one, gets a package of its name whose version satisfies its constraint,
/// as the package's metadata says, in the current frame and in every saved one.
pub proof fn law_run_from_scan_is_sound(t: PackageTree, resps: Seq<Option<ResponseView>>)
    requires
        honest_run(spec_scan(spec_initial(), t), resps),
    ensures
        crate::soundness::sound(spec_run(spec_scan(spec_initial(), t), resps)),
{
    let s0 = spec_scan(spec_initial(), t);
    crate::soundness::law_scan_keeps_solution(spec_initial(), t);
    assert(s0.current.solution.partial.dom() =~= Set::empty());
    assert(s0.current.solution.permanent.dom() =~= Set::empty());
    crate::soundness::law_fresh_is_sound(s0);
    law_initial_references();
    law_scan_keeps_references(spec_initial(), t);
    lemma_run_keeps_soundness(s0, resps);
}

} // verus!
