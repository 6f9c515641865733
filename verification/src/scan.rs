//! Seeding the solver with a package and its path dependencies: each package's analysis
//! is recorded, its dependants join the working set, and each package that has path
//! dependencies gets a path table.

use vstd::prelude::*;
use crate::collections::{index_map_new, index_stack_new, pair_stack_new, pair_stack_push};
use crate::dependency::{Dependency, Metadata, SpecDependency, StringTable, seq_find, seq_intern};
use crate::model::{AnalysisView, SolverView, children_dependants, spec_intern_all, spec_intern_package};
use crate::solution::{Frame, FrameView, Solution, spec_empty_solution};
use crate::solve::{Analysis, Solver, lemma_intern_all_push};

verus! {

/// A package with the packages of its path dependencies, as read from disk.
pub struct PackageTree {
    /// The package's id.
    pub id: String,
    /// The package's metadata.
    pub metadata: Metadata,
    /// The package's dependencies.
    pub dependencies: Vec<Dependency>,
    /// Each path dependency with the tree of the package it names.
    pub path_dependencies: Vec<(Dependency, PackageTree)>,
}

/// Every path dependency in the tree has a path.
pub open spec fn tree_paths_given(t: PackageTree) -> bool
    decreases t,
{
    forall|i: int| 0 <= i < t.path_dependencies@.len() ==> {
        &&& (#[trigger] t.path_dependencies@[i]).0.path is Some
        &&& tree_paths_given(t.path_dependencies@[i].1)
    }
}

/// `table` with `path` mapped to `c`: the entry with that path is replaced, or a new entry
/// is added at the end.
pub open spec fn spec_table_insert(table: Seq<(Seq<char>, usize)>, path: Seq<char>, c: usize) -> Seq<(Seq<char>, usize)> {
    match seq_find(table.map_values(|e: (Seq<char>, usize)| e.0), path) {
        Some(k) => table.update(k, (path, c)),
        None => table.push((path, c)),
    }
}

/// The solver after scanning the tree `t`: its package is interned; unless it already has a
/// path table, its analysis is recorded with all its dependencies, its dependants are added
/// to the working set, and its path dependencies are scanned in turn.
pub open spec fn spec_scan(s: SolverView, t: PackageTree) -> SolverView
    decreases t, t.path_dependencies@.len() + 1,
{
    let (s1, p) = spec_intern_package(s, t.id@);
    if s1.path_dependencies[p as int] is Some {
        s1
    } else {
        let metadata = seq_intern(s1.metadata, t.metadata@);
        let mi = seq_find(metadata, t.metadata@).unwrap() as usize;
        let (dependencies, refs) = spec_intern_all(s1.dependencies, t.dependencies@.map_values(|d: Dependency| d@));
        let s2 = SolverView {
            metadata,
            dependencies,
            analysis: s1.analysis.update(p as int, Some(AnalysisView { metadata: mi, dependencies: refs })),
            current: FrameView {
                working_set: s1.current.working_set + children_dependants(p, refs),
                ..s1.current
            },
            ..s1
        };
        spec_scan_edges(s2, p, t, 0)
    }
}

/// Scanning the path dependencies of package `p` (the package of `t`) from the `i`th on:
/// each is entered in the path table of `p` and then scanned.
pub open spec fn spec_scan_edges(s: SolverView, p: usize, t: PackageTree, i: int) -> SolverView
    decreases t, t.path_dependencies@.len() - i,
{
    if i < 0 || i >= t.path_dependencies@.len() {
        s
    } else {
        let e = t.path_dependencies@[i];
        let (s1, c) = spec_intern_package(s, e.1.id@);
        let table = match s1.path_dependencies[p as int] {
            Some(tb) => tb,
            None => Seq::empty(),
        };
        let s2 = SolverView {
            path_dependencies: s1.path_dependencies.update(p as int, Some(spec_table_insert(table, e.0@.path.unwrap(), c))),
            ..s1
        };
        spec_scan_edges(spec_scan(s2, e.1), p, t, i + 1)
    }
}

/// The state of a solver that knows nothing yet: no packages, an empty solution and an
/// empty working set.
pub open spec fn spec_initial() -> SolverView {
    SolverView {
        packages: Seq::empty(),
        names: Seq::empty(),
        versions: Seq::empty(),
        dependencies: Seq::empty(),
        metadata: Seq::empty(),
        analysis: Seq::empty(),
        published: Map::empty(),
        path_dependencies: Seq::empty(),
        errors: Seq::empty(),
        frames: Seq::empty(),
        current: FrameView {
            solution: spec_empty_solution(),
            working_set: Seq::empty(),
            remaining_versions: None,
            last_error: None,
        },
        history: Seq::empty(),
    }
}

impl Solver {
    /// A solver that knows nothing yet.
    pub fn new() -> (r: Solver)
        ensures
            r.wf(),
            r@ == spec_initial(),
    {
        let r = Solver {
            packages: StringTable::new(),
            names: StringTable::new(),
            versions: StringTable::new(),
            dependencies: Vec::new(),
            metadata: Vec::new(),
            analysis: Vec::new(),
            published: index_map_new(),
            path_dependencies: Vec::new(),
            errors: Vec::new(),
            frames: Vec::new(),
            current: Frame {
                solution: Solution::empty(),
                working_set: pair_stack_new(),
                remaining_versions: None,
                last_error: None,
            },
            history: index_stack_new(),
        };
        proof {
            assert(r@.dependencies =~= Seq::<SpecDependency>::empty());
            assert(r@.metadata =~= Seq::<crate::dependency::SpecMetadata>::empty());
            assert(r@.analysis =~= Seq::<Option<AnalysisView>>::empty());
            assert(r@.path_dependencies =~= Seq::<Option<Seq<(Seq<char>, usize)>>>::empty());
            assert(r@.errors =~= Seq::<crate::model::SpecError>::empty());
            assert(r@.frames =~= Seq::<FrameView>::empty());
        }
        r
    }

    /// Maps `path` to package `c` in the path table of package `p`.
    fn table_insert(&mut self, p: usize, path: &String, c: usize)
        requires
            old(self).wf(),
            p < old(self)@.packages.len(),
        ensures
            final(self).wf(),
            final(self)@ == (SolverView {
                path_dependencies: old(self)@.path_dependencies.update(p as int, Some(spec_table_insert(
                    match old(self)@.path_dependencies[p as int] {
                        Some(tb) => tb,
                        None => Seq::empty(),
                    },
                    path@,
                    c,
                ))),
                ..old(self)@
            }),
    {
        let ghost s0 = self@;
        let mut table: Vec<(String, usize)> = match &self.path_dependencies[p] {
            Some(t) => clone_table(t),
            None => Vec::new(),
        };
        let ghost tv = table@.map_values(|e: (String, usize)| (e.0@, e.1));
        let ghost keys = tv.map_values(|e: (Seq<char>, usize)| e.0);
        proof {
            crate::dependency::lemma_seq_first_index(keys, path@, 0);
            crate::dependency::lemma_seq_find(keys, path@);
        }
        let mut i: usize = 0;
        let mut found = false;
        while i < table.len()
            invariant
                i <= table.len(),
                tv == table@.map_values(|e: (String, usize)| (e.0@, e.1)),
                keys == tv.map_values(|e: (Seq<char>, usize)| e.0),
                keys.len() == table.len(),
                forall|j: int| 0 <= j < i ==> keys[j] != path@,
                found ==> i < table.len() && keys[i as int] == path@,
            ensures
                i <= table.len(),
                keys.len() == table.len(),
                forall|j: int| 0 <= j < i ==> keys[j] != path@,
                found ==> i < table.len() && keys[i as int] == path@,
                !found ==> i == table.len(),
            decreases table.len() - i,
        {
            if table[i].0 == *path {
                assert(keys[i as int] == tv[i as int].0);
                found = true;
                break;
            }
            assert(keys[i as int] == tv[i as int].0);
            i = i + 1;
        }
        proof {
            crate::dependency::lemma_seq_find(keys, path@);
            crate::dependency::lemma_seq_first_index(keys, path@, 0);
            let f = crate::dependency::seq_first_index(keys, path@, 0);
            if found {
                if f < i {
                    assert(keys[f] == path@);
                }
                assert(keys.contains(path@));
            } else if keys.contains(path@) {
                let k = choose|k: int| 0 <= k < keys.len() && keys[k] == path@;
                assert(keys[k] != path@);
            }
        }
        if found {
            table.set(i, (path.clone(), c));
            proof {
                assert(table@.map_values(|e: (String, usize)| (e.0@, e.1)) =~= tv.update(i as int, (path@, c)));
            }
        } else {
            table.push((path.clone(), c));
            proof {
                assert(table@.map_values(|e: (String, usize)| (e.0@, e.1)) =~= tv.push((path@, c)));
            }
        }
        let ghost nv = table@.map_values(|e: (String, usize)| (e.0@, e.1));
        proof {
            assert(tv == match s0.path_dependencies[p as int] {
                Some(tb) => tb,
                None => Seq::empty(),
            });
            assert(nv == spec_table_insert(tv, path@, c));
        }
        self.path_dependencies.set(p, Some(table));
        proof {
            let target = SolverView {
                path_dependencies: s0.path_dependencies.update(p as int, Some(spec_table_insert(
                    match s0.path_dependencies[p as int] {
                        Some(tb) => tb,
                        None => Seq::empty(),
                    },
                    path@,
                    c,
                ))),
                ..s0
            };
            assert(self@.path_dependencies =~= target.path_dependencies);
        }
    }

    /// Records the analysis of package `p` with all the dependencies `deps` (by their
    /// indices `refs` once interned) and puts its dependants on the working set.
    fn record_scanned(&mut self, p: usize, m: &Metadata, deps: &Vec<Dependency>)
        requires
            old(self).wf(),
            p < old(self)@.packages.len(),
        ensures
            final(self).wf(),
            final(self)@ == ({
                let s1 = old(self)@;
                let metadata = seq_intern(s1.metadata, m@);
                let mi = seq_find(metadata, m@).unwrap() as usize;
                let (dependencies, refs) = spec_intern_all(s1.dependencies, deps@.map_values(|d: Dependency| d@));
                SolverView {
                    metadata,
                    dependencies,
                    analysis: s1.analysis.update(p as int, Some(AnalysisView { metadata: mi, dependencies: refs })),
                    current: FrameView {
                        working_set: s1.current.working_set + children_dependants(p, refs),
                        ..s1.current
                    },
                    ..s1
                }
            }),
    {
        let ghost s_old = self@;
        let ghost xs = deps@.map_values(|d: Dependency| d@);
        let mi = self.intern_metadata(m);
        let ghost s0 = self@;
        let mut refs: Vec<usize> = Vec::new();
        let mut i: usize = 0;
        while i < deps.len()
            invariant
                self.wf(),
                p < self@.packages.len(),
                i <= deps.len(),
                xs == deps@.map_values(|d: Dependency| d@),
                (self@.dependencies, refs@) == spec_intern_all(s_old.dependencies, xs.take(i as int)),
                self@ == (SolverView { dependencies: self@.dependencies, current: self@.current, ..s0 }),
                self@.current == (FrameView {
                    working_set: s_old.current.working_set + children_dependants(p, refs@),
                    ..s_old.current
                }),
            decreases deps.len() - i,
        {
            let r = self.intern_dependency(&deps[i]);
            proof {
                assert(xs.take(i as int + 1) =~= xs.take(i as int).push(xs[i as int]));
                lemma_intern_all_push(s_old.dependencies, xs.take(i as int), xs[i as int]);
            }
            let ghost before = refs@;
            refs.push(r);
            pair_stack_push(&mut self.current.working_set, (p, r));
            proof {
                assert(children_dependants(p, refs@) =~= children_dependants(p, before).push((p, r)));
                assert(s_old.current.working_set + children_dependants(p, refs@)
                    =~= (s_old.current.working_set + children_dependants(p, before)).push((p, r)));
            }
            i = i + 1;
        }
        proof {
            assert(xs.take(deps.len() as int) =~= xs);
        }
        self.analysis.set(p, Some(Analysis { metadata: mi, dependencies: refs }));
        proof {
            let s1 = s_old;
            let metadata = seq_intern(s1.metadata, m@);
            let (dependencies, rs) = spec_intern_all(s1.dependencies, xs);
            assert(self@.analysis =~= s1.analysis.update(p as int, Some(AnalysisView { metadata: mi, dependencies: rs })));
            assert(self@.metadata == metadata);
        }
    }

    /// Scans the package tree `tree` (see `spec_scan`).
    pub fn scan(&mut self, tree: &PackageTree)
        requires
            old(self).wf(),
            tree_paths_given(*tree),
        ensures
            final(self).wf(),
            final(self)@ == spec_scan(old(self)@, *tree),
            final(self)@.packages.len() >= old(self)@.packages.len(),
        decreases tree,
    {
        let ghost s_old = self@;
        let p = self.intern_package(&tree.id);
        proof {
            crate::dependency::lemma_seq_intern(s_old.packages, tree.id@);
            crate::dependency::lemma_seq_find(crate::dependency::seq_intern(s_old.packages, tree.id@), tree.id@);
        }
        if self.path_dependencies[p].is_some() {
            return;
        }
        self.record_scanned(p, &tree.metadata, &tree.dependencies);
        let ghost s2 = self@;
        let mut i: usize = 0;
        while i < tree.path_dependencies.len()
            invariant
                self.wf(),
                p < self@.packages.len(),
                i <= tree.path_dependencies.len(),
                tree_paths_given(*tree),
                self@.packages.len() >= s_old.packages.len(),
                spec_scan_edges(self@, p, *tree, i as int) == spec_scan_edges(s2, p, *tree, 0),
            decreases tree.path_dependencies.len() - i,
        {
            let e = &tree.path_dependencies[i];
            assert(e.0.path is Some && tree_paths_given(e.1)) by {
                assert(*e == tree.path_dependencies@[i as int]);
            }
            let ghost before = self@;
            let c = self.intern_package(&e.1.id);
            proof {
                crate::dependency::lemma_seq_intern(before.packages, e.1.id@);
            }
            let path = match &e.0.path {
                Some(x) => x,
                None => {
                    return;
                },
            };
            self.table_insert(p, path, c);
            assert(decreases_to!(*tree => tree.path_dependencies));
            assert(decreases_to!(tree.path_dependencies => tree.path_dependencies@));
            assert(decreases_to!(tree.path_dependencies@ => tree.path_dependencies@[i as int]));
            self.scan(&e.1);
            i = i + 1;
        }
    }
}

/// A copy of a path table.
fn clone_table(t: &Vec<(String, usize)>) -> (r: Vec<(String, usize)>)
    ensures
        r@.map_values(|e: (String, usize)| (e.0@, e.1)) == t@.map_values(|e: (String, usize)| (e.0@, e.1)),
{
    let mut r: Vec<(String, usize)> = Vec::new();
    let mut i: usize = 0;
    while i < t.len()
        invariant
            i <= t.len(),
            r@.map_values(|e: (String, usize)| (e.0@, e.1)) == t@.take(i as int).map_values(|e: (String, usize)| (e.0@, e.1)),
        decreases t.len() - i,
    {
        let ghost before = r@;
        let k = t[i].0.clone();
        r.push((k, t[i].1));
        proof {
            assert(t@.take(i as int + 1) =~= t@.take(i as int).push(t@[i as int]));
            assert(r@ == before.push((k, t@[i as int].1)));
            assert(r@.map_values(|e: (String, usize)| (e.0@, e.1)) =~= before.map_values(|e: (String, usize)| (e.0@, e.1)).push((t@[i as int].0@, t@[i as int].1)));
            assert(t@.take(i as int + 1).map_values(|e: (String, usize)| (e.0@, e.1)) =~= t@.take(i as int).map_values(|e: (String, usize)| (e.0@, e.1)).push((t@[i as int].0@, t@[i as int].1)));
        }
        i = i + 1;
    }
    proof {
        assert(t@.take(t.len() as int) =~= t@);
    }
    r
}

} // verus!
