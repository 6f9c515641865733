//! Creating the lockfile of a solved package graph: for each package with path
//! dependencies, a lock that maps each of its dependencies to the package it resolved to
//! and that package's lock, with equal locks shared.

use vstd::prelude::*;
use crate::collections::mark_map_entries;
use crate::dependency::{SpecDependency, seq_find, seq_intern, lemma_seq_find, lemma_seq_intern, lemma_seq_first_index, seq_first_index};
use crate::lockfile::{Entry, EntryView, Lock, Lockfile};
use crate::model::{SolverView, spec_path_lookup};
use crate::solution::{Dependant, Mark, Outcome};
use crate::solve::Solver;

verus! {

/// Why a lock cannot be created from a solution.
#[derive(Clone, Copy, Debug, PartialEq, Eq, Structural)]
pub enum LockError {
    /// The solver has no analysis of the package.
    MissingPackage { package: usize },
    /// Dependency `dependency` of package `package` resolved to no package.
    MissingSolution { package: usize, dependency: usize },
    /// The chain of resolved packages from `package` is longer than the number of packages,
    /// so it returns to a package on the way.
    Cycle { package: usize },
    /// A stored index is out of range.
    InvalidReference,
}

/// The locks of a lockfile, by their views.
pub open spec fn locks_view(v: Seq<Lock>) -> Seq<Map<SpecDependency, EntryView>> {
    v.map_values(|l: Lock| l@)
}

/// Every lock has distinct dependencies.
pub open spec fn locks_wf(v: Seq<Lock>) -> bool {
    forall|i: int| 0 <= i < v.len() ==> (#[trigger] v[i]).wf()
}

/// The package that dependency `d` of package `p` resolves to: by the path table of `p` for
/// a path dependency found there, and otherwise by the permanent mark of the dependant.
pub open spec fn spec_resolve_entry(s: SolverView, p: usize, d: usize) -> Result<usize, LockError> {
    let dep = s.dependencies[d as int];
    let by_path = if p < s.path_dependencies.len() && s.path_dependencies[p as int] is Some && dep.path is Some {
        spec_path_lookup(s.path_dependencies[p as int].unwrap(), dep.path.unwrap())
    } else {
        None
    };
    match by_path {
        Some(c) => Ok(c),
        None => {
            let partial = s.current.solution.partial;
            if partial.contains_key((p, d)) && partial[(p, d)] is Permanent && partial[(p, d)]->Permanent_0 is Resolved {
                Ok(partial[(p, d)]->Permanent_0->Resolved_0)
            } else {
                Err(LockError::MissingSolution { package: p, dependency: d })
            }
        },
    }
}

/// The lock of package `p` added to `locks` (unless an equal lock is there), and its index;
/// `fuel` bounds the depth of the chain of packages followed.
pub open spec fn spec_lock(s: SolverView, p: usize, locks: Seq<Map<SpecDependency, EntryView>>, fuel: nat)
    -> Result<(Seq<Map<SpecDependency, EntryView>>, nat), LockError>
    decreases fuel, 0int,
{
    if fuel == 0 {
        Err(LockError::Cycle { package: p })
    } else if p >= s.analysis.len() {
        Err(LockError::InvalidReference)
    } else {
        match s.analysis[p as int] {
            None => Err(LockError::MissingPackage { package: p }),
            Some(a) => match spec_lock_deps(s, p, a.dependencies, 0, locks, Map::empty(), (fuel - 1) as nat) {
                Err(e) => Err(e),
                Ok((locks2, m)) => {
                    let locks3 = seq_intern(locks2, m);
                    Ok((locks3, seq_find(locks3, m).unwrap() as nat))
                },
            },
        }
    }
}

/// The entries of the dependencies `ds` of package `p` from the `i`th on, added to `acc`,
/// with the locks of their packages added to `locks`.
pub open spec fn spec_lock_deps(
    s: SolverView,
    p: usize,
    ds: Seq<usize>,
    i: int,
    locks: Seq<Map<SpecDependency, EntryView>>,
    acc: Map<SpecDependency, EntryView>,
    fuel: nat,
) -> Result<(Seq<Map<SpecDependency, EntryView>>, Map<SpecDependency, EntryView>), LockError>
    decreases fuel, ds.len() - i + 1,
{
    if i < 0 || i >= ds.len() {
        Ok((locks, acc))
    } else if ds[i] >= s.dependencies.len() {
        Err(LockError::InvalidReference)
    } else {
        match spec_resolve_entry(s, p, ds[i]) {
            Err(e) => Err(e),
            Ok(c) => if c >= s.packages.len() {
                Err(LockError::InvalidReference)
            } else {
                match spec_lock(s, c, locks, fuel) {
                    Err(e) => Err(e),
                    Ok((locks2, li)) => spec_lock_deps(
                        s,
                        p,
                        ds,
                        i + 1,
                        locks2,
                        acc.insert(s.dependencies[ds[i] as int], EntryView { package: Some(s.packages[c as int]), lock: li }),
                        fuel,
                    ),
                }
            },
        }
    }
}

/// The locks of the packages with path tables, from package `from` on, in the order of
/// their indices.
pub open spec fn spec_lock_roots(s: SolverView, from: int, locks: Seq<Map<SpecDependency, EntryView>>)
    -> Result<Seq<Map<SpecDependency, EntryView>>, LockError>
    decreases s.path_dependencies.len() - from,
{
    if from < 0 || from >= s.path_dependencies.len() {
        Ok(locks)
    } else if s.path_dependencies[from] is Some {
        match spec_lock(s, from as usize, locks, (s.packages.len() + 1) as nat) {
            Err(e) => Err(e),
            Ok((locks2, _)) => spec_lock_roots(s, from + 1, locks2),
        }
    } else {
        spec_lock_roots(s, from + 1, locks)
    }
}

/// The dependants whose mark in the current solution is a permanent error, with the error.
pub open spec fn spec_failures(s: SolverView) -> Set<(Dependant, usize)> {
    Set::new(|x: (Dependant, usize)| {
        &&& s.current.solution.partial.contains_key(x.0)
        &&& s.current.solution.partial[x.0] == Mark::Permanent(Outcome::Failed(x.1))
    })
}

/// Why a lockfile cannot be created.
pub enum CreateError {
    /// Solving left these dependants with these errors (by index).
    Unsolved(Vec<(Dependant, usize)>),
    /// The solution does not give a lock.
    Lock(LockError),
}

/// Adds `lock` to `locks` unless an equal lock is there, and returns the index of the lock.
fn intern_lock(locks: &mut Vec<Lock>, lock: Lock) -> (r: usize)
    requires
        locks_wf(old(locks)@),
        lock.wf(),
    ensures
        locks_wf(final(locks)@),
        locks_view(final(locks)@) == seq_intern(locks_view(old(locks)@), lock@),
        Some(r as int) == seq_find(locks_view(final(locks)@), lock@),
{
    let ghost lv = locks_view(locks@);
    proof {
        lemma_seq_intern(lv, lock@);
        lemma_seq_find(lv, lock@);
        lemma_seq_first_index(lv, lock@, 0);
    }
    let mut i: usize = 0;
    while i < locks.len()
        invariant
            i <= locks.len(),
            locks_wf(locks@),
            lock.wf(),
            lv == locks_view(locks@),
            forall|j: int| 0 <= j < i ==> lv[j] != lock@,
        decreases locks.len() - i,
    {
        assert(locks@[i as int].wf());
        if locks[i].same(&lock) {
            proof {
                lemma_seq_first_index(lv, lock@, 0);
                lemma_seq_find(lv, lock@);
                assert(lv[i as int] == lock@);
                let f = seq_first_index(lv, lock@, 0);
                if f < i {
                    assert(lv[f] == lock@);
                }
                assert(lv.contains(lock@));
            }
            return i;
        }
        i = i + 1;
    }
    proof {
        lemma_seq_find(lv, lock@);
        lemma_seq_intern(lv, lock@);
        if lv.contains(lock@) {
            let k = choose|k: int| 0 <= k < lv.len() && lv[k] == lock@;
            assert(lv[k] != lock@);
        }
    }
    let ghost lockv = lock@;
    let n = locks.len();
    locks.push(lock);
    proof {
        assert(locks_view(locks@) =~= lv.push(lockv));
    }
    n
}

impl Solver {
    /// The package that dependency `d` of package `p` resolves to (see `spec_resolve_entry`).
    pub fn resolve_entry(&self, p: usize, d: usize) -> (r: Result<usize, LockError>)
        requires
            d < self@.dependencies.len(),
        ensures
            r == spec_resolve_entry(self@, p, d),
    {
        let by_path = if self.is_path_dependency((p, d)) {
            self.path_lookup((p, d))
        } else {
            None
        };
        match by_path {
            Some(c) => Ok(c),
            None => match self.current.solution.get_partial((p, d)) {
                Some(Mark::Permanent(Outcome::Resolved(c))) => Ok(c),
                _ => Err(LockError::MissingSolution { package: p, dependency: d }),
            },
        }
    }

    /// Adds the lock of package `p` to `locks` (see `spec_lock`) and returns its index.
    pub fn lock_package(&self, p: usize, locks: &mut Vec<Lock>, fuel: usize) -> (r: Result<usize, LockError>)
        requires
            self.wf(),
            locks_wf(old(locks)@),
        ensures
            locks_wf(final(locks)@),
            match spec_lock(self@, p, locks_view(old(locks)@), fuel as nat) {
                Ok((l, i)) => r matches Ok(x) && x as nat == i && locks_view(final(locks)@) == l,
                Err(e) => r == Err::<usize, LockError>(e),
            },
        decreases fuel,
    {
        if fuel == 0 {
            return Err(LockError::Cycle { package: p });
        }
        if p >= self.analysis.len() {
            return Err(LockError::InvalidReference);
        }
        let a = match &self.analysis[p] {
            Some(a) => a,
            None => {
                return Err(LockError::MissingPackage { package: p });
            },
        };
        assert(self@.analysis[p as int] == Some(a@));
        let ghost ds = a.dependencies@;
        let ghost f = (fuel - 1) as nat;
        let ghost target = spec_lock_deps(self@, p, ds, 0, locks_view(locks@), Map::empty(), f);
        let mut lock = Lock::new();
        let mut i: usize = 0;
        while i < a.dependencies.len()
            invariant
                self.wf(),
                i <= a.dependencies.len(),
                ds == a.dependencies@,
                fuel >= 1,
                f == (fuel - 1) as nat,
                lock.wf(),
                locks_wf(locks@),
                p < self@.analysis.len(),
                self@.analysis[p as int] == Some(a@),
                target == spec_lock_deps(self@, p, ds, 0, locks_view(old(locks)@), Map::empty(), f),
                spec_lock_deps(self@, p, ds, i as int, locks_view(locks@), lock@, f) == target,
            decreases a.dependencies.len() - i,
        {
            let d = a.dependencies[i];
            let ghost lv0 = locks_view(locks@);
            proof {
                assert(ds[i as int] == d);
                assert(self@.dependencies.len() == self.dependencies.len());
                assert(self@.packages.len() == self.packages.items.len());
            }
            if d >= self.dependencies.len() {
                return Err(LockError::InvalidReference);
            }
            let c = match self.resolve_entry(p, d) {
                Ok(c) => c,
                Err(e) => {
                    return Err(e);
                },
            };
            if c >= self.packages.items.len() {
                return Err(LockError::InvalidReference);
            }
            let li = match self.lock_package(c, locks, fuel - 1) {
                Ok(li) => li,
                Err(e) => {
                    proof {
                        assert(spec_lock(self@, c, lv0, f) == Err::<(Seq<Map<SpecDependency, EntryView>>, nat), LockError>(e));
                        assert(spec_lock_deps(self@, p, ds, i as int, lv0, lock@, f) == Err::<(Seq<Map<SpecDependency, EntryView>>, Map<SpecDependency, EntryView>), LockError>(e));
                    }
                    return Err(e);
                },
            };
            let package = self.packages.get(c).clone();
            lock.insert(self.dependencies[d].duplicate(), Entry { package: Some(package), lock: li });
            i = i + 1;
        }
        proof {
            assert(spec_lock_deps(self@, p, ds, i as int, locks_view(locks@), lock@, f) == Ok::<(Seq<Map<SpecDependency, EntryView>>, Map<SpecDependency, EntryView>), LockError>((locks_view(locks@), lock@)));
        }
        let r = intern_lock(locks, lock);
        proof {
            lemma_seq_find(locks_view(locks@), lock@);
        }
        Ok(r)
    }

    /// The dependants whose mark in the current solution is a permanent error, each once
    /// with its error, in the order of the map of marks.
    pub fn failures(&self) -> (r: Vec<(Dependant, usize)>)
        ensures
            forall|i: int| 0 <= i < r@.len() ==> spec_failures(self@).contains(#[trigger] r@[i]),
            forall|x: (Dependant, usize)| spec_failures(self@).contains(x) ==> r@.contains(x),
            forall|i: int, j: int| 0 <= i < r@.len() && 0 <= j < r@.len() && i != j ==> r@[i].0 != r@[j].0,
    {
        let entries = mark_map_entries(&self.current.solution.partial);
        proof {
            assert forall|j: int| 0 <= j < entries@.len() implies #[trigger] self@.current.solution.partial.contains_key(entries@[j].0)
                && self@.current.solution.partial[entries@[j].0] == entries@[j].1 by {
                assert(crate::collections::mark_map(self.current.solution.partial).contains_key(entries@[j].0));
            }
        }
        let mut r: Vec<(Dependant, usize)> = Vec::new();
        let mut i: usize = 0;
        let ghost k: Seq<int> = Seq::empty();
        while i < entries.len()
            invariant
                i <= entries.len(),
                forall|j: int| 0 <= j < entries@.len() ==> #[trigger] self@.current.solution.partial.contains_key(entries@[j].0)
                    && self@.current.solution.partial[entries@[j].0] == entries@[j].1,
                forall|a: int, b: int| 0 <= a < entries@.len() && 0 <= b < entries@.len() && a != b ==> entries@[a].0 != entries@[b].0,
                k.len() == r@.len(),
                forall|j: int| 0 <= j < r@.len() ==> 0 <= #[trigger] k[j] < i && entries@[k[j]].0 == r@[j].0
                    && entries@[k[j]].1 == Mark::Permanent(Outcome::Failed(r@[j].1)),
                forall|a: int, b: int| 0 <= a < k.len() && 0 <= b < k.len() && a < b ==> k[a] < k[b],
                forall|j: int| 0 <= j < i && ((#[trigger] entries@[j]).1 matches Mark::Permanent(Outcome::Failed(_)))
                    ==> exists|m: int| 0 <= m < r@.len() && k[m] == j,
            decreases entries.len() - i,
        {
            let ghost k0 = k;
            let ghost r0 = r@;
            match entries[i].1 {
                Mark::Permanent(Outcome::Failed(e)) => {
                    r.push((entries[i].0, e));
                    proof {
                        k = k.push(i as int);
                        assert(k[k.len() - 1] == i);
                    }
                },
                _ => {},
            }
            proof {
                assert forall|j: int| 0 <= j < i + 1 && ((#[trigger] entries@[j]).1 matches Mark::Permanent(Outcome::Failed(_)))
                    implies exists|m: int| 0 <= m < r@.len() && k[m] == j by {
                    if j < i {
                        let m = choose|m: int| 0 <= m < r0.len() && k0[m] == j;
                        assert(k[m] == j);
                    } else {
                        assert(k[k.len() - 1] == j);
                    }
                }
            }
            i = i + 1;
        }
        proof {
            assert forall|j: int| 0 <= j < r@.len() implies spec_failures(self@).contains(#[trigger] r@[j]) by {
                assert(self@.current.solution.partial.contains_key(entries@[k[j]].0));
            }
            assert forall|x: (Dependant, usize)| spec_failures(self@).contains(x) implies r@.contains(x) by {
                let partial = self@.current.solution.partial;
                assert(partial.contains_key(x.0));
                let j = choose|j: int| 0 <= j < entries@.len() && entries@[j].0 == x.0;
                assert(partial[entries@[j].0] == entries@[j].1);
                let m = choose|m: int| 0 <= m < r@.len() && k[m] == j;
                assert(r@[m].0 == x.0);
                assert(r@[m] == x);
            }
            assert forall|a: int, b: int| 0 <= a < r@.len() && 0 <= b < r@.len() && a != b implies r@[a].0 != r@[b].0 by {
                if a < b {
                    assert(k[a] < k[b]);
                } else {
                    assert(k[b] < k[a]);
                }
            }
        }
        r
    }

    /// Creates the lockfile of the current solution: an error listing every dependant with
    /// an error if there is one, and otherwise the locks of the packages with path tables,
    /// in the order of their indices (see `spec_lock_roots`).
    pub fn create_lockfile(&self) -> (r: Result<Lockfile, CreateError>)
        requires
            self.wf(),
            self@.packages.len() < usize::MAX,
        ensures
            (spec_failures(self@) != Set::<(Dependant, usize)>::empty()) == (r matches Err(CreateError::Unsolved(_))),
            r matches Err(CreateError::Unsolved(v)) ==> forall|i: int| 0 <= i < v@.len() ==> spec_failures(self@).contains(#[trigger] v@[i]),
            r matches Err(CreateError::Unsolved(v)) ==> forall|x: (Dependant, usize)| spec_failures(self@).contains(x) ==> v@.contains(x),
            r matches Err(CreateError::Lock(e)) ==> spec_lock_roots(self@, 0, Seq::empty()) == Err::<Seq<Map<SpecDependency, EntryView>>, LockError>(e),
            r matches Ok(lf) ==> spec_lock_roots(self@, 0, Seq::empty()) == Ok::<Seq<Map<SpecDependency, EntryView>>, LockError>(lf@),
    {
        let failures = self.failures();
        if failures.len() > 0 {
            proof {
                assert(spec_failures(self@).contains(failures@[0]));
                assert(!Set::<(Dependant, usize)>::empty().contains(failures@[0]));
                assert(spec_failures(self@) != Set::<(Dependant, usize)>::empty());
                assert(!(spec_failures(self@) =~= Set::<(Dependant, usize)>::empty()));
            }
            return Err(CreateError::Unsolved(failures));
        }
        proof {
            assert(spec_failures(self@) =~= Set::<(Dependant, usize)>::empty()) by {
                assert forall|x: (Dependant, usize)| !spec_failures(self@).contains(x) by {
                    if spec_failures(self@).contains(x) {
                        assert(failures@.contains(x));
                    }
                }
            }
        }
        let mut locks: Vec<Lock> = Vec::new();
        let n = self.path_dependencies.len();
        let fuel = self.packages.items.len() + 1;
        let ghost target = spec_lock_roots(self@, 0, Seq::empty());
        proof {
            assert(locks_view(locks@) =~= Seq::<Map<SpecDependency, EntryView>>::empty());
        }
        let mut p: usize = 0;
        while p < n
            invariant
                self.wf(),
                n == self@.path_dependencies.len(),
                p <= n,
                locks_wf(locks@),
                fuel as nat == (self@.packages.len() + 1) as nat,
                spec_failures(self@) == Set::<(Dependant, usize)>::empty(),
                target == spec_lock_roots(self@, 0, Seq::empty()),
                spec_lock_roots(self@, p as int, locks_view(locks@)) == target,
            decreases n - p,
        {
            let ghost lv0 = locks_view(locks@);
            if self.path_dependencies[p].is_some() {
                match self.lock_package(p, &mut locks, fuel) {
                    Ok(_) => {},
                    Err(e) => {
                        assert(spec_lock_roots(self@, p as int, lv0) == Err::<Seq<Map<SpecDependency, EntryView>>, LockError>(e));
                        return Err(CreateError::Lock(e));
                    },
                }
            }
            p = p + 1;
        }
        Ok(Lockfile { locks })
    }
}

} // verus!
