//! Reading a lockfile back: checking that it still fits a package, and following its
//! entries from the root lock to the package that each dependency resolves to.

use vstd::prelude::*;
use crate::dependency::{Dependency, SpecDependency, seq_find, lemma_seq_find, lemma_seq_first_index, seq_first_index};
use crate::lockfile::{EntryView, Lock, Lockfile};
use crate::locking::{locks_view, locks_wf};
use crate::scan::PackageTree;

verus! {

/// Why a lockfile cannot be read against a package.
#[derive(Debug, Clone, Copy, PartialEq, Eq, Structural)]
pub enum ReadError {
    /// An entry refers to a lock that the lockfile does not have.
    InvalidLockfile,
    /// An entry without a package names a dependency that is no path dependency of the
    /// package.
    MissingPathDependency,
    /// Following the entries leads back to a lock on the way (the chain is longer than the
    /// lockfile).
    Cycle,
}

/// A lock whose entries were followed: each dependency with the id of its package and the
/// node of that package's lock.
#[derive(Debug)]
pub struct LockNode {
    pub dependencies: Vec<(Dependency, String, usize)>,
}

/// The locks reached from the root lock of a lockfile, children before the locks that refer
/// to them; the root's node is the last.
#[derive(Debug)]
pub struct ResolvedLock {
    pub nodes: Vec<LockNode>,
}

/// The mathematical form of a node.
pub open spec fn node_view(n: LockNode) -> Seq<(SpecDependency, Seq<char>, nat)> {
    n.dependencies@.map_values(|e: (Dependency, String, usize)| (e.0@, e.1@, e.2 as nat))
}

/// The mathematical form of a list of nodes.
pub open spec fn nodes_view(v: Seq<LockNode>) -> Seq<Seq<(SpecDependency, Seq<char>, nat)>> {
    v.map_values(|n: LockNode| node_view(n))
}

/// The pairs of each lock of a lockfile.
pub open spec fn lockfile_pairs(lf: Lockfile) -> Seq<Seq<(SpecDependency, EntryView)>> {
    lf.locks@.map_values(|l: Lock| l.pairs())
}

/// The position of the path dependency `dep` among the path dependencies of `t`.
pub open spec fn spec_tree_child(t: PackageTree, dep: SpecDependency) -> Option<int> {
    seq_find(t.path_dependencies@.map_values(|e: (Dependency, PackageTree)| e.0@), dep)
}

/// The nodes of the lock at `index`, followed from the package `t`, added to `nodes`, and the
/// index of its node; `fuel` bounds the depth of the chain of locks followed.
pub open spec fn spec_follow(
    t: PackageTree,
    lf: Seq<Seq<(SpecDependency, EntryView)>>,
    index: nat,
    nodes: Seq<Seq<(SpecDependency, Seq<char>, nat)>>,
    fuel: nat,
) -> Result<(Seq<Seq<(SpecDependency, Seq<char>, nat)>>, nat), ReadError>
    decreases fuel, 0int,
{
    if fuel == 0 {
        Err(ReadError::Cycle)
    } else if index >= lf.len() {
        Err(ReadError::InvalidLockfile)
    } else {
        match spec_follow_entries(t, lf, lf[index as int], 0, nodes, Seq::empty(), (fuel - 1) as nat) {
            Err(e) => Err(e),
            Ok((n2, entries)) => Ok((n2.push(entries), n2.len())),
        }
    }
}

/// The entries `pairs` of a lock of package `t` from the `i`th on, followed and added to
/// `acc`: an entry with a package is followed from the same package, and one without is
/// followed from the package of the path dependency it names.
pub open spec fn spec_follow_entries(
    t: PackageTree,
    lf: Seq<Seq<(SpecDependency, EntryView)>>,
    pairs: Seq<(SpecDependency, EntryView)>,
    i: int,
    nodes: Seq<Seq<(SpecDependency, Seq<char>, nat)>>,
    acc: Seq<(SpecDependency, Seq<char>, nat)>,
    fuel: nat,
) -> Result<(Seq<Seq<(SpecDependency, Seq<char>, nat)>>, Seq<(SpecDependency, Seq<char>, nat)>), ReadError>
    decreases fuel, pairs.len() - i + 1,
{
    if i < 0 || i >= pairs.len() {
        Ok((nodes, acc))
    } else {
        let (dep, entry) = pairs[i];
        match entry.package {
            Some(pkg) => match spec_follow(t, lf, entry.lock, nodes, fuel) {
                Err(e) => Err(e),
                Ok((n2, k)) => spec_follow_entries(t, lf, pairs, i + 1, n2, acc.push((dep, pkg, k)), fuel),
            },
            None => match spec_tree_child(t, dep) {
                None => Err(ReadError::MissingPathDependency),
                Some(j) => {
                    let child = t.path_dependencies@[j].1;
                    match spec_follow(child, lf, entry.lock, nodes, fuel) {
                        Err(e) => Err(e),
                        Ok((n2, k)) => spec_follow_entries(t, lf, pairs, i + 1, n2, acc.push((dep, child.id@, k)), fuel),
                    }
                },
            },
        }
    }
}

/// The position of the path dependency `dep` among the path dependencies of `t`.
fn tree_child(t: &PackageTree, dep: &Dependency) -> (r: Option<usize>)
    ensures
        match spec_tree_child(*t, dep@) {
            Some(j) => r matches Some(x) && x as int == j && 0 <= j < t.path_dependencies@.len(),
            None => r is None,
        },
{
    let ghost keys = t.path_dependencies@.map_values(|e: (Dependency, PackageTree)| e.0@);
    proof {
        lemma_seq_find(keys, dep@);
        lemma_seq_first_index(keys, dep@, 0);
    }
    let mut i: usize = 0;
    while i < t.path_dependencies.len()
        invariant
            i <= t.path_dependencies.len(),
            keys == t.path_dependencies@.map_values(|e: (Dependency, PackageTree)| e.0@),
            forall|j: int| 0 <= j < i ==> keys[j] != dep@,
        decreases t.path_dependencies.len() - i,
    {
        assert(keys[i as int] == t.path_dependencies@[i as int].0@);
        if t.path_dependencies[i].0.same(dep) {
            proof {
                lemma_seq_first_index(keys, dep@, 0);
                lemma_seq_find(keys, dep@);
                let f = seq_first_index(keys, dep@, 0);
                if f < i {
                    assert(keys[f] == dep@);
                }
            }
            return Some(i);
        }
        i = i + 1;
    }
    proof {
        lemma_seq_find(keys, dep@);
        if keys.contains(dep@) {
            let k = choose|k: int| 0 <= k < keys.len() && keys[k] == dep@;
            assert(keys[k] != dep@);
        }
    }
    None
}

/// Follows the lock at `index` from package `tree` (see `spec_follow`), adding its nodes to
/// `nodes`, and returns the index of its node.
pub fn follow(tree: &PackageTree, lockfile: &Lockfile, index: usize, nodes: &mut Vec<LockNode>, fuel: usize) -> (r: Result<usize, ReadError>)
    ensures
        match spec_follow(*tree, lockfile_pairs(*lockfile), index as nat, nodes_view(old(nodes)@), fuel as nat) {
            Ok((n, k)) => r matches Ok(x) && x as nat == k && nodes_view(final(nodes)@) == n,
            Err(e) => r == Err::<usize, ReadError>(e),
        },
    decreases fuel,
{
    if fuel == 0 {
        return Err(ReadError::Cycle);
    }
    if index >= lockfile.locks.len() {
        return Err(ReadError::InvalidLockfile);
    }
    let lock = &lockfile.locks[index];
    let ghost lf = lockfile_pairs(*lockfile);
    let ghost pairs = lock.pairs();
    let ghost f = (fuel - 1) as nat;
    proof {
        assert(lf[index as int] == pairs);
    }
    let ghost target = spec_follow_entries(*tree, lf, pairs, 0, nodes_view(nodes@), Seq::empty(), f);
    let mut entries: Vec<(Dependency, String, usize)> = Vec::new();
    let mut i: usize = 0;
    proof {
        assert(entries@.map_values(|e: (Dependency, String, usize)| (e.0@, e.1@, e.2 as nat)) =~= Seq::<(SpecDependency, Seq<char>, nat)>::empty());
    }
    while i < lock.dependencies.len()
        invariant
            i <= lock.dependencies.len(),
            fuel >= 1,
            f == (fuel - 1) as nat,
            lf == lockfile_pairs(*lockfile),
            pairs == lock.pairs(),
            index < lockfile.locks.len(),
            lf[index as int] == pairs,
            target == spec_follow_entries(*tree, lf, pairs, 0, nodes_view(old(nodes)@), Seq::empty(), f),
            spec_follow_entries(*tree, lf, pairs, i as int, nodes_view(nodes@),
                entries@.map_values(|e: (Dependency, String, usize)| (e.0@, e.1@, e.2 as nat)), f) == target,
        decreases lock.dependencies.len() - i,
    {
        let ghost nv0 = nodes_view(nodes@);
        let ghost acc0 = entries@.map_values(|e: (Dependency, String, usize)| (e.0@, e.1@, e.2 as nat));
        let pair = &lock.dependencies[i];
        assert(pairs[i as int] == (pair.0@, pair.1@));
        match &pair.1.package {
            Some(pkg) => {
                let k = match follow(tree, lockfile, pair.1.lock, nodes, fuel - 1) {
                    Ok(k) => k,
                    Err(e) => {
                        proof {
                            assert(spec_follow(*tree, lf, pair.1.lock as nat, nv0, f) == Err::<(Seq<Seq<(SpecDependency, Seq<char>, nat)>>, nat), ReadError>(e));
                            assert(spec_follow_entries(*tree, lf, pairs, i as int, nv0, acc0, f)
                                == Err::<(Seq<Seq<(SpecDependency, Seq<char>, nat)>>, Seq<(SpecDependency, Seq<char>, nat)>), ReadError>(e));
                        }
                        return Err(e);
                    },
                };
                entries.push((pair.0.duplicate(), pkg.clone(), k));
                proof {
                    assert(entries@.map_values(|e: (Dependency, String, usize)| (e.0@, e.1@, e.2 as nat))
                        =~= acc0.push((pair.0@, pkg@, k as nat)));
                }
            },
            None => {
                let j = match tree_child(tree, &pair.0) {
                    Some(j) => j,
                    None => {
                        proof {
                            assert(spec_follow_entries(*tree, lf, pairs, i as int, nv0, acc0, f)
                                == Err::<(Seq<Seq<(SpecDependency, Seq<char>, nat)>>, Seq<(SpecDependency, Seq<char>, nat)>), ReadError>(ReadError::MissingPathDependency));
                        }
                        return Err(ReadError::MissingPathDependency);
                    },
                };
                let child = &tree.path_dependencies[j].1;
                assert(spec_tree_child(*tree, pair.0@) == Some(j as int));
                assert(*child == tree.path_dependencies@[j as int].1);
                assert(pair.1@.package is None);
                assert(pairs[i as int].0 == pair.0@);
                assert(pairs[i as int].1 == pair.1@);
                assert(decreases_to!(*tree => tree.path_dependencies));
                let k = match follow(child, lockfile, pair.1.lock, nodes, fuel - 1) {
                    Ok(k) => k,
                    Err(e) => {
                        proof {
                            assert(spec_follow(*child, lf, pair.1.lock as nat, nv0, f) == Err::<(Seq<Seq<(SpecDependency, Seq<char>, nat)>>, nat), ReadError>(e));
                            assert(spec_follow_entries(*tree, lf, pairs, i as int, nv0, acc0, f)
                                == Err::<(Seq<Seq<(SpecDependency, Seq<char>, nat)>>, Seq<(SpecDependency, Seq<char>, nat)>), ReadError>(e));
                        }
                        return Err(e);
                    },
                };
                entries.push((pair.0.duplicate(), child.id.clone(), k));
                proof {
                    assert(entries@.map_values(|e: (Dependency, String, usize)| (e.0@, e.1@, e.2 as nat))
                        =~= acc0.push((pair.0@, child.id@, k as nat)));
                }
            },
        }
        i = i + 1;
    }
    let ghost nv = nodes_view(nodes@);
    let ghost ev = entries@.map_values(|e: (Dependency, String, usize)| (e.0@, e.1@, e.2 as nat));
    let n = nodes.len();
    nodes.push(LockNode { dependencies: entries });
    proof {
        assert(nodes_view(nodes@) =~= nv.push(ev));
    }
    Ok(n)
}

/// Follows a lockfile from its root lock (the first) and the package `tree`; the depth of
/// the chain of locks followed is bounded by the number of locks plus one.
pub fn create_lock(tree: &PackageTree, lockfile: &Lockfile) -> (r: Result<ResolvedLock, ReadError>)
    requires
        lockfile.locks.len() < usize::MAX,
    ensures
        match spec_follow(*tree, lockfile_pairs(*lockfile), 0, Seq::empty(), (lockfile.locks.len() + 1) as nat) {
            Ok((n, _)) => r matches Ok(x) && nodes_view(x.nodes@) == n,
            Err(e) => r matches Err(x) && x == e,
        },
{
    let mut nodes: Vec<LockNode> = Vec::new();
    proof {
        assert(nodes_view(nodes@) =~= Seq::<Seq<(SpecDependency, Seq<char>, nat)>>::empty());
    }
    match follow(tree, lockfile, 0, &mut nodes, lockfile.locks.len() + 1) {
        Ok(_) => Ok(ResolvedLock { nodes }),
        Err(e) => Err(e),
    }
}

/// Whether the lock at `index` fits the package `t`: its dependencies are those of the
/// package, and the lock of each path dependency fits the package of that path dependency,
/// in turn; the first error or misfit found decides.
pub open spec fn spec_fits(t: PackageTree, lf: Seq<Map<SpecDependency, EntryView>>, index: nat, fuel: nat) -> Result<bool, ReadError>
    decreases fuel, 0int,
{
    if fuel == 0 {
        Err(ReadError::Cycle)
    } else if index >= lf.len() {
        Err(ReadError::InvalidLockfile)
    } else if lf[index as int].dom() != t.dependencies@.map_values(|d: Dependency| d@).to_set() {
        Ok(false)
    } else {
        spec_fits_edges(t, lf, lf[index as int], 0, (fuel - 1) as nat)
    }
}

/// Checks the locks of the path dependencies of `t` from the `i`th on, by the entries of
/// `lock`, each against the package of its path dependency.
pub open spec fn spec_fits_edges(t: PackageTree, lf: Seq<Map<SpecDependency, EntryView>>, lock: Map<SpecDependency, EntryView>, i: int, fuel: nat) -> Result<bool, ReadError>
    decreases fuel, t.path_dependencies@.len() - i + 1,
{
    if i < 0 || i >= t.path_dependencies@.len() {
        Ok(true)
    } else {
        let e = t.path_dependencies@[i];
        match spec_fits(e.1, lf, lock[e.0@].lock, fuel) {
            Err(x) => Err(x),
            Ok(false) => Ok(false),
            Ok(true) => spec_fits_edges(t, lf, lock, i + 1, fuel),
        }
    }
}

/// Every path dependency of the package is one of its dependencies.
pub open spec fn edges_among_dependencies(t: PackageTree) -> bool {
    forall|i: int| 0 <= i < t.path_dependencies@.len() ==>
        t.dependencies@.map_values(|d: Dependency| d@).contains(#[trigger] t.path_dependencies@[i].0@)
}

/// Every path dependency of the package and of the packages of its path dependencies, in
/// turn, is one of the dependencies of the package that has it.
pub open spec fn tree_edges_ok(t: PackageTree) -> bool
    decreases t,
{
    &&& edges_among_dependencies(t)
    &&& forall|i: int| 0 <= i < t.path_dependencies@.len() ==> tree_edges_ok(#[trigger] t.path_dependencies@[i].1)
}

/// Whether every path dependency of the package is one of its dependencies, and so on down
/// the packages of its path dependencies (see `tree_edges_ok`).
pub fn check_tree_edges(t: &PackageTree) -> (r: bool)
    ensures
        r == tree_edges_ok(*t),
    decreases t,
{
    let ghost dv = t.dependencies@.map_values(|d: Dependency| d@);
    let mut i: usize = 0;
    while i < t.path_dependencies.len()
        invariant
            i <= t.path_dependencies.len(),
            dv == t.dependencies@.map_values(|d: Dependency| d@),
            forall|k: int| 0 <= k < i ==> dv.contains(#[trigger] t.path_dependencies@[k].0@),
            forall|k: int| 0 <= k < i ==> tree_edges_ok(#[trigger] t.path_dependencies@[k].1),
        decreases t.path_dependencies.len() - i,
    {
        let e = &t.path_dependencies[i];
        let mut found = false;
        let mut j: usize = 0;
        while j < t.dependencies.len()
            invariant
                j <= t.dependencies.len(),
                dv == t.dependencies@.map_values(|d: Dependency| d@),
                e == t.path_dependencies@[i as int],
                found ==> dv.contains(e.0@),
                !found ==> forall|m: int| 0 <= m < j ==> dv[m] != e.0@,
            decreases t.dependencies.len() - j,
        {
            assert(dv[j as int] == t.dependencies@[j as int]@);
            if t.dependencies[j].same(&e.0) {
                found = true;
            }
            j = j + 1;
        }
        if !found {
            proof {
                if dv.contains(e.0@) {
                    let m = choose|m: int| 0 <= m < dv.len() && dv[m] == e.0@;
                }
            }
            return false;
        }
        if !check_tree_edges(&e.1) {
            return false;
        }
        i = i + 1;
    }
    true
}

/// Whether every dependency of the package is a key of the lock.
fn deps_in_lock(t: &PackageTree, lock: &Lock) -> (r: bool)
    requires
        lock.wf(),
    ensures
        r == (forall|j: int| 0 <= j < t.dependencies@.len() ==> lock@.contains_key(#[trigger] t.dependencies@[j]@)),
{
    let mut j: usize = 0;
    while j < t.dependencies.len()
        invariant
            j <= t.dependencies.len(),
            lock.wf(),
            forall|k: int| 0 <= k < j ==> lock@.contains_key(#[trigger] t.dependencies@[k]@),
        decreases t.dependencies.len() - j,
    {
        if lock.get(&t.dependencies[j]).is_none() {
            return false;
        }
        j = j + 1;
    }
    true
}

/// Whether every key of the lock is a dependency of the package.
fn lock_in_deps(t: &PackageTree, lock: &Lock) -> (r: bool)
    requires
        lock.wf(),
    ensures
        r == (forall|k: SpecDependency| #[trigger] lock@.contains_key(k) ==> t.dependencies@.map_values(|d: Dependency| d@).contains(k)),
{
    let ghost dv = t.dependencies@.map_values(|d: Dependency| d@);
    proof {
        crate::lockfile::lemma_pairs_map(lock.pairs());
    }
    let mut i: usize = 0;
    while i < lock.dependencies.len()
        invariant
            i <= lock.dependencies.len(),
            lock.wf(),
            dv == t.dependencies@.map_values(|d: Dependency| d@),
            forall|k: int| 0 <= k < i ==> dv.contains(#[trigger] lock.pairs()[k].0),
        decreases lock.dependencies.len() - i,
    {
        let key = &lock.dependencies[i].0;
        assert(lock.pairs()[i as int].0 == key@);
        let mut found = false;
        let mut j: usize = 0;
        while j < t.dependencies.len()
            invariant
                j <= t.dependencies.len(),
                dv == t.dependencies@.map_values(|d: Dependency| d@),
                found ==> dv.contains(key@),
                !found ==> forall|m: int| 0 <= m < j ==> dv[m] != key@,
            decreases t.dependencies.len() - j,
        {
            assert(dv[j as int] == t.dependencies@[j as int]@);
            if t.dependencies[j].same(key) {
                found = true;
            }
            j = j + 1;
        }
        if !found {
            proof {
                crate::lockfile::lemma_pairs_map(lock.pairs());
                assert(lock@.contains_key(key@)) by {
                    assert(lock@.contains_key(lock.pairs()[i as int].0));
                }
                if dv.contains(key@) {
                    let m = choose|m: int| 0 <= m < dv.len() && dv[m] == key@;
                    assert(false) by {
                        assert(dv[m] == t.dependencies@[m]@);
                    }
                }
            }
            return false;
        }
        i = i + 1;
    }
    proof {
        crate::lockfile::lemma_pairs_map(lock.pairs());
        assert forall|k: SpecDependency| #[trigger] lock@.contains_key(k) implies dv.contains(k) by {
            let m = choose|m: int| 0 <= m < lock.pairs().len() && lock.pairs()[m].0 == k;
            assert(dv.contains(lock.pairs()[m].0));
        }
    }
    true
}

/// Checks the lock at `index` against the package `tree` (see `spec_fits`).
pub fn fits(tree: &PackageTree, lockfile: &Lockfile, index: usize, fuel: usize) -> (r: Result<bool, ReadError>)
    requires
        locks_wf(lockfile.locks@),
        tree_edges_ok(*tree),
    ensures
        r == spec_fits(*tree, locks_view(lockfile.locks@), index as nat, fuel as nat),
    decreases fuel,
{
    if fuel == 0 {
        return Err(ReadError::Cycle);
    }
    if index >= lockfile.locks.len() {
        return Err(ReadError::InvalidLockfile);
    }
    let lock = &lockfile.locks[index];
    let ghost lf = locks_view(lockfile.locks@);
    let ghost dv = tree.dependencies@.map_values(|d: Dependency| d@);
    assert(lock.wf());
    assert(lf[index as int] == lock@);
    let a = deps_in_lock(tree, lock);
    let b = lock_in_deps(tree, lock);
    proof {
        if a && b {
            assert(lock@.dom() =~= dv.to_set()) by {
                assert forall|k: SpecDependency| lock@.dom().contains(k) == dv.to_set().contains(k) by {
                    if dv.contains(k) {
                        let m = choose|m: int| 0 <= m < dv.len() && dv[m] == k;
                        assert(lock@.contains_key(tree.dependencies@[m]@));
                    }
                }
            }
        } else if !a {
            let m = choose|m: int| 0 <= m < tree.dependencies@.len() && !lock@.contains_key(#[trigger] tree.dependencies@[m]@);
            assert(dv.to_set().contains(dv[m]));
            assert(!lock@.dom().contains(dv[m]));
        } else {
            let k = choose|k: SpecDependency| #[trigger] lock@.contains_key(k) && !dv.contains(k);
            assert(lock@.dom().contains(k));
            assert(!dv.to_set().contains(k));
        }
    }
    if !(a && b) {
        return Ok(false);
    }
    let ghost f = (fuel - 1) as nat;
    let mut i: usize = 0;
    while i < tree.path_dependencies.len()
        invariant
            i <= tree.path_dependencies.len(),
            fuel >= 1,
            f == (fuel - 1) as nat,
            index < lockfile.locks.len(),
            lf == locks_view(lockfile.locks@),
            lf[index as int] == lock@,
            lock.wf(),
            locks_wf(lockfile.locks@),
            tree_edges_ok(*tree),
            lock@.dom() == tree.dependencies@.map_values(|d: Dependency| d@).to_set(),
            spec_fits(*tree, lf, index as nat, fuel as nat) == spec_fits_edges(*tree, lf, lock@, i as int, f),
        decreases tree.path_dependencies.len() - i,
    {
        let dep = &tree.path_dependencies[i].0;
        assert(tree.dependencies@.map_values(|d: Dependency| d@).contains(tree.path_dependencies@[i as int].0@));
        assert(lock@.dom().contains(dep@));
        let entry = match lock.get(dep) {
            Some(e) => e,
            None => {
                return Err(ReadError::InvalidLockfile);
            },
        };
        assert(tree_edges_ok(tree.path_dependencies@[i as int].1));
        match fits(&tree.path_dependencies[i].1, lockfile, entry.lock, fuel - 1) {
            Err(e) => {
                return Err(e);
            },
            Ok(false) => {
                return Ok(false);
            },
            Ok(true) => {},
        }
        i = i + 1;
    }
    Ok(true)
}

/// Whether a lockfile still fits the package `tree`, from its root lock (the first); the
/// depth of the chain of locks followed is bounded by the number of locks plus one.
pub fn lockfile_matches(tree: &PackageTree, lockfile: &Lockfile) -> (r: Result<bool, ReadError>)
    requires
        locks_wf(lockfile.locks@),
        tree_edges_ok(*tree),
        lockfile.locks.len() < usize::MAX,
    ensures
        r == spec_fits(*tree, locks_view(lockfile.locks@), 0, (lockfile.locks.len() + 1) as nat),
{
    fits(tree, lockfile, 0, lockfile.locks.len() + 1)
}

/// What to do about the lockfile of a package that is being locked.
#[derive(Debug)]
pub enum LockfileAction {
    /// Reuse the lockfile found beside the package: it still fits.
    Reuse(Lockfile),
    /// Create a lockfile, and write it beside the package when `write` holds.
    Create { write: bool },
}

/// Decides what to do about the lockfile of the package `tree`, when `by_path` tells that it
/// was found by a path and `on_disk` is the lockfile found beside it: a package found by
/// path reuses the lockfile beside it when that one still fits it (see `lockfile_matches`),
/// and otherwise gets a new one, which is written beside it; a package from the registry
/// always gets a new one, which is not written.
pub fn lockfile_action(tree: &PackageTree, by_path: bool, on_disk: Option<Lockfile>) -> (r: Result<LockfileAction, ReadError>)
    requires
        on_disk matches Some(lf) ==> locks_wf(lf.locks@) && lf.locks.len() < usize::MAX,
        tree_edges_ok(*tree),
    ensures
        !by_path ==> (r matches Ok(LockfileAction::Create { write }) && !write),
        by_path && on_disk is None ==> (r matches Ok(LockfileAction::Create { write }) && write),
        by_path && on_disk is Some ==> match spec_fits(*tree, locks_view(on_disk.unwrap().locks@), 0, (on_disk.unwrap().locks.len() + 1) as nat) {
            Ok(true) => r matches Ok(LockfileAction::Reuse(lf)) && lf == on_disk.unwrap(),
            Ok(false) => r matches Ok(LockfileAction::Create { write }) && write,
            Err(e) => r == Err::<LockfileAction, ReadError>(e),
        },
{
    if !by_path {
        return Ok(LockfileAction::Create { write: false });
    }
    match on_disk {
        None => Ok(LockfileAction::Create { write: true }),
        Some(lf) => match lockfile_matches(tree, &lf) {
            Ok(true) => Ok(LockfileAction::Reuse(lf)),
            Ok(false) => Ok(LockfileAction::Create { write: true }),
            Err(e) => Err(e),
        },
    }
}

} // verus!
