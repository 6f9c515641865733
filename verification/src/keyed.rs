//! Lockfiles whose locks are keyed by their ids: each lock maps dependencies to the id of a
//! package and the id of that package's lock, and a path of the workspace names the id of
//! its root lock. Following a lock from its id gives the locks it reaches.

use vstd::prelude::*;
use crate::dependency::{Dependency, SpecDependency, seq_find, lemma_seq_find, lemma_seq_first_index, seq_first_index};

verus! {

/// A lockfile with locks keyed by id.
#[derive(Debug)]
pub struct KeyedLockfile {
    /// The id of the root lock of each path.
    pub paths: Vec<(String, String)>,
    /// Each lock by its id: each dependency with the ids of its package and its lock.
    pub locks: Vec<(String, Vec<(Dependency, String, String)>)>,
}

/// Why a keyed lockfile cannot be followed.
#[derive(Debug, Clone, Copy, PartialEq, Eq, Structural)]
pub enum KeyedError {
    /// No lock exists for the path.
    NoLockForPath,
    /// A lock id has no lock in the lockfile: the lockfile is corrupted.
    MissingLock,
    /// Following the locks leads back to a lock on the way.
    Cycle,
}

/// A lock reached: each dependency with its package's id and the node of its lock.
#[derive(Debug)]
pub struct KeyedNode {
    pub dependencies: Vec<(Dependency, String, usize)>,
}

/// The ids of the locks of a lockfile, in order.
pub open spec fn lock_ids(lf: KeyedLockfile) -> Seq<Seq<char>> {
    lf.locks@.map_values(|l: (String, Vec<(Dependency, String, String)>)| l.0@)
}

/// The entries of each lock of a lockfile, in order.
pub open spec fn lock_entries(lf: KeyedLockfile) -> Seq<Seq<(SpecDependency, Seq<char>, Seq<char>)>> {
    lf.locks@.map_values(|l: (String, Vec<(Dependency, String, String)>)|
        l.1@.map_values(|e: (Dependency, String, String)| (e.0@, e.1@, e.2@)))
}

/// The mathematical form of a list of nodes.
pub open spec fn keyed_nodes_view(v: Seq<KeyedNode>) -> Seq<Seq<(SpecDependency, Seq<char>, nat)>> {
    v.map_values(|n: KeyedNode| n.dependencies@.map_values(|e: (Dependency, String, usize)| (e.0@, e.1@, e.2 as nat)))
}

/// The nodes of the lock with id `id` (the first lock with that id), added to `nodes`, and
/// the index of its node; `fuel` bounds the depth of the chain of locks followed.
pub open spec fn spec_keyed_follow(
    ids: Seq<Seq<char>>,
    entries: Seq<Seq<(SpecDependency, Seq<char>, Seq<char>)>>,
    id: Seq<char>,
    nodes: Seq<Seq<(SpecDependency, Seq<char>, nat)>>,
    fuel: nat,
) -> Result<(Seq<Seq<(SpecDependency, Seq<char>, nat)>>, nat), KeyedError>
    decreases fuel, 0int,
{
    if fuel == 0 {
        Err(KeyedError::Cycle)
    } else {
        match seq_find(ids, id) {
            None => Err(KeyedError::MissingLock),
            Some(k) => if k < entries.len() {
                match spec_keyed_entries(ids, entries, entries[k], 0, nodes, Seq::empty(), (fuel - 1) as nat) {
                    Err(e) => Err(e),
                    Ok((n2, acc)) => Ok((n2.push(acc), n2.len())),
                }
            } else {
                Err(KeyedError::MissingLock)
            },
        }
    }
}

/// The entries `es` of a lock from the `i`th on, each followed to its lock and added to
/// `acc`.
pub open spec fn spec_keyed_entries(
    ids: Seq<Seq<char>>,
    entries: Seq<Seq<(SpecDependency, Seq<char>, Seq<char>)>>,
    es: Seq<(SpecDependency, Seq<char>, Seq<char>)>,
    i: int,
    nodes: Seq<Seq<(SpecDependency, Seq<char>, nat)>>,
    acc: Seq<(SpecDependency, Seq<char>, nat)>,
    fuel: nat,
) -> Result<(Seq<Seq<(SpecDependency, Seq<char>, nat)>>, Seq<(SpecDependency, Seq<char>, nat)>), KeyedError>
    decreases fuel, es.len() - i + 1,
{
    if i < 0 || i >= es.len() {
        Ok((nodes, acc))
    } else {
        match spec_keyed_follow(ids, entries, es[i].2, nodes, fuel) {
            Err(e) => Err(e),
            Ok((n2, k)) => spec_keyed_entries(ids, entries, es, i + 1, n2, acc.push((es[i].0, es[i].1, k)), fuel),
        }
    }
}

/// The id of the root lock of `path` (the first entry for it).
pub open spec fn spec_path_lock(lf: KeyedLockfile, path: Seq<char>) -> Option<Seq<char>> {
    match seq_find(lf.paths@.map_values(|p: (String, String)| p.0@), path) {
        Some(i) => Some(lf.paths@[i].1@),
        None => None,
    }
}

/// The dependencies that the lock with id `id` (the first lock with that id) holds, in
/// order; none when the lockfile has no lock with that id.
pub open spec fn spec_locked_dependencies(lf: KeyedLockfile, id: Seq<char>) -> Seq<SpecDependency> {
    match seq_find(lock_ids(lf), id) {
        Some(i) => lock_entries(lf)[i].map_values(|e: (SpecDependency, Seq<char>, Seq<char>)| e.0),
        None => Seq::empty(),
    }
}

impl KeyedLockfile {
    /// The position of the first lock with id `id`.
    fn find_lock(&self, id: &String) -> (r: Option<usize>)
        ensures
            match seq_find(lock_ids(*self), id@) {
                Some(k) => r matches Some(x) && x as int == k && k < self.locks@.len(),
                None => r is None,
            },
    {
        let ghost ids = lock_ids(*self);
        proof {
            lemma_seq_find(ids, id@);
            lemma_seq_first_index(ids, id@, 0);
        }
        let mut i: usize = 0;
        while i < self.locks.len()
            invariant
                i <= self.locks.len(),
                ids == lock_ids(*self),
                forall|j: int| 0 <= j < i ==> ids[j] != id@,
            decreases self.locks.len() - i,
        {
            assert(ids[i as int] == self.locks@[i as int].0@);
            if self.locks[i].0 == *id {
                proof {
                    lemma_seq_first_index(ids, id@, 0);
                    lemma_seq_find(ids, id@);
                    let f = seq_first_index(ids, id@, 0);
                    if f < i {
                        assert(ids[f] == id@);
                    }
                }
                return Some(i);
            }
            i = i + 1;
        }
        proof {
            lemma_seq_find(ids, id@);
            if ids.contains(id@) {
                let k = choose|k: int| 0 <= k < ids.len() && ids[k] == id@;
                assert(ids[k] != id@);
            }
        }
        None
    }

    /// Follows the lock with id `id` (see `spec_keyed_follow`), adding its nodes to `nodes`,
    /// and returns the index of its node.
    pub fn follow(&self, id: &String, nodes: &mut Vec<KeyedNode>, fuel: usize) -> (r: Result<usize, KeyedError>)
        ensures
            match spec_keyed_follow(lock_ids(*self), lock_entries(*self), id@, keyed_nodes_view(old(nodes)@), fuel as nat) {
                Ok((n, k)) => r matches Ok(x) && x as nat == k && keyed_nodes_view(final(nodes)@) == n,
                Err(e) => r == Err::<usize, KeyedError>(e),
            },
        decreases fuel,
    {
        if fuel == 0 {
            return Err(KeyedError::Cycle);
        }
        let k = match self.find_lock(id) {
            Some(k) => k,
            None => {
                return Err(KeyedError::MissingLock);
            },
        };
        let ghost ids = lock_ids(*self);
        let ghost entries = lock_entries(*self);
        let es = &self.locks[k].1;
        let ghost esv = es@.map_values(|e: (Dependency, String, String)| (e.0@, e.1@, e.2@));
        let ghost f = (fuel - 1) as nat;
        proof {
            assert(entries[k as int] == esv);
        }
        let ghost target = spec_keyed_entries(ids, entries, esv, 0, keyed_nodes_view(nodes@), Seq::empty(), f);
        let mut acc: Vec<(Dependency, String, usize)> = Vec::new();
        proof {
            assert(acc@.map_values(|e: (Dependency, String, usize)| (e.0@, e.1@, e.2 as nat)) =~= Seq::<(SpecDependency, Seq<char>, nat)>::empty());
        }
        let mut i: usize = 0;
        while i < es.len()
            invariant
                i <= es.len(),
                fuel >= 1,
                f == (fuel - 1) as nat,
                ids == lock_ids(*self),
                entries == lock_entries(*self),
                esv == es@.map_values(|e: (Dependency, String, String)| (e.0@, e.1@, e.2@)),
                seq_find(ids, id@) == Some(k as int),
                k < entries.len(),
                entries[k as int] == esv,
                target == spec_keyed_entries(ids, entries, esv, 0, keyed_nodes_view(old(nodes)@), Seq::empty(), f),
                spec_keyed_entries(ids, entries, esv, i as int, keyed_nodes_view(nodes@),
                    acc@.map_values(|e: (Dependency, String, usize)| (e.0@, e.1@, e.2 as nat)), f) == target,
            decreases es.len() - i,
        {
            let ghost nv0 = keyed_nodes_view(nodes@);
            let ghost acc0 = acc@.map_values(|e: (Dependency, String, usize)| (e.0@, e.1@, e.2 as nat));
            let e = &es[i];
            assert(esv[i as int] == (e.0@, e.1@, e.2@));
            let node = match self.follow(&e.2, nodes, fuel - 1) {
                Ok(n) => n,
                Err(err) => {
                    proof {
                        assert(spec_keyed_follow(ids, entries, e.2@, nv0, f) == Err::<(Seq<Seq<(SpecDependency, Seq<char>, nat)>>, nat), KeyedError>(err));
                        assert(spec_keyed_entries(ids, entries, esv, i as int, nv0, acc0, f)
                            == Err::<(Seq<Seq<(SpecDependency, Seq<char>, nat)>>, Seq<(SpecDependency, Seq<char>, nat)>), KeyedError>(err));
                    }
                    return Err(err);
                },
            };
            acc.push((e.0.duplicate(), e.1.clone(), node));
            proof {
                assert(acc@.map_values(|x: (Dependency, String, usize)| (x.0@, x.1@, x.2 as nat)) =~= acc0.push((e.0@, e.1@, node as nat)));
            }
            i = i + 1;
        }
        let ghost nv = keyed_nodes_view(nodes@);
        let ghost av = acc@.map_values(|x: (Dependency, String, usize)| (x.0@, x.1@, x.2 as nat));
        let n = nodes.len();
        nodes.push(KeyedNode { dependencies: acc });
        proof {
            assert(keyed_nodes_view(nodes@) =~= nv.push(av));
        }
        Ok(n)
    }

    /// Whether `current`, the dependencies that a package has now, are the dependencies of
    /// its lock with id `id`, in the same order: if not, the lockfile no longer holds the
    /// package and is made anew.
    pub fn dependencies_unchanged(&self, id: &String, current: &Vec<Dependency>) -> (r: bool)
        ensures
            r == (current@.map_values(|d: Dependency| d@) == spec_locked_dependencies(*self, id@)),
    {
        let ghost cur = current@.map_values(|d: Dependency| d@);
        let ghost locked = spec_locked_dependencies(*self, id@);
        let k = match self.find_lock(id) {
            Some(k) => k,
            None => {
                proof {
                    if current@.len() > 0 {
                        assert(cur.len() != locked.len());
                    } else {
                        assert(cur =~= locked);
                    }
                }
                return current.len() == 0;
            },
        };
        let es = &self.locks[k].1;
        proof {
            assert(locked =~= es@.map_values(|e: (Dependency, String, String)| e.0@));
        }
        if es.len() != current.len() {
            proof {
                assert(cur.len() != locked.len());
            }
            return false;
        }
        let mut i: usize = 0;
        while i < es.len()
            invariant
                i <= es@.len(),
                es@.len() == current@.len(),
                cur == current@.map_values(|d: Dependency| d@),
                locked == es@.map_values(|e: (Dependency, String, String)| e.0@),
                locked == spec_locked_dependencies(*self, id@),
                forall|j: int| 0 <= j < i ==> cur[j] == locked[j],
            decreases es@.len() - i,
        {
            proof {
                assert(locked[i as int] == es@[i as int].0@);
                assert(cur[i as int] == current@[i as int]@);
            }
            if !es[i].0.same(&current[i]) {
                proof {
                    assert(cur[i as int] != locked[i as int]);
                }
                return false;
            }
            i = i + 1;
        }
        proof {
            assert(cur =~= locked);
        }
        true
    }

    /// The id of the root lock of `path` (see `spec_path_lock`).
    pub fn path_lock(&self, path: &str) -> (r: Option<String>)
        ensures
            match spec_path_lock(*self, path@) {
                Some(id) => r matches Some(x) && x@ == id,
                None => r is None,
            },
    {
        let ghost keys = self.paths@.map_values(|p: (String, String)| p.0@);
        proof {
            lemma_seq_find(keys, path@);
            lemma_seq_first_index(keys, path@, 0);
        }
        let target = path.to_owned();
        let mut i: usize = 0;
        while i < self.paths.len()
            invariant
                i <= self.paths.len(),
                target@ == path@,
                keys == self.paths@.map_values(|p: (String, String)| p.0@),
                forall|j: int| 0 <= j < i ==> keys[j] != path@,
            decreases self.paths.len() - i,
        {
            assert(keys[i as int] == self.paths@[i as int].0@);
            if self.paths[i].0 == target {
                proof {
                    lemma_seq_first_index(keys, path@, 0);
                    lemma_seq_find(keys, path@);
                    let f = seq_first_index(keys, path@, 0);
                    if f < i {
                        assert(keys[f] == path@);
                    }
                }
                return Some(self.paths[i].1.clone());
            }
            i = i + 1;
        }
        proof {
            lemma_seq_find(keys, path@);
            if keys.contains(path@) {
                let k = choose|k: int| 0 <= k < keys.len() && keys[k] == path@;
                assert(keys[k] != path@);
            }
        }
        None
    }

    /// The locks reached from the root lock of `path`, children before the locks that refer
    /// to them (the root's node is the last); the depth of the chain of locks followed is
    /// bounded by the number of locks plus one.
    pub fn lock(&self, path: &str) -> (r: Result<Vec<KeyedNode>, KeyedError>)
        requires
            self.locks.len() < usize::MAX,
        ensures
            match spec_path_lock(*self, path@) {
                None => r matches Err(x) && x == KeyedError::NoLockForPath,
                Some(id) => match spec_keyed_follow(lock_ids(*self), lock_entries(*self), id, Seq::empty(), (self.locks.len() + 1) as nat) {
                    Ok((n, _)) => r matches Ok(x) && keyed_nodes_view(x@) == n,
                    Err(e) => r matches Err(x) && x == e,
                },
            },
    {
        let id = match self.path_lock(path) {
            Some(id) => id,
            None => {
                return Err(KeyedError::NoLockForPath);
            },
        };
        let mut nodes: Vec<KeyedNode> = Vec::new();
        proof {
            assert(keyed_nodes_view(nodes@) =~= Seq::<Seq<(SpecDependency, Seq<char>, nat)>>::empty());
        }
        match self.follow(&id, &mut nodes, self.locks.len() + 1) {
            Ok(_) => Ok(nodes),
            Err(e) => Err(e),
        }
    }
}

} // verus!
