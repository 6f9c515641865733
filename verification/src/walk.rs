//! Reading a package from disk, as far as it decides: the modules of a package are visited
//! from the root module in the order they are found, each module's imports of modules not
//! yet visited are queued (resolved against the module's directory), its path dependencies
//! are made relative to the package, and packages reached by path dependencies are read once each, a
//! package that is reached again while it is still being read being a circular path
//! dependency.

use vstd::prelude::*;
use crate::dependency::{Dependency, seq_find, lemma_seq_find, lemma_seq_find_push, lemma_seq_first_index, seq_first_index};
use crate::paths::{spec_resolve_import, resolve_imports, rewrite_path_dependencies};

verus! {

/// The walk over the modules of a package.
#[derive(Debug)]
pub struct ModuleWalk {
    /// The modules found, in order; those from `head` on are still to visit.
    queue: Vec<String>,
    /// The position of the next module to visit.
    head: usize,
    /// The modules visited.
    visited: Vec<String>,
}

impl ModuleWalk {
    /// The modules still to visit, in order.
    pub closed spec fn pending(&self) -> Seq<Seq<char>> {
        self.queue@.map_values(|m: String| m@).subrange(self.head as int, self.queue@.len() as int)
    }

    /// The modules visited, in order.
    pub closed spec fn done(&self) -> Seq<Seq<char>> {
        self.visited@.map_values(|m: String| m@)
    }

    /// The position of the next module is within the queue.
    pub closed spec fn wf(&self) -> bool {
        self.head <= self.queue@.len()
    }

    /// A walk that starts at the root module `root`.
    pub fn new(root: &str) -> (r: ModuleWalk)
        ensures
            r.wf(),
            r.pending() == seq![root@],
            r.done() == Seq::<Seq<char>>::empty(),
    {
        let mut queue: Vec<String> = Vec::new();
        queue.push(root.to_owned());
        let r = ModuleWalk { queue, head: 0, visited: Vec::new() };
        assert(r.pending() =~= seq![root@]);
        assert(r.done() =~= Seq::<Seq<char>>::empty());
        r
    }

    /// The next module to visit, taken off the queue; `None` when there is none.
    pub fn next(&mut self) -> (r: Option<String>)
        requires
            old(self).wf(),
        ensures
            final(self).wf(),
            final(self).done() == old(self).done(),
            old(self).pending().len() == 0 ==> r is None && final(self).pending() == old(self).pending(),
            old(self).pending().len() > 0 ==> (r matches Some(m) && m@ == old(self).pending()[0]
                && final(self).pending() == old(self).pending().drop_first()),
    {
        if self.head >= self.queue.len() {
            return None;
        }
        let m = self.queue[self.head].clone();
        let ghost before = self.pending();
        self.head = self.head + 1;
        proof {
            assert(before[0] == self.queue@[old(self).head as int]@);
            assert(self.pending() =~= before.drop_first());
        }
        Some(m)
    }

    /// Whether `m` was visited.
    pub fn is_visited(&self, m: &String) -> (r: bool)
        ensures
            r == self.done().contains(m@),
    {
        let mut i: usize = 0;
        while i < self.visited.len()
            invariant
                i <= self.visited.len(),
                forall|j: int| 0 <= j < i ==> self.done()[j] != m@,
            decreases self.visited.len() - i,
        {
            assert(self.done()[i as int] == self.visited@[i as int]@);
            if self.visited[i] == *m {
                return true;
            }
            i = i + 1;
        }
        proof {
            if self.done().contains(m@) {
                let k = choose|k: int| 0 <= k < self.done().len() && self.done()[k] == m@;
                assert(self.done()[k] != m@);
            }
        }
        false
    }

    /// Records that `module` was visited, and queues those of its imports of modules that
    /// were not visited, in order.
    pub fn finish(&mut self, module: String, imports: &Vec<String>)
        requires
            old(self).wf(),
        ensures
            final(self).wf(),
            final(self).done() == old(self).done().push(module@),
            final(self).pending() == old(self).pending()
                + imports@.map_values(|m: String| m@).filter(|m: Seq<char>| !old(self).done().push(module@).contains(m)),
    {
        let ghost done = self.done().push(module@);
        let ghost xs = imports@.map_values(|m: String| m@);
        let ghost f = |m: Seq<char>| !done.contains(m);
        let ghost p0 = self.pending();
        self.visited.push(module);
        proof {
            assert(self.done() =~= done);
            assert(xs.take(0).filter(f) =~= Seq::<Seq<char>>::empty()) by {
                reveal(Seq::filter);
            }
            assert(self.pending() =~= p0 + xs.take(0).filter(f));
        }
        let mut i: usize = 0;
        while i < imports.len()
            invariant
                i <= imports.len(),
                self.wf(),
                self.done() == done,
                xs == imports@.map_values(|m: String| m@),
                f == (|m: Seq<char>| !done.contains(m)),
                self.pending() == p0 + xs.take(i as int).filter(f),
            decreases imports.len() - i,
        {
            proof {
                crate::solve::lemma_filter_take_step(xs, f, i as int);
            }
            let visited = self.is_visited(&imports[i]);
            let ghost before = self.pending();
            if !visited {
                self.queue.push(imports[i].clone());
                proof {
                    assert(self.pending() =~= before.push(xs[i as int]));
                }
            }
            i = i + 1;
        }
        proof {
            assert(xs.take(imports.len() as int) =~= xs);
        }
    }
}

impl ModuleWalk {
    /// Records that `module` was visited, given its imports of modules `imports` and its path
    /// dependencies `dependencies` as the module writes them: each import is resolved against
    /// the module's directory (see `spec_resolve_import`) and queued unless it was visited;
    /// the path dependencies are given back with their paths made relative to the package in
    /// the same way.
    pub fn visit(&mut self, module: String, imports: &Vec<String>, dependencies: &Vec<Dependency>) -> (r: Vec<Dependency>)
        requires
            old(self).wf(),
        ensures
            final(self).wf(),
            final(self).done() == old(self).done().push(module@),
            final(self).pending() == old(self).pending()
                + imports@.map_values(|m: String| spec_resolve_import(module@, m@))
                    .filter(|m: Seq<char>| !old(self).done().push(module@).contains(m)),
            r@.len() == dependencies@.len(),
            forall|i: int| 0 <= i < dependencies@.len() ==> {
                let d = (#[trigger] dependencies@[i])@;
                &&& r@[i]@.id == d.id
                &&& r@[i]@.name == d.name
                &&& r@[i]@.version == d.version
                &&& r@[i]@.path == match d.path {
                    Some(p) => Some(spec_resolve_import(module@, p)),
                    None => None,
                }
            },
    {
        let resolved = resolve_imports(module.as_str(), imports);
        let r = rewrite_path_dependencies(module.as_str(), dependencies);
        proof {
            assert(resolved@.map_values(|m: String| m@) =~= imports@.map_values(|m: String| spec_resolve_import(module@, m@)));
        }
        self.finish(module, &resolved);
        r
    }
}

/// What entering a package on disk finds.
#[derive(Debug, Clone, Copy, PartialEq, Eq, Structural)]
pub enum Visit {
    /// The package was read already; its result is at this index.
    Done(usize),
    /// The package is being read: the path dependencies are circular.
    Circular,
    /// The package is new: it is now being read.
    New,
}

/// The packages on disk that were entered: each path with the index of its result once it
/// was read, or `None` while it is being read.
#[derive(Debug)]
pub struct PackageVisits {
    entries: Vec<(String, Option<usize>)>,
}

impl PackageVisits {
    /// The paths entered, in order.
    pub closed spec fn paths(&self) -> Seq<Seq<char>> {
        self.entries@.map_values(|e: (String, Option<usize>)| e.0@)
    }

    /// The state of each path entered.
    pub closed spec fn states(&self) -> Seq<Option<usize>> {
        self.entries@.map_values(|e: (String, Option<usize>)| e.1)
    }

    /// The state of `path`: `None` if it was not entered, and otherwise its entry's state.
    pub closed spec fn state(&self, path: Seq<char>) -> Option<Option<usize>> {
        match seq_find(self.paths(), path) {
            Some(i) => Some(self.states()[i]),
            None => None,
        }
    }

    /// No packages entered.
    pub fn new() -> (r: PackageVisits)
        ensures
            forall|p: Seq<char>| r.state(p) is None,
    {
        let r = PackageVisits { entries: Vec::new() };
        proof {
            assert forall|p: Seq<char>| r.state(p) is None by {
                lemma_seq_find(r.paths(), p);
            }
        }
        r
    }

    /// The position of `path` among the entries.
    fn position(&self, path: &str) -> (r: Option<usize>)
        ensures
            match seq_find(self.paths(), path@) {
                Some(i) => r matches Some(x) && x as int == i,
                None => r is None,
            },
    {
        proof {
            lemma_seq_find(self.paths(), path@);
            lemma_seq_first_index(self.paths(), path@, 0);
        }
        let target = path.to_owned();
        let mut i: usize = 0;
        while i < self.entries.len()
            invariant
                i <= self.entries.len(),
                target@ == path@,
                forall|j: int| 0 <= j < i ==> self.paths()[j] != path@,
            decreases self.entries.len() - i,
        {
            assert(self.paths()[i as int] == self.entries@[i as int].0@);
            if self.entries[i].0 == target {
                proof {
                    lemma_seq_first_index(self.paths(), path@, 0);
                    lemma_seq_find(self.paths(), path@);
                    let f = seq_first_index(self.paths(), path@, 0);
                    if f < i {
                        assert(self.paths()[f] == path@);
                    }
                }
                return Some(i);
            }
            i = i + 1;
        }
        proof {
            lemma_seq_find(self.paths(), path@);
            if self.paths().contains(path@) {
                let k = choose|k: int| 0 <= k < self.paths().len() && self.paths()[k] == path@;
                assert(self.paths()[k] != path@);
            }
        }
        None
    }

    /// Enters the package at `path`: a package read already gives its result, one being read
    /// is circular, and a new one is now being read.
    pub fn enter(&mut self, path: &str) -> (r: Visit)
        ensures
            match old(self).state(path@) {
                Some(Some(i)) => r == Visit::Done(i) && *final(self) == *old(self),
                Some(None) => r == Visit::Circular && *final(self) == *old(self),
                None => r == Visit::New && final(self).state(path@) == Some(None::<usize>)
                    && forall|q: Seq<char>| q != path@ ==> #[trigger] final(self).state(q) == old(self).state(q),
            },
    {
        match self.position(path) {
            Some(i) => {
                assert(self.states()[i as int] == self.entries@[i as int].1);
                match self.entries[i].1 {
                    Some(k) => Visit::Done(k),
                    None => Visit::Circular,
                }
            },
            None => {
                let ghost p0 = self.paths();
                let ghost s0 = self.states();
                self.entries.push((path.to_owned(), None));
                proof {
                    assert(self.paths() =~= p0.push(path@));
                    assert(self.states() =~= s0.push(None));
                    lemma_seq_find(p0, path@);
                    lemma_seq_find_push(p0, path@, path@);
                    assert forall|q: Seq<char>| q != path@ implies #[trigger] self.state(q) == old(self).state(q) by {
                        lemma_seq_find_push(p0, path@, q);
                        lemma_seq_find(p0, q);
                    }
                }
                Visit::New
            },
        }
    }

    /// Records that the package at `path` was read, with its result at index `result`.
    pub fn finish(&mut self, path: &str, result: usize)
        ensures
            final(self).state(path@) == Some(Some(result)),
            forall|q: Seq<char>| q != path@ ==> #[trigger] final(self).state(q) == old(self).state(q),
    {
        let ghost p0 = self.paths();
        let ghost s0 = self.states();
        match self.position(path) {
            Some(i) => {
                let key = self.entries[i].0.clone();
                self.entries.set(i, (key, Some(result)));
                proof {
                    assert(self.paths() =~= p0);
                    assert(self.states() =~= s0.update(i as int, Some(result)));
                    lemma_seq_find(p0, path@);
                    assert forall|q: Seq<char>| q != path@ implies #[trigger] self.state(q) == old(self).state(q) by {
                        lemma_seq_find(p0, q);
                        if let Some(j) = seq_find(p0, q) {
                            assert(p0[j] == q);
                            assert(p0[i as int] == path@);
                            assert(j != i);
                        }
                    }
                }
            },
            None => {
                self.entries.push((path.to_owned(), Some(result)));
                proof {
                    assert(self.paths() =~= p0.push(path@));
                    assert(self.states() =~= s0.push(Some(result)));
                    lemma_seq_find(p0, path@);
                    lemma_seq_find_push(p0, path@, path@);
                    assert forall|q: Seq<char>| q != path@ implies #[trigger] self.state(q) == old(self).state(q) by {
                        lemma_seq_find_push(p0, path@, q);
                        lemma_seq_find(p0, q);
                    }
                }
            },
        }
    }
}

} // verus!
