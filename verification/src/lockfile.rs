//! Lockfiles: for each package, the package and lock that each of its dependencies
//! resolves to. A lock is a map from dependencies to entries; a lockfile is a list of
//! distinct locks, and an entry refers to a lock by its position.

use vstd::prelude::*;
use crate::dependency::{Dependency, SpecDependency, opt_view, opt_string_eq, opt_string_clone};

verus! {

/// An entry of a lock: the package that a dependency resolves to (absent when the package
/// is found by the dependency's path) and the lock of that package.
#[derive(Debug)]
pub struct Entry {
    pub package: Option<String>,
    pub lock: usize,
}

/// The mathematical form of an entry.
pub struct EntryView {
    pub package: Option<Seq<char>>,
    pub lock: nat,
}

impl View for Entry {
    type V = EntryView;

    open spec fn view(&self) -> EntryView {
        EntryView { package: opt_view(&self.package), lock: self.lock as nat }
    }
}

impl Entry {
    /// Whether two entries are the same.
    pub fn same(&self, other: &Entry) -> (r: bool)
        ensures
            r == (self@ == other@),
    {
        opt_string_eq(&self.package, &other.package) && self.lock == other.lock
    }

    /// A copy of this entry.
    pub fn duplicate(&self) -> (r: Entry)
        ensures
            r@ == self@,
    {
        Entry { package: opt_string_clone(&self.package), lock: self.lock }
    }
}

/// The map that a list of key-value pairs gives when they are inserted in order: a later
/// pair for a key replaces an earlier one.
pub open spec fn pairs_map<K, V>(s: Seq<(K, V)>) -> Map<K, V>
    decreases s.len(),
{
    if s.len() == 0 {
        Map::empty()
    } else {
        pairs_map(s.drop_last()).insert(s.last().0, s.last().1)
    }
}

/// No key occurs twice in a list of pairs.
pub open spec fn keys_distinct<K, V>(s: Seq<(K, V)>) -> bool {
    forall|i: int, j: int| 0 <= i < s.len() && 0 <= j < s.len() && i != j ==> s[i].0 != s[j].0
}

/// With distinct keys, each pair is in the map, and the map has no other key.
pub proof fn lemma_pairs_map<K, V>(s: Seq<(K, V)>)
    requires
        keys_distinct(s),
    ensures
        forall|i: int| 0 <= i < s.len() ==> #[trigger] pairs_map(s).contains_key(s[i].0) && pairs_map(s)[s[i].0] == s[i].1,
        forall|k: K| #[trigger] pairs_map(s).contains_key(k) ==> exists|i: int| 0 <= i < s.len() && s[i].0 == k,
    decreases s.len(),
{
    if s.len() > 0 {
        let t = s.drop_last();
        assert(keys_distinct(t));
        lemma_pairs_map(t);
        assert forall|i: int| 0 <= i < s.len() implies #[trigger] pairs_map(s).contains_key(s[i].0) && pairs_map(s)[s[i].0] == s[i].1 by {
            if i < s.len() - 1 {
                assert(t[i] == s[i]);
                assert(pairs_map(t).contains_key(t[i].0));
                assert(s[i].0 != s.last().0);
            } else {
                assert(s[i] == s.last());
            }
        }
        assert forall|k: K| #[trigger] pairs_map(s).contains_key(k) implies exists|i: int| 0 <= i < s.len() && s[i].0 == k by {
            if k != s.last().0 {
                assert(pairs_map(t).contains_key(k));
                let i = choose|i: int| 0 <= i < t.len() && t[i].0 == k;
                assert(s[i] == t[i]);
            } else {
                assert(s[s.len() - 1].0 == k);
            }
        }
    }
}

/// Replacing the value of the pair at `i` inserts it into the map.
pub proof fn lemma_pairs_map_update<K, V>(s: Seq<(K, V)>, i: int, v: V)
    requires
        keys_distinct(s),
        0 <= i < s.len(),
    ensures
        pairs_map(s.update(i, (s[i].0, v))) == pairs_map(s).insert(s[i].0, v),
    decreases s.len(),
{
    let u = s.update(i, (s[i].0, v));
    let t = s.drop_last();
    if i == s.len() - 1 {
        assert(u.drop_last() =~= t);
        assert(pairs_map(u) =~= pairs_map(s).insert(s[i].0, v));
    } else {
        assert(keys_distinct(t));
        lemma_pairs_map_update(t, i, v);
        assert(u.drop_last() =~= t.update(i, (t[i].0, v)));
        assert(s[i].0 != s.last().0);
        assert(pairs_map(u) =~= pairs_map(s).insert(s[i].0, v));
    }
}

/// A lock: the entry of each dependency of a package, as pairs with distinct dependencies.
#[derive(Debug)]
pub struct Lock {
    pub dependencies: Vec<(Dependency, Entry)>,
}

impl Lock {
    /// The pairs of the lock, by their views.
    pub open spec fn pairs(&self) -> Seq<(SpecDependency, EntryView)> {
        self.dependencies@.map_values(|e: (Dependency, Entry)| (e.0@, e.1@))
    }

    /// No dependency occurs twice.
    pub open spec fn wf(&self) -> bool {
        keys_distinct(self.pairs())
    }

    /// A lock with no entries.
    pub fn new() -> (r: Lock)
        ensures
            r.wf(),
            r@ == Map::<SpecDependency, EntryView>::empty(),
    {
        let r = Lock { dependencies: Vec::new() };
        assert(r.pairs() =~= Seq::<(SpecDependency, EntryView)>::empty());
        r
    }

    /// Whether no dependency occurs twice in the lock.
    pub fn is_wf(&self) -> (r: bool)
        ensures
            r == self.wf(),
    {
        let n = self.dependencies.len();
        let mut i: usize = 0;
        while i < n
            invariant
                n == self.dependencies.len(),
                i <= n,
                forall|a: int, b: int| 0 <= a < i && 0 <= b < n && a != b ==> self.pairs()[a].0 != self.pairs()[b].0,
            decreases n - i,
        {
            let mut j: usize = 0;
            while j < n
                invariant
                    n == self.dependencies.len(),
                    i < n,
                    j <= n,
                    forall|a: int, b: int| 0 <= a < i && 0 <= b < n && a != b ==> self.pairs()[a].0 != self.pairs()[b].0,
                    forall|b: int| 0 <= b < j && b != i ==> self.pairs()[i as int].0 != self.pairs()[b].0,
                decreases n - j,
            {
                assert(self.pairs()[i as int].0 == self.dependencies@[i as int].0@);
                assert(self.pairs()[j as int].0 == self.dependencies@[j as int].0@);
                if i != j && self.dependencies[i].0.same(&self.dependencies[j].0) {
                    return false;
                }
                j = j + 1;
            }
            i = i + 1;
        }
        true
    }

    /// The position of the pair for dependency `d`, if there is one.
    pub fn position(&self, d: &Dependency) -> (r: Option<usize>)
        requires
            self.wf(),
        ensures
            match r {
                Some(i) => i < self.pairs().len() && self.pairs()[i as int].0 == d@,
                None => !self@.contains_key(d@),
            },
    {
        proof {
            lemma_pairs_map(self.pairs());
        }
        let mut i: usize = 0;
        while i < self.dependencies.len()
            invariant
                i <= self.dependencies.len(),
                self.wf(),
                forall|j: int| 0 <= j < i ==> self.pairs()[j].0 != d@,
            decreases self.dependencies.len() - i,
        {
            assert(self.pairs()[i as int].0 == self.dependencies@[i as int].0@);
            if self.dependencies[i].0.same(d) {
                return Some(i);
            }
            i = i + 1;
        }
        None
    }

    /// Sets the entry of dependency `d` to `e`.
    pub fn insert(&mut self, d: Dependency, e: Entry)
        requires
            old(self).wf(),
        ensures
            final(self).wf(),
            final(self)@ == old(self)@.insert(d@, e@),
    {
        let ghost s0 = self.pairs();
        let ghost dv = d@;
        let ghost ev = e@;
        match self.position(&d) {
            Some(i) => {
                self.dependencies.set(i, (d, e));
                proof {
                    assert(self.pairs() =~= s0.update(i as int, (s0[i as int].0, ev)));
                    lemma_pairs_map_update(s0, i as int, ev);
                }
            },
            None => {
                self.dependencies.push((d, e));
                proof {
                    assert(self.pairs() =~= s0.push((dv, ev)));
                    assert(self.pairs().drop_last() =~= s0);
                    lemma_pairs_map(s0);
                    assert forall|i: int, j: int| 0 <= i < self.pairs().len() && 0 <= j < self.pairs().len() && i != j
                        implies self.pairs()[i].0 != self.pairs()[j].0 by {
                        if i < s0.len() && j == s0.len() {
                            assert(pairs_map(s0).contains_key(s0[i].0));
                        }
                        if j < s0.len() && i == s0.len() {
                            assert(pairs_map(s0).contains_key(s0[j].0));
                        }
                    }
                }
            },
        }
    }

    /// The entry of dependency `d`, if there is one.
    pub fn get(&self, d: &Dependency) -> (r: Option<&Entry>)
        requires
            self.wf(),
        ensures
            match r {
                Some(e) => self@.contains_key(d@) && self@[d@] == e@,
                None => !self@.contains_key(d@),
            },
    {
        proof {
            lemma_pairs_map(self.pairs());
        }
        match self.position(d) {
            Some(i) => {
                assert(self.pairs()[i as int].1 == self.dependencies@[i as int].1@);
                assert(self@.contains_key(self.pairs()[i as int].0));
                Some(&self.dependencies[i].1)
            },
            None => None,
        }
    }

    /// Whether every pair of this lock is a pair of `other`.
    fn contained_in(&self, other: &Lock) -> (r: bool)
        requires
            self.wf(),
            other.wf(),
        ensures
            r == (forall|k: SpecDependency| #[trigger] self@.contains_key(k) ==> other@.contains_key(k) && other@[k] == self@[k]),
    {
        proof {
            lemma_pairs_map(self.pairs());
        }
        let mut i: usize = 0;
        while i < self.dependencies.len()
            invariant
                i <= self.dependencies.len(),
                self.wf(),
                other.wf(),
                forall|j: int| 0 <= j < i ==> other@.contains_key(#[trigger] self.pairs()[j].0) && other@[self.pairs()[j].0] == self.pairs()[j].1,
            decreases self.dependencies.len() - i,
        {
            let pair = &self.dependencies[i];
            proof {
                lemma_pairs_map(self.pairs());
            }
            assert(self.pairs()[i as int] == (pair.0@, pair.1@));
            assert(self@.contains_key(self.pairs()[i as int].0));
            match other.get(&pair.0) {
                Some(e) => {
                    if !e.same(&pair.1) {
                        assert(self@[pair.0@] == pair.1@);
                        return false;
                    }
                },
                None => {
                    return false;
                },
            }
            i = i + 1;
        }
        proof {
            assert forall|k: SpecDependency| #[trigger] self@.contains_key(k) implies other@.contains_key(k) && other@[k] == self@[k] by {
                let j = choose|j: int| 0 <= j < self.pairs().len() && self.pairs()[j].0 == k;
                assert(other@.contains_key(self.pairs()[j].0));
            }
        }
        true
    }

    /// Whether two locks map the same dependencies to the same entries.
    pub fn same(&self, other: &Lock) -> (r: bool)
        requires
            self.wf(),
            other.wf(),
        ensures
            r == (self@ == other@),
    {
        let a = self.contained_in(other);
        let b = other.contained_in(self);
        proof {
            if a && b {
                assert(self@ =~= other@);
            }
            if self@ == other@ {
                assert(a);
                assert(b);
            }
        }
        a && b
    }
}

impl View for Lock {
    type V = Map<SpecDependency, EntryView>;

    open spec fn view(&self) -> Map<SpecDependency, EntryView> {
        pairs_map(self.pairs())
    }
}

/// A lockfile: its locks; reading it back starts at the first.
#[derive(Debug)]
pub struct Lockfile {
    pub locks: Vec<Lock>,
}

impl Lockfile {
    /// Whether no lock of the lockfile has a dependency twice.
    pub fn is_wf(&self) -> (r: bool)
        ensures
            r == (forall|i: int| 0 <= i < self.locks@.len() ==> (#[trigger] self.locks@[i]).wf()),
    {
        let mut i: usize = 0;
        while i < self.locks.len()
            invariant
                i <= self.locks.len(),
                forall|k: int| 0 <= k < i ==> (#[trigger] self.locks@[k]).wf(),
            decreases self.locks.len() - i,
        {
            if !self.locks[i].is_wf() {
                return false;
            }
            i = i + 1;
        }
        true
    }
}

impl View for Lockfile {
    type V = Seq<Map<SpecDependency, EntryView>>;

    open spec fn view(&self) -> Seq<Map<SpecDependency, EntryView>> {
        self.locks@.map_values(|l: Lock| l@)
    }
}

} // verus!
