//! Package dependencies and package metadata.

use vstd::prelude::*;
use vstd::string::StringExecFns;
use crate::text::{find_char, lemma_find_char, spec_find_char, starts_with_char, substring};

verus! {

/// The view of an optional string.
pub open spec fn opt_view(o: &Option<String>) -> Option<Seq<char>> {
    match o {
        Some(s) => Some(s@),
        None => None,
    }
}

/// Compares two optional strings by their contents.
pub fn opt_string_eq(a: &Option<String>, b: &Option<String>) -> (r: bool)
    ensures
        r == (opt_view(a) == opt_view(b)),
{
    match (a, b) {
        (Some(x), Some(y)) => *x == *y,
        (None, None) => true,
        _ => false,
    }
}

/// Clones an optional string.
pub fn opt_string_clone(a: &Option<String>) -> (r: Option<String>)
    ensures
        opt_view(&r) == opt_view(a),
{
    match a {
        Some(x) => Some(x.clone()),
        None => None,
    }
}

/// A dependency of a package: by registry name and version constraint, by path, or by id.
#[derive(Debug)]
pub struct Dependency {
    pub id: Option<String>,
    pub name: Option<String>,
    pub path: Option<String>,
    pub version: Option<String>,
}

/// The mathematical form of a dependency.
pub struct SpecDependency {
    pub id: Option<Seq<char>>,
    pub name: Option<Seq<char>>,
    pub path: Option<Seq<char>>,
    pub version: Option<Seq<char>>,
}

/// The text of a dependency, as reports and lockfiles write it: its path for a path
/// dependency, else its id, else its name with `@` and its version (the name alone without a
/// version), and nothing for a dependency with none of these.
pub open spec fn spec_text(d: SpecDependency) -> Seq<char> {
    match (d.path, d.id, d.name, d.version) {
        (Some(p), _, _, _) => p,
        (None, Some(i), _, _) => i,
        (None, None, Some(n), Some(v)) => n + seq!['@'] + v,
        (None, None, Some(n), None) => n,
        _ => Seq::empty(),
    }
}

/// The dependency that a text in a lockfile stands for: a path dependency for a text that
/// starts with `.` or `/`; otherwise the name before the first `@` with the version after it,
/// or the name alone when there is no `@`.
pub open spec fn spec_parse_text(t: Seq<char>) -> SpecDependency {
    if t.len() > 0 && (t[0] == '.' || t[0] == '/') {
        SpecDependency { id: None, name: None, path: Some(t), version: None }
    } else if spec_find_char(t, '@', 0) < t.len() {
        let k = spec_find_char(t, '@', 0);
        SpecDependency { id: None, name: Some(t.subrange(0, k)), path: None, version: Some(t.subrange(k + 1, t.len() as int)) }
    } else {
        SpecDependency { id: None, name: Some(t), path: None, version: None }
    }
}

/// Reading back the text of a dependency gives the dependency: for a dependency on a path
/// that starts with `.` or `/`, and for one with a registry name that has no `@` and does
/// not start with `.` or `/`, with or without a version.
pub proof fn law_parse_text_reads_back(d: SpecDependency)
    requires
        d.id is None,
        d.path is Some ==> d.name is None && d.version is None && d.path.unwrap().len() > 0
            && (d.path.unwrap()[0] == '.' || d.path.unwrap()[0] == '/'),
        d.path is None ==> d.name is Some && !d.name.unwrap().contains('@')
            && !(d.name.unwrap().len() > 0 && (d.name.unwrap()[0] == '.' || d.name.unwrap()[0] == '/')),
    ensures
        spec_parse_text(spec_text(d)) == d,
{
    if d.path is None {
        let n = d.name.unwrap();
        let t = spec_text(d);
        lemma_find_char(t, '@', 0);
        match d.version {
            Some(v) => {
                assert(t == n + seq!['@'] + v);
                assert(t[n.len() as int] == '@');
                let k = spec_find_char(t, '@', 0);
                if k < n.len() {
                    assert(t[k] == n[k]);
                    assert(n.contains('@'));
                }
                assert(k == n.len());
                assert(t.subrange(0, k) =~= n);
                assert(t.subrange(k + 1, t.len() as int) =~= v);
                if n.len() > 0 {
                    assert(t[0] == n[0]);
                } else {
                    assert(t[0] == '@');
                }
            },
            None => {
                assert(t == n);
                let k = spec_find_char(t, '@', 0);
                if k < t.len() {
                    assert(n.contains('@'));
                }
            },
        }
    }
}

impl View for Dependency {
    type V = SpecDependency;

    open spec fn view(&self) -> SpecDependency {
        SpecDependency {
            id: opt_view(&self.id),
            name: opt_view(&self.name),
            path: opt_view(&self.path),
            version: opt_view(&self.version),
        }
    }
}

impl Dependency {
    /// A registry dependency on `name`, constrained to `version` when it is given.
    pub fn with_name_and_version(name: String, version: Option<String>) -> (r: Dependency)
        ensures
            r@ == (SpecDependency { id: None, name: Some(name@), path: None, version: opt_view(&version) }),
    {
        Dependency { id: None, name: Some(name), path: None, version }
    }

    /// A dependency on the package at `path`.
    pub fn with_path(path: String) -> (r: Dependency)
        ensures
            r@ == (SpecDependency { id: None, name: None, path: Some(path@), version: None }),
    {
        Dependency { id: None, name: None, path: Some(path), version: None }
    }

    /// A dependency on the package with `id`.
    pub fn with_id(id: String) -> (r: Dependency)
        ensures
            r@ == (SpecDependency { id: Some(id@), name: None, path: None, version: None }),
    {
        Dependency { id: Some(id), name: None, path: None, version: None }
    }

    /// A copy of this dependency.
    pub fn duplicate(&self) -> (r: Dependency)
        ensures
            r@ == self@,
    {
        Dependency {
            id: opt_string_clone(&self.id),
            name: opt_string_clone(&self.name),
            path: opt_string_clone(&self.path),
            version: opt_string_clone(&self.version),
        }
    }

    /// The text of this dependency, as reports and lockfiles write it (see `spec_text`).
    pub fn text(&self) -> (r: String)
        ensures
            r@ == spec_text(self@),
    {
        if let Some(path) = &self.path {
            return path.clone();
        }
        if let Some(id) = &self.id {
            return id.clone();
        }
        match (&self.name, &self.version) {
            (Some(name), Some(version)) => {
                let r = name.clone().concat("@").concat(version.as_str());
                proof {
                    reveal_strlit("@");
                    assert("@"@ =~= seq!['@']);
                }
                r
            },
            (Some(name), None) => name.clone(),
            _ => String::new(),
        }
    }

    /// The dependency that a text in a lockfile stands for (see `spec_parse_text`).
    pub fn parse_text(text: &str) -> (r: Dependency)
        ensures
            r@ == spec_parse_text(text@),
    {
        if starts_with_char(text, '.') || starts_with_char(text, '/') {
            return Dependency::with_path(text.to_owned());
        }
        let n = text.unicode_len();
        let k = find_char(text, '@', 0);
        if k < n {
            Dependency::with_name_and_version(substring(text, 0, k), Some(substring(text, k + 1, n)))
        } else {
            let name = text.to_owned();
            Dependency::with_name_and_version(name, None)
        }
    }

    /// Whether two dependencies are the same.
    pub fn same(&self, other: &Dependency) -> (r: bool)
        ensures
            r == (self@ == other@),
    {
        opt_string_eq(&self.id, &other.id) && opt_string_eq(&self.name, &other.name)
            && opt_string_eq(&self.path, &other.path) && opt_string_eq(&self.version, &other.version)
    }
}

/// The metadata that a package declares.
#[derive(Debug)]
pub struct Metadata {
    pub name: Option<String>,
    pub version: Option<String>,
    pub description: Option<String>,
}

/// The mathematical form of package metadata.
pub struct SpecMetadata {
    pub name: Option<Seq<char>>,
    pub version: Option<Seq<char>>,
    pub description: Option<Seq<char>>,
}

impl View for Metadata {
    type V = SpecMetadata;

    open spec fn view(&self) -> SpecMetadata {
        SpecMetadata {
            name: opt_view(&self.name),
            version: opt_view(&self.version),
            description: opt_view(&self.description),
        }
    }
}

impl Metadata {
    /// A copy of this metadata.
    pub fn duplicate(&self) -> (r: Metadata)
        ensures
            r@ == self@,
    {
        Metadata {
            name: opt_string_clone(&self.name),
            version: opt_string_clone(&self.version),
            description: opt_string_clone(&self.description),
        }
    }

    /// Whether two metadata records are the same.
    pub fn same(&self, other: &Metadata) -> (r: bool)
        ensures
            r == (self@ == other@),
    {
        opt_string_eq(&self.name, &other.name) && opt_string_eq(&self.version, &other.version)
            && opt_string_eq(&self.description, &other.description)
    }
}

/// Whether the values of `s` are pairwise distinct.
pub open spec fn distinct<T>(s: Seq<T>) -> bool {
    forall|i: int, j: int| 0 <= i < s.len() && 0 <= j < s.len() && i != j ==> s[i] != s[j]
}

/// The index of the first occurrence of `x` in `t` at or after `from`, or the length of `t`.
pub open spec fn seq_first_index<T>(t: Seq<T>, x: T, from: int) -> int
    decreases t.len() - from,
{
    if from >= t.len() {
        t.len() as int
    } else if t[from] == x {
        from
    } else {
        seq_first_index(t, x, from + 1)
    }
}

/// The view of an optional index.
pub open spec fn opt_index(r: Option<usize>) -> Option<int> {
    match r {
        Some(i) => Some(i as int),
        None => None,
    }
}

/// The index of the first occurrence of `x` in `t`, if there is one.
pub open spec fn seq_find<T>(t: Seq<T>, x: T) -> Option<int> {
    if seq_first_index(t, x, 0) < t.len() {
        Some(seq_first_index(t, x, 0))
    } else {
        None
    }
}

/// `t` with `x` added at the end unless it is already there.
pub open spec fn seq_intern<T>(t: Seq<T>, x: T) -> Seq<T> {
    if t.contains(x) {
        t
    } else {
        t.push(x)
    }
}

/// `seq_first_index` is in range, points at `x` when below the length, and nothing before it is `x`.
pub proof fn lemma_seq_first_index<T>(t: Seq<T>, x: T, from: int)
    requires
        0 <= from <= t.len(),
    ensures
        from <= seq_first_index(t, x, from) <= t.len(),
        seq_first_index(t, x, from) < t.len() ==> t[seq_first_index(t, x, from)] == x,
        forall|j: int| from <= j < seq_first_index(t, x, from) ==> t[j] != x,
    decreases t.len() - from,
{
    if from < t.len() && t[from] != x {
        lemma_seq_first_index(t, x, from + 1);
    }
}

/// The first index of `x` is found when `x` occurs, and it is then the first occurrence.
pub proof fn lemma_seq_find<T>(t: Seq<T>, x: T)
    ensures
        seq_find(t, x) is Some <==> t.contains(x),
        seq_find(t, x) matches Some(i) ==> 0 <= i < t.len() && t[i] == x && forall|j: int| 0 <= j < i ==> t[j] != x,
{
    lemma_seq_first_index(t, x, 0);
    if t.contains(x) {
        let k = choose|k: int| 0 <= k < t.len() && t[k] == x;
        assert(seq_first_index(t, x, 0) <= k);
    }
}

/// After interning, `x` is found, and the table only grew by `x` if it was missing.
pub proof fn lemma_seq_intern<T>(t: Seq<T>, x: T)
    ensures
        seq_find(seq_intern(t, x), x) is Some,
        t.contains(x) ==> seq_find(seq_intern(t, x), x) == seq_find(t, x),
        !t.contains(x) ==> seq_find(seq_intern(t, x), x) == Some(t.len() as int),
        seq_intern(t, x).len() >= t.len(),
        forall|j: int| 0 <= j < t.len() ==> seq_intern(t, x)[j] == t[j],
{
    lemma_seq_find(t, x);
    let u = seq_intern(t, x);
    lemma_seq_find(u, x);
    if !t.contains(x) {
        assert(u[t.len() as int] == x);
        assert(u.contains(x));
        let i = seq_find(u, x).unwrap();
        if i < t.len() {
            assert(t[i] == x);
            assert(t.contains(x));
        }
    }
}

/// Finding a value after one more is added at the end.
pub proof fn lemma_seq_find_push<T>(t: Seq<T>, x: T, q: T)
    ensures
        seq_find(t.push(x), q) == (if t.contains(q) { seq_find(t, q) } else if q == x { Some(t.len() as int) } else { None }),
{
    let u = t.push(x);
    lemma_seq_find(t, q);
    lemma_seq_find(u, q);
    if t.contains(q) {
        let a = seq_find(t, q).unwrap();
        assert(u[a] == q);
        assert(u.contains(q));
        let b = seq_find(u, q).unwrap();
        if b < a {
            assert(t[b] == u[b]);
        }
        if a < b {
            assert(u[a] == q);
        }
    } else if q == x {
        assert(u[t.len() as int] == q);
        let b = seq_find(u, q).unwrap();
        if b < t.len() {
            assert(t[b] == u[b]);
        }
    } else {
        if u.contains(q) {
            let b = choose|b: int| 0 <= b < u.len() && u[b] == q;
            if b < t.len() {
                assert(t[b] == q);
            }
        }
    }
}

/// A table that gives each distinct string a stable index.
pub struct StringTable {
    pub items: Vec<String>,
}

impl StringTable {
    /// The strings of the table, by index.
    pub open spec fn view_seq(&self) -> Seq<Seq<char>> {
        self.items@.map_values(|s: String| s@)
    }

    /// An empty table.
    pub fn new() -> (r: StringTable)
        ensures
            r.view_seq() == Seq::<Seq<char>>::empty(),
    {
        StringTable { items: Vec::new() }
    }

    /// The index of `s` in the table, if it is there.
    pub fn find(&self, s: &str) -> (r: Option<usize>)
        ensures
            opt_index(r) == seq_find(self.view_seq(), s@),
    {
        proof {
            lemma_seq_find(self.view_seq(), s@);
        }
        let target = s.to_owned();
        let mut i: usize = 0;
        while i < self.items.len()
            invariant
                i <= self.items.len(),
                self.view_seq().len() == self.items.len(),
                target@ == s@,
                forall|j: int| 0 <= j < i ==> self.view_seq()[j] != s@,
            decreases self.items.len() - i,
        {
            if self.items[i] == target {
                proof {
                    assert(self.view_seq()[i as int] == self.items@[i as int]@);
                    lemma_seq_first_index(self.view_seq(), s@, 0);
                    let f = seq_first_index(self.view_seq(), s@, 0);
                    if f < i {
                        assert(self.view_seq()[f] == s@);
                    }
                }
                return Some(i);
            }
            i = i + 1;
        }
        proof {
            if self.view_seq().contains(s@) {
                let k = choose|k: int| 0 <= k < self.view_seq().len() && self.view_seq()[k] == s@;
                assert(self.view_seq()[k] != s@);
            }
        }
        None
    }

    /// The index of `s`, adding it at the end when it is not yet in the table.
    pub fn intern(&mut self, s: &str) -> (r: usize)
        ensures
            final(self).view_seq() == seq_intern(old(self).view_seq(), s@),
            Some(r as int) == seq_find(final(self).view_seq(), s@),
    {
        proof {
            lemma_seq_intern(old(self).view_seq(), s@);
            lemma_seq_find(old(self).view_seq(), s@);
        }
        match self.find(s) {
            Some(i) => i,
            None => {
                let n = self.items.len();
                self.items.push(s.to_owned());
                assert(self.view_seq() =~= old(self).view_seq().push(s@));
                n
            },
        }
    }

    /// The string at index `i`.
    pub fn get(&self, i: usize) -> (r: &String)
        requires
            i < self.view_seq().len(),
        ensures
            r@ == self.view_seq()[i as int],
    {
        assert(self.view_seq()[i as int] == self.items@[i as int]@);
        &self.items[i]
    }
}

} // verus!
