//! The report of why version solving failed: for each dependant with an error, which package
//! requires what, and why it cannot be had, following backtracking errors to their causes.

use vstd::prelude::*;
use vstd::string::StringExecFns;
use crate::model::{SolverView, SpecError};
use crate::solution::Dependant;
use crate::solve::{SolveError, Solver};
use crate::collections::mark_map_entries;

verus! {

/// The name and version of package `p`, from the metadata of its analysis; `None` when the
/// package has no analysis or its metadata lacks a name or a version.
pub open spec fn spec_label(s: SolverView, p: usize) -> Option<(Seq<char>, Seq<char>)> {
    if p < s.analysis.len() && s.analysis[p as int] is Some && s.analysis[p as int].unwrap().metadata < s.metadata.len() {
        let m = s.metadata[s.analysis[p as int].unwrap().metadata as int];
        match (m.name, m.version) {
            (Some(n), Some(v)) => Some((n, v)),
            _ => None,
        }
    } else {
        None
    }
}

/// The lines for the dependants among `keys` (from the `i`th on) whose dependency names the
/// package `name`: which package requires which dependency.
pub open spec fn spec_shared_lines(s: SolverView, keys: Seq<Dependant>, texts: Seq<Seq<char>>, name: Option<Seq<char>>, i: int) -> Option<Seq<char>>
    decreases keys.len() - i,
{
    if i < 0 || i >= keys.len() {
        Some(Seq::empty())
    } else {
        let k = keys[i];
        let rest = spec_shared_lines(s, keys, texts, name, i + 1);
        if k.1 < s.dependencies.len() && s.dependencies[k.1 as int].name == name {
            match (spec_label(s, k.0), rest) {
                (Some((n, v)), Some(r)) => if k.1 < texts.len() {
                    Some(n + " @ "@ + v + " requires "@ + texts[k.1 as int] + "\n"@ + r)
                } else {
                    None
                },
                _ => None,
            }
        } else if k.1 >= s.dependencies.len() {
            None
        } else {
            rest
        }
    }
}

/// The report of error `e` (by index) of dependant `d`; `texts` holds the text of each
/// dependency and `keys` the dependants with marks. `None` where a package has no name or
/// version, or an index is out of range; `fuel` bounds the depth of backtracking errors
/// followed.
pub open spec fn spec_format(s: SolverView, keys: Seq<Dependant>, texts: Seq<Seq<char>>, d: Dependant, e: usize, fuel: nat) -> Option<Seq<char>>
    decreases fuel, 0int,
{
    if fuel == 0 || e >= s.errors.len() || d.1 >= texts.len() || d.1 >= s.dependencies.len() {
        None
    } else {
        match spec_label(s, d.0) {
            None => None,
            Some((name, version)) => {
                let head = name + " @ "@ + version + " requires "@ + texts[d.1 as int] + ", but "@;
                match s.errors[e as int] {
                    SpecError::PackageCycleExists { dependant } => match spec_label(s, dependant.0) {
                        None => None,
                        Some((n2, v2)) => Some(head + n2 + "@"@ + v2 + ", which creates a cycle.\n"@),
                    },
                    SpecError::PackageVersionConflict => match spec_shared_lines(s, keys, texts, s.dependencies[d.1 as int].name, 0) {
                        None => None,
                        Some(lines) => Some(head + "no version could be found that satisfies the constraints.\n"@ + lines),
                    },
                    SpecError::Backtrack { package, previous_version, erroneous_dependencies } => {
                        match s.dependencies[d.1 as int].name {
                            None => None,
                            Some(dep_name) => match spec_format_list(s, keys, texts, package, erroneous_dependencies, 0, (fuel - 1) as nat) {
                                None => None,
                                Some(rest) => Some(head + dep_name + " "@ + previous_version + " has errors:\n"@ + rest),
                            },
                        }
                    },
                    SpecError::PathDependencyNotFound { dependency } => if dependency < texts.len() {
                        Some(head + "Could not resolve path dependency for "@ + texts[dependency as int] + ".\n"@)
                    } else {
                        None
                    },
                    SpecError::Other(message) => Some(head + message + "\n"@),
                }
            },
        }
    }
}

/// The reports of the erroneous dependencies `list` (from the `i`th on) of package `p`.
pub open spec fn spec_format_list(s: SolverView, keys: Seq<Dependant>, texts: Seq<Seq<char>>, p: usize, list: Seq<(usize, usize)>, i: int, fuel: nat) -> Option<Seq<char>>
    decreases fuel, list.len() - i + 1,
{
    if i < 0 || i >= list.len() {
        Some(Seq::empty())
    } else {
        match spec_format(s, keys, texts, (p, list[i].0), list[i].1, fuel) {
            None => None,
            Some(first) => match spec_format_list(s, keys, texts, p, list, i + 1, fuel) {
                None => None,
                Some(rest) => Some(first + rest),
            },
        }
    }
}

/// The report of all the failures (each a dependant and an error index), one after another.
pub open spec fn spec_report(s: SolverView, keys: Seq<Dependant>, texts: Seq<Seq<char>>, failures: Seq<(Dependant, usize)>, i: int) -> Option<Seq<char>>
    decreases failures.len() - i,
{
    if i < 0 || i >= failures.len() {
        Some(Seq::empty())
    } else {
        match spec_format(s, keys, texts, failures[i].0, failures[i].1, (s.errors.len() + 1) as nat) {
            None => None,
            Some(first) => match spec_report(s, keys, texts, failures, i + 1) {
                None => None,
                Some(rest) => Some(first + rest),
            },
        }
    }
}

impl Solver {
    /// The name and version of package `p` (see `spec_label`).
    pub fn label(&self, p: usize) -> (r: Option<(String, String)>)
        ensures
            match spec_label(self@, p) {
                Some((n, v)) => r matches Some(x) && x.0@ == n && x.1@ == v,
                None => r is None,
            },
    {
        if p >= self.analysis.len() {
            return None;
        }
        match &self.analysis[p] {
            None => None,
            Some(a) => {
                if a.metadata >= self.metadata.len() {
                    return None;
                }
                let m = &self.metadata[a.metadata];
                match (&m.name, &m.version) {
                    (Some(n), Some(v)) => Some((n.clone(), v.clone())),
                    _ => None,
                }
            },
        }
    }

    /// The lines for the dependants among `keys` whose dependency names `name` (see
    /// `spec_shared_lines`).
    fn shared_lines(&self, keys: &Vec<Dependant>, texts: &Vec<String>, name: &Option<String>, i: usize) -> (r: Option<String>)
        requires
            i <= keys.len(),
        ensures
            match spec_shared_lines(self@, keys@, texts@.map_values(|t: String| t@), crate::dependency::opt_view(name), i as int) {
                Some(x) => r matches Some(y) && y@ == x,
                None => r is None,
            },
        decreases keys.len() - i,
    {
        if i >= keys.len() {
            return Some(String::new());
        }
        let k = keys[i];
        let rest = self.shared_lines(keys, texts, name, i + 1);
        if k.1 >= self.dependencies.len() {
            return None;
        }
        if crate::dependency::opt_string_eq(&self.dependencies[k.1].name, name) {
            match (self.label(k.0), rest) {
                (Some((n, v)), Some(r)) => {
                    if k.1 < texts.len() {
                        Some(n.concat(" @ ").concat(v.as_str()).concat(" requires ").concat(texts[k.1].as_str()).concat("\n").concat(r.as_str()))
                    } else {
                        None
                    }
                },
                _ => None,
            }
        } else {
            rest
        }
    }

    /// The report of error `e` of dependant `d` (see `spec_format`).
    pub fn format(&self, keys: &Vec<Dependant>, texts: &Vec<String>, d: Dependant, e: usize, fuel: usize) -> (r: Option<String>)
        ensures
            match spec_format(self@, keys@, texts@.map_values(|t: String| t@), d, e, fuel as nat) {
                Some(x) => r matches Some(y) && y@ == x,
                None => r is None,
            },
        decreases fuel, 0int,
    {
        if fuel == 0 || e >= self.errors.len() || d.1 >= texts.len() || d.1 >= self.dependencies.len() {
            return None;
        }
        let (name, version) = match self.label(d.0) {
            None => {
                return None;
            },
            Some(l) => l,
        };
        let head = name.concat(" @ ").concat(version.as_str()).concat(" requires ").concat(texts[d.1].as_str()).concat(", but ");
        match &self.errors[e] {
            SolveError::PackageCycleExists { dependant } => match self.label(dependant.0) {
                None => None,
                Some((n2, v2)) => Some(head.concat(n2.as_str()).concat("@").concat(v2.as_str()).concat(", which creates a cycle.\n")),
            },
            SolveError::PackageVersionConflict => {
                if keys.len() == 0 {
                    proof {
                        assert(spec_shared_lines(self@, keys@, texts@.map_values(|t: String| t@), self@.dependencies[d.1 as int].name, 0) == Some(Seq::<char>::empty()));
                    }
                }
                match self.shared_lines(keys, texts, &self.dependencies[d.1].name, 0) {
                    None => None,
                    Some(lines) => Some(head.concat("no version could be found that satisfies the constraints.\n").concat(lines.as_str())),
                }
            },
            SolveError::Backtrack { package, previous_version, erroneous_dependencies } => {
                match &self.dependencies[d.1].name {
                    None => None,
                    Some(dep_name) => match self.format_list(keys, texts, *package, erroneous_dependencies, 0, fuel - 1) {
                        None => None,
                        Some(rest) => Some(head.concat(dep_name.as_str()).concat(" ").concat(previous_version.as_str()).concat(" has errors:\n").concat(rest.as_str())),
                    },
                }
            },
            SolveError::PathDependencyNotFound { dependency } => {
                if *dependency < texts.len() {
                    Some(head.concat("Could not resolve path dependency for ").concat(texts[*dependency].as_str()).concat(".\n"))
                } else {
                    None
                }
            },
            SolveError::Other(message) => Some(head.concat(message.as_str()).concat("\n")),
        }
    }

    /// The reports of the erroneous dependencies `list` of package `p` (see
    /// `spec_format_list`).
    fn format_list(&self, keys: &Vec<Dependant>, texts: &Vec<String>, p: usize, list: &Vec<(usize, usize)>, i: usize, fuel: usize) -> (r: Option<String>)
        requires
            i <= list.len(),
        ensures
            match spec_format_list(self@, keys@, texts@.map_values(|t: String| t@), p, list@, i as int, fuel as nat) {
                Some(x) => r matches Some(y) && y@ == x,
                None => r is None,
            },
        decreases fuel, list.len() - i + 1,
    {
        if i >= list.len() {
            return Some(String::new());
        }
        let first = match self.format(keys, texts, (p, list[i].0), list[i].1, fuel) {
            None => {
                return None;
            },
            Some(x) => x,
        };
        match self.format_list(keys, texts, p, list, i + 1, fuel) {
            None => None,
            Some(rest) => Some(first.concat(rest.as_str())),
        }
    }

    /// The report of all the failures, one after another (see `spec_report`); `None` where
    /// a package has no name or version, or an error cannot be reported.
    pub fn report(&self, keys: &Vec<Dependant>, texts: &Vec<String>, failures: &Vec<(Dependant, usize)>, i: usize) -> (r: Option<String>)
        requires
            i <= failures.len(),
            self@.errors.len() < usize::MAX,
        ensures
            match spec_report(self@, keys@, texts@.map_values(|t: String| t@), failures@, i as int) {
                Some(x) => r matches Some(y) && y@ == x,
                None => r is None,
            },
        decreases failures.len() - i,
    {
        if i >= failures.len() {
            return Some(String::new());
        }
        let first = match self.format(keys, texts, failures[i].0, failures[i].1, self.errors.len() + 1) {
            None => {
                return None;
            },
            Some(x) => x,
        };
        match self.report(keys, texts, failures, i + 1) {
            None => None,
            Some(rest) => Some(first.concat(rest.as_str())),
        }
    }
}


impl Solver {
    /// The dependants that have a mark in the current solution, each once, in the order of
    /// the map of marks.
    pub fn marked_dependants(&self) -> (r: Vec<Dependant>)
        ensures
            forall|i: int| 0 <= i < r@.len() ==> self@.current.solution.partial.contains_key(#[trigger] r@[i]),
            forall|k: Dependant| self@.current.solution.partial.contains_key(k) ==> r@.contains(k),
            forall|i: int, j: int| 0 <= i < r@.len() && 0 <= j < r@.len() && i != j ==> r@[i] != r@[j],
    {
        let entries = mark_map_entries(&self.current.solution.partial);
        proof {
            assert forall|j: int| 0 <= j < entries@.len() implies #[trigger] self@.current.solution.partial.contains_key(entries@[j].0) by {
                assert(crate::collections::mark_map(self.current.solution.partial).contains_key(entries@[j].0));
            }
        }
        let mut r: Vec<Dependant> = Vec::new();
        let mut i: usize = 0;
        while i < entries.len()
            invariant
                i <= entries.len(),
                r@.len() == i,
                forall|j: int| 0 <= j < i ==> #[trigger] r@[j] == entries@[j].0,
                forall|j: int| 0 <= j < entries@.len() ==> #[trigger] self@.current.solution.partial.contains_key(entries@[j].0),
            decreases entries.len() - i,
        {
            r.push(entries[i].0);
            i = i + 1;
        }
        proof {
            assert forall|i: int| 0 <= i < r@.len() implies self@.current.solution.partial.contains_key(#[trigger] r@[i]) by {
                assert(r@[i] == entries@[i].0);
            }
            assert forall|k: Dependant| self@.current.solution.partial.contains_key(k) implies r@.contains(k) by {
                assert(crate::collections::mark_map(self.current.solution.partial).contains_key(k));
                let j = choose|j: int| 0 <= j < entries@.len() && entries@[j].0 == k;
                assert(r@[j] == k);
            }
        }
        r
    }
}


/// The dependencies of package `p`'s analysis that are no path dependencies, in order.
pub open spec fn spec_registry_dependencies(s: SolverView, deps: Seq<usize>) -> Seq<usize> {
    deps.filter(|d: usize| d < s.dependencies.len() && s.dependencies[d as int].path is None)
}

impl Solver {
    /// The name that the metadata of package `p`'s analysis declares, or the error "Missing
    /// package name." (also when the package has no analysis).
    pub fn analysis_name(&self, p: usize) -> (r: Result<String, String>)
        ensures
            match r {
                Ok(n) => p < self@.analysis.len() && self@.analysis[p as int] is Some
                    && self@.analysis[p as int].unwrap().metadata < self@.metadata.len()
                    && self@.metadata[self@.analysis[p as int].unwrap().metadata as int].name == Some(n@),
                Err(e) => e@ == "Missing package name."@ && !(p < self@.analysis.len() && self@.analysis[p as int] is Some
                    && self@.analysis[p as int].unwrap().metadata < self@.metadata.len()
                    && self@.metadata[self@.analysis[p as int].unwrap().metadata as int].name is Some),
            },
    {
        if p < self.analysis.len() {
            if let Some(a) = &self.analysis[p] {
                if a.metadata < self.metadata.len() {
                    if let Some(n) = &self.metadata[a.metadata].name {
                        return Ok(n.clone());
                    }
                }
            }
        }
        Err("Missing package name.".to_owned())
    }

    /// The dependencies of package `p`'s analysis that are no path dependencies, in order.
    pub fn registry_dependencies(&self, p: usize) -> (r: Vec<usize>)
        requires
            p < self@.analysis.len(),
            self@.analysis[p as int] is Some,
        ensures
            r@ == spec_registry_dependencies(self@, self@.analysis[p as int].unwrap().dependencies),
    {
        let deps = match &self.analysis[p] {
            Some(a) => &a.dependencies,
            None => {
                return Vec::new();
            },
        };
        let ghost f = |d: usize| d < self@.dependencies.len() && self@.dependencies[d as int].path is None;
        let mut r: Vec<usize> = Vec::new();
        let mut i: usize = 0;
        proof {
            assert(deps@.take(0).filter(f) =~= Seq::<usize>::empty()) by {
                reveal(Seq::filter);
            }
        }
        while i < deps.len()
            invariant
                i <= deps.len(),
                f == (|d: usize| d < self@.dependencies.len() && self@.dependencies[d as int].path is None),
                r@ == deps@.take(i as int).filter(f),
            decreases deps.len() - i,
        {
            proof {
                crate::solve::lemma_filter_take_step(deps@, f, i as int);
            }
            let d = deps[i];
            if d < self.dependencies.len() && self.dependencies[d].path.is_none() {
                r.push(d);
            }
            i = i + 1;
        }
        proof {
            assert(deps@.take(deps.len() as int) =~= deps@);
        }
        r
    }
}

} // verus!
