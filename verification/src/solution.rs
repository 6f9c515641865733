//! Partial and complete solutions of version solving, and the frames of its search.
//!
//! Packages, dependencies, names, versions and errors are referred to by their indices in
//! the tables of the solver; a dependant is the pair of a package and one of its dependencies.

use vstd::prelude::*;
use crate::collections::{
    OutcomeMap, MarkMap, outcome_map, mark_map, index_stack, pair_stack, outcome_map_new, mark_map_new,
    outcome_map_clone, mark_map_clone, mark_map_insert, outcome_map_insert, outcome_map_get, mark_map_get,
    pair_stack_clone, pair_stack_pop, index_stack_clone,
};

verus! {

/// The permanent outcome for a dependant: a package, or an error, by their indices.
#[derive(Clone, Copy, Debug, PartialEq, Eq, Structural)]
pub enum Outcome {
    Resolved(usize),
    Failed(usize),
}

/// The mark that a dependant carries in a solution: a temporary choice of package, or a
/// permanent outcome.
#[derive(Clone, Copy, Debug, PartialEq, Eq, Structural)]
pub enum Mark {
    Temporary(usize),
    Permanent(Outcome),
}

/// A dependant: a package (by index) and one of its dependencies (by index).
pub type Dependant = (usize, usize);

/// A solution: the outcome chosen for each package name, and the mark of each dependant.
pub struct Solution {
    pub permanent: OutcomeMap,
    pub partial: MarkMap,
}

/// The mathematical form of a solution.
pub struct SolutionView {
    pub permanent: Map<usize, Outcome>,
    pub partial: Map<Dependant, Mark>,
}

impl View for Solution {
    type V = SolutionView;

    open spec fn view(&self) -> SolutionView {
        SolutionView { permanent: outcome_map(self.permanent), partial: mark_map(self.partial) }
    }
}

/// The solution with no outcomes and no marks.
pub open spec fn spec_empty_solution() -> SolutionView {
    SolutionView { permanent: Map::empty(), partial: Map::empty() }
}

/// `solution` with `dependant` marked temporarily with `package`.
pub open spec fn spec_mark_temporarily(solution: SolutionView, dependant: Dependant, package: usize) -> SolutionView {
    SolutionView {
        permanent: solution.permanent,
        partial: solution.partial.insert(dependant, Mark::Temporary(package)),
    }
}

/// `solution` with `dependant` marked permanently with `outcome`; when `name` is given, the
/// outcome also becomes the one for that package name.
pub open spec fn spec_mark_permanently(solution: SolutionView, dependant: Dependant, name: Option<usize>, outcome: Outcome) -> SolutionView {
    SolutionView {
        permanent: match name {
            Some(n) => solution.permanent.insert(n, outcome),
            None => solution.permanent,
        },
        partial: solution.partial.insert(dependant, Mark::Permanent(outcome)),
    }
}

impl Solution {
    /// The empty solution.
    pub fn empty() -> (r: Solution)
        ensures
            r@ == spec_empty_solution(),
    {
        Solution { permanent: outcome_map_new(), partial: mark_map_new() }
    }

    /// A copy of this solution.
    pub fn duplicate(&self) -> (r: Solution)
        ensures
            r@ == self@,
    {
        Solution { permanent: outcome_map_clone(&self.permanent), partial: mark_map_clone(&self.partial) }
    }

    /// This solution with `dependant` marked temporarily with `package`.
    pub fn mark_temporarily(&self, dependant: Dependant, package: usize) -> (r: Solution)
        ensures
            r@ == spec_mark_temporarily(self@, dependant, package),
    {
        let mut solution = self.duplicate();
        mark_map_insert(&mut solution.partial, dependant, Mark::Temporary(package));
        solution
    }

    /// This solution with `dependant` marked permanently with `outcome`, which also becomes
    /// the outcome for the package name `name` when it is given.
    pub fn mark_permanently(&self, dependant: Dependant, name: Option<usize>, outcome: Outcome) -> (r: Solution)
        ensures
            r@ == spec_mark_permanently(self@, dependant, name, outcome),
    {
        let mut solution = self.duplicate();
        if let Some(n) = name {
            outcome_map_insert(&mut solution.permanent, n, outcome);
        }
        mark_map_insert(&mut solution.partial, dependant, Mark::Permanent(outcome));
        solution
    }

    /// The outcome for the package name `name`, if there is one.
    pub fn get_permanent(&self, name: usize) -> (r: Option<Outcome>)
        ensures
            r == (if self@.permanent.contains_key(name) { Some(self@.permanent[name]) } else { None }),
    {
        outcome_map_get(&self.permanent, name)
    }

    /// Whether the package name `name` has an outcome.
    pub fn contains(&self, name: usize) -> (r: bool)
        ensures
            r == self@.permanent.contains_key(name),
    {
        outcome_map_get(&self.permanent, name).is_some()
    }

    /// The mark of `dependant`, if it has one.
    pub fn get_partial(&self, dependant: Dependant) -> (r: Option<Mark>)
        ensures
            r == (if self@.partial.contains_key(dependant) { Some(self@.partial[dependant]) } else { None }),
    {
        mark_map_get(&self.partial, dependant)
    }
}

/// A frame of the search: a solution, the dependants still to solve (the last one is next),
/// the versions of the current dependant still to try, and the error that led back here.
pub struct Frame {
    pub solution: Solution,
    pub working_set: im::Vector<(usize, usize)>,
    pub remaining_versions: Option<im::Vector<usize>>,
    pub last_error: Option<usize>,
}

/// The mathematical form of a frame.
pub struct FrameView {
    pub solution: SolutionView,
    pub working_set: Seq<Dependant>,
    pub remaining_versions: Option<Seq<usize>>,
    pub last_error: Option<usize>,
}

impl View for Frame {
    type V = FrameView;

    open spec fn view(&self) -> FrameView {
        FrameView {
            solution: self.solution@,
            working_set: pair_stack(self.working_set),
            remaining_versions: match self.remaining_versions {
                Some(v) => Some(index_stack(v)),
                None => None,
            },
            last_error: self.last_error,
        }
    }
}

/// The next dependant of a frame, with the working set that is left after taking it.
pub open spec fn spec_next_dependant(frame: FrameView) -> Option<(Seq<Dependant>, Dependant)> {
    if frame.working_set.len() == 0 {
        None
    } else {
        Some((frame.working_set.drop_last(), frame.working_set.last()))
    }
}

impl Frame {
    /// A copy of this frame.
    pub fn duplicate(&self) -> (r: Frame)
        ensures
            r@ == self@,
    {
        Frame {
            solution: self.solution.duplicate(),
            working_set: pair_stack_clone(&self.working_set),
            remaining_versions: match &self.remaining_versions {
                Some(v) => Some(index_stack_clone(v)),
                None => None,
            },
            last_error: self.last_error,
        }
    }

    /// Takes the next dependant of the working set, leaving this frame unchanged.
    pub fn next_dependant(&self) -> (r: Option<(im::Vector<(usize, usize)>, Dependant)>)
        ensures
            match r {
                Some((ws, d)) => spec_next_dependant(self@) == Some((pair_stack(ws), d)),
                None => spec_next_dependant(self@) is None,
            },
    {
        let mut working_set = pair_stack_clone(&self.working_set);
        match pair_stack_pop(&mut working_set) {
            Some(d) => Some((working_set, d)),
            None => None,
        }
    }
}

} // verus!
