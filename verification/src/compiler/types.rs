//! Positions, ranges, locations and diagnostics in modules.

use vstd::prelude::*;
use crate::module_url::ModuleUrl;

verus! {

/// A position in a text: a zero-based line and a zero-based character in it.
#[derive(Debug, Clone, Copy, PartialEq, Eq, Structural)]
pub struct Position {
    pub line: u32,
    pub character: u32,
}

/// A range of a text, from `start` to `end`.
#[derive(Debug, Clone, Copy, PartialEq, Eq, Structural)]
pub struct Range {
    pub start: Position,
    pub end: Position,
}

/// A range in a module.
#[derive(Debug)]
pub struct Location {
    pub url: ModuleUrl,
    pub range: Range,
}

/// How serious a diagnostic is.
#[derive(Debug, Clone, Copy, PartialEq, Eq, Structural)]
pub enum Severity {
    Error,
    Warning,
    Information,
    Hint,
}

/// A diagnostic of the compiler: where, how serious, and what.
#[derive(Debug)]
pub struct Diagnostic {
    pub location: Option<Location>,
    pub severity: Severity,
    pub message: String,
}

/// The completions at a position.
#[derive(Debug)]
pub struct CompletionInfo {
    pub entries: Vec<CompletionEntry>,
}

/// A completion.
#[derive(Debug)]
pub struct CompletionEntry {
    pub name: String,
}

/// The range at the start of a text, where a diagnostic without a location is shown.
pub open spec fn spec_default_range() -> Range {
    Range { start: Position { line: 0, character: 0 }, end: Position { line: 0, character: 0 } }
}

impl Diagnostic {
    /// The range at which the diagnostic is shown: its location's range, or the start of
    /// the text when it has no location.
    pub fn range(&self) -> (r: Range)
        ensures
            r == (match &self.location {
                Some(l) => l.range,
                None => spec_default_range(),
            }),
    {
        match &self.location {
            Some(l) => l.range,
            None => Range { start: Position { line: 0, character: 0 }, end: Position { line: 0, character: 0 } },
        }
    }
}

} // verus!
