//! What transpiling a module gives.

use vstd::prelude::*;

verus! {

/// A transpiled module: its JavaScript source, and the source map back to the TypeScript
/// source when one was made.
#[derive(Debug, Clone)]
pub struct Output {
    pub transpiled_source: String,
    pub source_map: Option<String>,
}

} // verus!
