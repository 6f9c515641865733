//! The requests and responses of the compiler's runtime by file paths.

use vstd::prelude::*;
use crate::compiler::types::Diagnostic;

verus! {

/// A request to the runtime.
#[derive(Debug)]
pub enum Request {
    Check(CheckRequest),
    GetDiagnostics(GetDiagnosticsRequest),
    GetDefinition(GetDefinitionRequest),
}

/// A response of the runtime.
#[derive(Debug)]
pub enum Response {
    Check(CheckResponse),
    GetDiagnostics(GetDiagnosticsResponse),
    GetDefinition(GetDefinitionResponse),
}

/// Check the modules at these paths.
#[derive(Debug)]
pub struct CheckRequest {
    pub paths: Vec<String>,
}

/// The diagnostics of each checked path.
#[derive(Debug)]
pub struct CheckResponse {
    pub diagnostics: Vec<(String, Vec<Diagnostic>)>,
}

/// Get the diagnostics of all modules.
#[derive(Debug)]
pub struct GetDiagnosticsRequest {}

/// The diagnostics of each path.
#[derive(Debug)]
pub struct GetDiagnosticsResponse {
    pub diagnostics: Vec<(String, Vec<Diagnostic>)>,
}

/// Find a definition.
#[derive(Debug)]
pub struct GetDefinitionRequest {}

/// The definition found.
#[derive(Debug)]
pub struct GetDefinitionResponse {}

impl Response {
    /// Whether this response answers `request`: it is of the same kind.
    pub fn answers(&self, request: &Request) -> (r: bool)
        ensures
            r == ((self is Check && request is Check) || (self is GetDiagnostics && request is GetDiagnostics)
                || (self is GetDefinition && request is GetDefinition)),
    {
        match (self, request) {
            (Response::Check(_), Request::Check(_)) => true,
            (Response::GetDiagnostics(_), Request::GetDiagnostics(_)) => true,
            (Response::GetDefinition(_), Request::GetDefinition(_)) => true,
            _ => false,
        }
    }
}

} // verus!
