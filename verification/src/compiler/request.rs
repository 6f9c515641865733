//! The requests that the language server sends to the compiler's TypeScript runtime, and
//! its responses. A response answers a request when it is of the same kind.

use vstd::prelude::*;
use crate::compiler::types::{CompletionInfo, Diagnostic, Location, Position};
use crate::module_url::ModuleUrl;

verus! {

/// A request to the runtime.
#[derive(Debug)]
pub enum Request {
    Check(CheckRequest),
    GetDiagnostics(GetDiagnosticsRequest),
    GotoDefinition(GotoDefintionRequest),
    GetHover(GetHoverRequest),
    Completion(CompletionRequest),
}

/// A response of the runtime.
#[derive(Debug)]
pub enum Response {
    Check(CheckResponse),
    GetDiagnostics(GetDiagnosticsResponse),
    GotoDefinition(GotoDefinitionResponse),
    GetHover(GetHoverResponse),
    Completion(CompletionResponse),
}

/// The kinds of requests and responses.
#[derive(Debug, Clone, Copy, PartialEq, Eq, Structural)]
pub enum Kind {
    Check,
    GetDiagnostics,
    GotoDefinition,
    GetHover,
    Completion,
}

/// Check the modules at these URLs.
#[derive(Debug)]
pub struct CheckRequest {
    pub urls: Vec<ModuleUrl>,
}

/// The diagnostics of each checked module.
#[derive(Debug)]
pub struct CheckResponse {
    pub diagnostics: Vec<(ModuleUrl, Vec<Diagnostic>)>,
}

/// Get the diagnostics of all modules.
#[derive(Debug)]
pub struct GetDiagnosticsRequest {}

/// The diagnostics of each module.
#[derive(Debug)]
pub struct GetDiagnosticsResponse {
    pub diagnostics: Vec<(ModuleUrl, Vec<Diagnostic>)>,
}

/// Find the definition of what is at a position.
#[derive(Debug)]
pub struct GotoDefintionRequest {
    pub url: ModuleUrl,
    pub position: Position,
}

/// The locations of the definition.
#[derive(Debug)]
pub struct GotoDefinitionResponse {
    pub locations: Option<Vec<Location>>,
}

/// Describe what is at a position.
#[derive(Debug)]
pub struct GetHoverRequest {
    pub url: ModuleUrl,
    pub position: Position,
}

/// The description of what is at a position.
#[derive(Debug)]
pub struct GetHoverResponse {
    pub info: Option<QuickInfo>,
}

/// A description, in parts.
#[derive(Debug)]
pub struct QuickInfo {
    pub display_parts: Option<Vec<SymbolDisplayPart>>,
}

/// A part of a description: its text and what kind of text it is.
#[derive(Debug)]
pub struct SymbolDisplayPart {
    pub text: String,
    pub kind: String,
}

/// Complete the text at a position.
#[derive(Debug)]
pub struct CompletionRequest {
    pub url: ModuleUrl,
    pub position: Position,
}

/// The completions.
#[derive(Debug)]
pub struct CompletionResponse {
    pub completion_info: Option<CompletionInfo>,
}

impl Request {
    /// The kind of the request.
    pub open spec fn spec_kind(&self) -> Kind {
        match self {
            Request::Check(_) => Kind::Check,
            Request::GetDiagnostics(_) => Kind::GetDiagnostics,
            Request::GotoDefinition(_) => Kind::GotoDefinition,
            Request::GetHover(_) => Kind::GetHover,
            Request::Completion(_) => Kind::Completion,
        }
    }

    /// The kind of the request.
    pub fn kind(&self) -> (r: Kind)
        ensures
            r == self.spec_kind(),
    {
        match self {
            Request::Check(_) => Kind::Check,
            Request::GetDiagnostics(_) => Kind::GetDiagnostics,
            Request::GotoDefinition(_) => Kind::GotoDefinition,
            Request::GetHover(_) => Kind::GetHover,
            Request::Completion(_) => Kind::Completion,
        }
    }
}

impl Response {
    /// The kind of the response.
    pub open spec fn spec_kind(&self) -> Kind {
        match self {
            Response::Check(_) => Kind::Check,
            Response::GetDiagnostics(_) => Kind::GetDiagnostics,
            Response::GotoDefinition(_) => Kind::GotoDefinition,
            Response::GetHover(_) => Kind::GetHover,
            Response::Completion(_) => Kind::Completion,
        }
    }

    /// The kind of the response.
    pub fn kind(&self) -> (r: Kind)
        ensures
            r == self.spec_kind(),
    {
        match self {
            Response::Check(_) => Kind::Check,
            Response::GetDiagnostics(_) => Kind::GetDiagnostics,
            Response::GotoDefinition(_) => Kind::GotoDefinition,
            Response::GetHover(_) => Kind::GetHover,
            Response::Completion(_) => Kind::Completion,
        }
    }

    /// Whether this response answers `request`: it is of the same kind; any other is an
    /// unexpected response.
    pub fn answers(&self, request: &Request) -> (r: bool)
        ensures
            r == (self.spec_kind() == request.spec_kind()),
    {
        self.kind() == request.kind()
    }
}

} // verus!
