//! The messages that the compiler exchanges with its TypeScript runtime, and the language
//! server's text documents.

pub mod types;
pub mod request;
pub mod runtime;
pub mod transpile;
