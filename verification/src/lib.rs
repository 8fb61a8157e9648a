//! A declarative task-runner configuration language: one YAML-like document
//! describes named workspaces, shared state and a tree of command scopes.
//! The library canonicalizes the authored tree (desugaring key shorthand and
//! expanding section sugar) and resolves dotted command paths into executable
//! plans by folding inherited context scope by scope.

pub mod args;
pub mod autocapture;
pub mod command;
pub mod desugar;
pub mod errors;
pub mod expand;
pub mod load;
pub mod node;
pub mod normalize;
pub mod pathutil;
pub mod resolve;
pub mod strutil;
