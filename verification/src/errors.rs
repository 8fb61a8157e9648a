//! Error taxonomy of the pipeline: syntax errors (malformed shorthand or task
//! shapes), reference errors (unknown or misused keys, bad paths) and
//! resolution errors (missing scopes or commands). Every pass aborts its whole
//! operation on the first error; the error carries a dotted breadcrumb of the
//! position reached.

use vstd::prelude::*;
use vstd::string::StringExecFns;

verus! {

/// What went wrong. The breadcrumb lives beside it in [`ConfigError`].
#[derive(Clone, Copy, Debug, PartialEq, Eq, Structural)]
pub enum ErrorKind {
    /// A key holds more than one `?` section.
    ShorthandSyntax,
    /// The query section of a key did not parse.
    QueryParse,
    /// A query value did not parse as a document literal.
    LiteralParse,
    /// A key is not recognized where only known keys are allowed.
    UnknownKey,
    /// A reserved key reached a branch that should have consumed it earlier.
    ReservedKey,
    /// A node has the wrong shape for its position (for instance a scalar
    /// where only a mapping can stand).
    InvalidStructure,
    /// Shorthand properties cannot merge into a scalar value.
    MergeTarget,
    /// A task collection is neither a string nor a sequence of strings.
    TaskFormat,
    /// A value that must name a directory could not be turned into a path.
    PathNotFound,
    /// A path exists but does not name a directory.
    NotADirectory,
    /// A workspace value could not be classified as a path.
    WorkspaceNotFound,
    /// The home directory for a `~/` prefix could not be found.
    NoHomeDir,
    /// A non-final command path segment names no scope.
    ScopeNotFound,
    /// The final command target is missing from the nearest commands map.
    CommandNotFound,
    /// The document holds no `commands` section at all.
    NoCommands,
    /// The rewrite exceeded the depth budget of the pipeline.
    DepthExceeded,
}

/// An error of the pipeline: its kind plus the dotted breadcrumb that had
/// been accumulated when it was raised.
#[derive(Clone, Debug, PartialEq, Eq)]
pub struct ConfigError {
    pub kind: ErrorKind,
    pub path: String,
}

impl ConfigError {
    pub fn new(kind: ErrorKind, path: String) -> (r: ConfigError)
        ensures
            r.kind == kind,
            r.path == path,
    {
        ConfigError { kind, path }
    }

    /// A short display text; the library's types carry no `Display` of
    /// their own.
    pub fn message(&self) -> String {
        let text = match self.kind {
            ErrorKind::ShorthandSyntax => "invalid property shorthand syntax",
            ErrorKind::QueryParse => "unable to parse shorthand query",
            ErrorKind::LiteralParse => "unable to parse value literal",
            ErrorKind::UnknownKey => "unable to process unknown key",
            ErrorKind::ReservedKey => "processing a reserved key that should have been explicitly handled",
            ErrorKind::InvalidStructure => "key value is invalid type in mapping",
            ErrorKind::MergeTarget => "unable to merge shorthand props into key value",
            ErrorKind::TaskFormat => "command must be a string or array of strings",
            ErrorKind::PathNotFound => "unable to process path",
            ErrorKind::NotADirectory => "path must be to a directory",
            ErrorKind::WorkspaceNotFound => "unable to get path for workspace",
            ErrorKind::NoHomeDir => "unable to resolve home directory for '~'",
            ErrorKind::ScopeNotFound => "unable to find command scope in config",
            ErrorKind::CommandNotFound => "unable to find command in config",
            ErrorKind::NoCommands => "unable to run command, no commands defined in config",
            ErrorKind::DepthExceeded => "configuration rewrite exceeded the depth budget",
        };
        let mut out = String::from_str(text);
        out.append(": ");
        out.append(self.path.as_str());
        out
    }
}

} // verus!
