//! Crate-wide error type and `Result` alias.
//!
//! Failures of git, SQLite and the filesystem reach the library as the
//! message text of the underlying error.

use vstd::prelude::*;

verus! {

/// Everything that can go wrong inside `tellme`.
#[derive(Debug, PartialEq, Eq)]
pub enum Error {
    /// No git repository was found at or above the start path.
    NotAGitRepo(String),
    /// The `.tellme/` store does not exist yet.
    StoreNotFound(String),
    /// A feature whose command exists but is not implemented yet.
    NotImplemented {
        /// The user-facing command name.
        command: &'static str,
        /// The roadmap phase that delivers it.
        phase: &'static str,
    },
    /// Bad configuration on disk or invalid value.
    Config(String),
    /// A libgit2 failure, by its message.
    Git(String),
    /// A SQLite failure, by its message.
    Db(String),
    /// A filesystem failure, by its message.
    Io(String),
    /// Catch-all for contextual messages.
    Other(String),
}

/// Convenience alias used throughout the crate.
pub type Result<T> = core::result::Result<T, Error>;

impl Error {
    /// Process exit code for this error: `2` for a not-yet-implemented
    /// command (clap's usage-error convention), `1` for everything else.
    pub fn exit_code(&self) -> (c: i32)
        ensures
            c == if self is NotImplemented {
                2i32
            } else {
                1i32
            },
    {
        match self {
            Error::NotImplemented { .. } => 2,
            _ => 1,
        }
    }
}

} // verus!
