//! The failure taxonomy. Every operation surfaces its failure to the caller
//! at once; only the outermost command layer renders it.

use vstd::prelude::*;

verus! {

#[derive(Debug, Clone, Copy, PartialEq, Eq, Structural)]
pub enum GitError {
    /// No store root was found walking up from the starting directory.
    NotARepository,
    /// The store root already exists where `init` would create it.
    AlreadyInitialized,
    /// No object is stored under the requested digest.
    ObjectNotFound,
    /// An object's payload did not decompress or deserialize.
    MalformedObject,
    /// The staging index is empty.
    NothingToCommit,
    /// The current branch has no commit to point a new branch at.
    NoCommitsYet,
    /// No branch ref of that name exists.
    BranchNotFound,
    /// A checkout target named neither a branch nor a stored object.
    RefNotFound,
    /// A filesystem operation failed.
    Io,
}

impl GitError {
    /// The human-readable rendering of the failure.
    pub fn message(&self) -> String {
        match self {
            GitError::NotARepository => "not a crab git repository".to_owned(),
            GitError::AlreadyInitialized => "repository already initialized".to_owned(),
            GitError::ObjectNotFound => "object not found".to_owned(),
            GitError::MalformedObject => "malformed object".to_owned(),
            GitError::NothingToCommit => "nothing to commit, working tree clean".to_owned(),
            GitError::NoCommitsYet => "no commits yet, cannot create branch".to_owned(),
            GitError::BranchNotFound => "branch does not exist".to_owned(),
            GitError::RefNotFound => "branch or commit not found".to_owned(),
            GitError::Io => "input/output error".to_owned(),
        }
    }
}

} // verus!
