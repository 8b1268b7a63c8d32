//! The failure taxonomy of the engine.

use vstd::prelude::*;

verus! {

/// Every way an engine operation can refuse to proceed.
///
/// `NotYetTracked` is a control-flow signal rather than a user-facing error:
/// it is how the per-file version store reports that no prior version of a
/// file exists.  `CorruptMetadata` and `TruncatedBlob` are data-integrity
/// failures and are fatal; the engine never attempts a repair.
#[derive(Clone, Copy, Debug, PartialEq, Eq, Structural)]
pub enum VcsError {
    RepositoryNotInitialized,
    AlreadyInitialized,
    NotYetTracked,
    CorruptMetadata,
    TruncatedBlob,
    RemoteAlreadyConfigured,
    RemoteAhead,
    NothingToPush,
}

impl VcsError {
    /// The words each failure prints, matching the engine's command-line
    /// surface.
    pub open spec fn spec_message(self) -> Seq<char> {
        match self {
            VcsError::RepositoryNotInitialized => "Repository not initialized"@,
            VcsError::AlreadyInitialized => "Already initialized"@,
            VcsError::NotYetTracked => "File not yet tracked"@,
            VcsError::CorruptMetadata => "Failed to parse metadata"@,
            VcsError::TruncatedBlob => "Data blob is shorter than its index"@,
            VcsError::RemoteAlreadyConfigured => "Remote already set"@,
            VcsError::RemoteAhead => "Remote history is ahead of local history, pull the changes first"@,
            VcsError::NothingToPush => "Nothing to push"@,
        }
    }

    /// A human-readable description, for the binary to print on failure.
    pub fn message(&self) -> (r: &'static str)
        ensures
            r@ == self.spec_message(),
            r@.len() > 0,
    {
        let m = match self {
            VcsError::RepositoryNotInitialized => "Repository not initialized",
            VcsError::AlreadyInitialized => "Already initialized",
            VcsError::NotYetTracked => "File not yet tracked",
            VcsError::CorruptMetadata => "Failed to parse metadata",
            VcsError::TruncatedBlob => "Data blob is shorter than its index",
            VcsError::RemoteAlreadyConfigured => "Remote already set",
            VcsError::RemoteAhead => "Remote history is ahead of local history, pull the changes first",
            VcsError::NothingToPush => "Nothing to push",
        };
        proof {
            reveal_strlit("Repository not initialized");
            reveal_strlit("Already initialized");
            reveal_strlit("File not yet tracked");
            reveal_strlit("Failed to parse metadata");
            reveal_strlit("Remote already set");
            reveal_strlit("Data blob is shorter than its index");
            reveal_strlit("Remote history is ahead of local history, pull the changes first");
            reveal_strlit("Nothing to push");
        }
        m
    }
}

} // verus!
