//! The records the engine works over: root commits, per-version metadata,
//! and the plain-value shapes a working tree enters and leaves the engine
//! in, each with its mathematical view.

use vstd::prelude::*;

verus! {

/// One record of the repository-wide root commit log.
///
/// Immutable once appended; the log's order is the chronological order.
#[derive(Debug, PartialEq, Eq)]
pub struct Commit {
    pub date: String,
    pub description: String,
    pub commit_id: String,
}

/// The mathematical value of a [`Commit`].
#[verifier::ext_equal]
pub ghost struct CommitView {
    pub date: Seq<char>,
    pub description: Seq<char>,
    pub commit_id: Seq<char>,
}

impl View for Commit {
    type V = CommitView;

    open spec fn view(&self) -> CommitView {
        CommitView {
            date: self.date@,
            description: self.description@,
            commit_id: self.commit_id@,
        }
    }
}

impl Clone for Commit {
    fn clone(&self) -> (res: Self)
        ensures
            res@ == self@,
    {
        Commit {
            date: self.date.clone(),
            description: self.description.clone(),
            commit_id: self.commit_id.clone(),
        }
    }
}

/// One version record in a tracked file's metadata index: the commit that
/// produced the version, and the byte range the version occupies in that
/// file's data blob.
#[derive(Debug, PartialEq, Eq)]
pub struct CommitMetadata {
    pub date: String,
    pub description: String,
    pub commit_id: String,
    pub pointer_to_data: usize,
    pub size: usize,
}

/// The mathematical value of a [`CommitMetadata`].
#[verifier::ext_equal]
pub ghost struct CommitMetadataView {
    pub date: Seq<char>,
    pub description: Seq<char>,
    pub commit_id: Seq<char>,
    pub pointer_to_data: int,
    pub size: int,
}

impl View for CommitMetadata {
    type V = CommitMetadataView;

    open spec fn view(&self) -> CommitMetadataView {
        CommitMetadataView {
            date: self.date@,
            description: self.description@,
            commit_id: self.commit_id@,
            pointer_to_data: self.pointer_to_data as int,
            size: self.size as int,
        }
    }
}

impl Clone for CommitMetadata {
    fn clone(&self) -> (res: Self)
        ensures
            res@ == self@,
    {
        CommitMetadata {
            date: self.date.clone(),
            description: self.description.clone(),
            commit_id: self.commit_id.clone(),
            pointer_to_data: self.pointer_to_data,
            size: self.size,
        }
    }
}

impl CommitMetadataView {
    /// The record for a version of `size` bytes starting at `pointer` in the
    /// data blob, labelled with commit `c`.
    pub open spec fn of_commit(c: CommitView, pointer: int, size: int) -> CommitMetadataView {
        CommitMetadataView {
            date: c.date,
            description: c.description,
            commit_id: c.commit_id,
            pointer_to_data: pointer,
            size: size,
        }
    }
}

/// A file of the working tree as the engine sees it at commit time: its
/// relative path and its full current content.
#[derive(Debug, PartialEq, Eq)]
pub struct WorkingFile {
    pub path: Vec<u8>,
    pub content: Vec<u8>,
}

/// The mathematical value of a [`WorkingFile`].
#[verifier::ext_equal]
pub ghost struct WorkingFileView {
    pub path: Seq<u8>,
    pub content: Seq<u8>,
}

impl View for WorkingFile {
    type V = WorkingFileView;

    open spec fn view(&self) -> WorkingFileView {
        WorkingFileView { path: self.path@, content: self.content@ }
    }
}

/// A file as `view` reconstructs it: the working-tree relative path and the
/// bytes to write there.
#[derive(Debug, PartialEq, Eq)]
pub struct RestoredFile {
    pub path: Vec<u8>,
    pub content: Vec<u8>,
}

/// The mathematical value of a [`RestoredFile`].
#[verifier::ext_equal]
pub ghost struct RestoredFileView {
    pub path: Seq<u8>,
    pub content: Seq<u8>,
}

impl View for RestoredFile {
    type V = RestoredFileView;

    open spec fn view(&self) -> RestoredFileView {
        RestoredFileView { path: self.path@, content: self.content@ }
    }
}

} // verus!
