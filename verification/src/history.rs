//! The per-file version store: an append-only data blob and the ordered
//! metadata index that addresses one contiguous byte range of it per
//! recorded version.

use vstd::prelude::*;

use crate::error::VcsError;
use crate::types::{Commit, CommitMetadata, CommitMetadataView, CommitView};

verus! {

/// The version history of one tracked file: an append-only data blob holding
/// every historical version's raw bytes, and an ordered metadata index whose
/// entries address contiguous, non-overlapping byte ranges of the blob.
pub struct FileHistory {
    pub entries: Vec<CommitMetadata>,
    pub data: Vec<u8>,
}

/// The mathematical value of a [`FileHistory`].
#[verifier::ext_equal]
pub ghost struct FileHistoryView {
    pub entries: Seq<CommitMetadataView>,
    pub data: Seq<u8>,
}

impl View for FileHistory {
    type V = FileHistoryView;

    open spec fn view(&self) -> FileHistoryView {
        FileHistoryView {
            entries: self.entries@.map_values(|m: CommitMetadata| m@),
            data: self.data@,
        }
    }
}

impl FileHistoryView {
    /// The entry addressing the most recently appended version.
    pub open spec fn last(self) -> CommitMetadataView {
        self.entries[self.entries.len() - 1]
    }

    /// Well-formedness: at least one version exists, the first version starts
    /// at offset zero, each later version is laid out immediately after its
    /// predecessor, and the last version ends exactly at the end of the blob.
    pub open spec fn wf(self) -> bool {
        &&& self.entries.len() > 0
        &&& self.entries[0].pointer_to_data == 0
        &&& forall|i: int| 0 <= i < self.entries.len() ==> #[trigger] self.entries[i].size >= 0
        &&& forall|i: int|
            1 <= i < self.entries.len() ==> #[trigger] self.entries[i].pointer_to_data
                == self.entries[i - 1].pointer_to_data + self.entries[i - 1].size
        &&& self.last().pointer_to_data + self.last().size == self.data.len()
    }

    /// The bytes of version `i`, addressed by its index entry.
    pub open spec fn version_content(self, i: int) -> Seq<u8> {
        self.data.subrange(
            self.entries[i].pointer_to_data,
            self.entries[i].pointer_to_data + self.entries[i].size,
        )
    }

    /// The bytes of the most recently recorded version.
    pub open spec fn last_content(self) -> Seq<u8> {
        self.version_content(self.entries.len() - 1)
    }

    /// The history of a file seen for the first time: one entry covering the
    /// whole blob.
    pub open spec fn first(c: CommitView, content: Seq<u8>) -> FileHistoryView {
        FileHistoryView {
            entries: seq![CommitMetadataView::of_commit(c, 0, content.len() as int)],
            data: content,
        }
    }

    /// The history after appending a new version holding `content`, laid out
    /// immediately after the previous last version.
    pub open spec fn append(self, c: CommitView, content: Seq<u8>) -> FileHistoryView {
        FileHistoryView {
            entries: self.entries.push(
                CommitMetadataView::of_commit(
                    c,
                    self.last().pointer_to_data + self.last().size,
                    content.len() as int,
                ),
            ),
            data: self.data + content,
        }
    }
}

/// A first version's history is well-formed.
pub proof fn lemma_first_wf(c: CommitView, content: Seq<u8>)
    ensures
        FileHistoryView::first(c, content).wf(),
{
    let h = FileHistoryView::first(c, content);
    assert(h.entries[0] == CommitMetadataView::of_commit(c, 0, content.len() as int));
}

/// Appending a version to a well-formed history keeps it well-formed: the
/// new entry's range starts exactly where the previous last version ended,
/// and ends exactly at the new end of the blob.
pub proof fn lemma_append_wf(h: FileHistoryView, c: CommitView, content: Seq<u8>)
    requires
        h.wf(),
    ensures
        h.append(c, content).wf(),
{
    let h2 = h.append(c, content);
    assert(h2.entries[0] == h.entries[0]);
    assert forall|i: int|
        1 <= i < h2.entries.len() implies #[trigger] h2.entries[i].pointer_to_data
        == h2.entries[i - 1].pointer_to_data + h2.entries[i - 1].size by {
        if i < h.entries.len() {
            assert(h.entries[i].pointer_to_data
                == h.entries[i - 1].pointer_to_data + h.entries[i - 1].size);
        }
    }
}

/// In a well-formed history every pointer is non-negative.
pub proof fn lemma_wf_pointer_nonneg(h: FileHistoryView, i: int)
    requires
        h.wf(),
        0 <= i < h.entries.len(),
    ensures
        h.entries[i].pointer_to_data >= 0,
    decreases i,
{
    if i > 0 {
        lemma_wf_pointer_nonneg(h, i - 1);
    }
}

/// In a well-formed history every entry addresses a byte range that lies
/// inside the data blob.
pub proof fn lemma_wf_entry_in_bounds(h: FileHistoryView, i: int)
    requires
        h.wf(),
        0 <= i < h.entries.len(),
    ensures
        h.entries[i].pointer_to_data >= 0,
        h.entries[i].pointer_to_data + h.entries[i].size <= h.data.len(),
    decreases h.entries.len() - i,
{
    lemma_wf_pointer_nonneg(h, i);
    if i < h.entries.len() - 1 {
        lemma_wf_entry_in_bounds(h, i + 1);
    }
}

impl FileHistory {
    /// Creates the history for a file seen for the first time: a metadata
    /// index with exactly one entry, and a data blob holding `content`.
    pub fn first_version(c: &Commit, content: Vec<u8>) -> (h: FileHistory)
        ensures
            h@ == FileHistoryView::first(c@, content@),
            h@.wf(),
    {
        let size = content.len();
        let entry = CommitMetadata {
            date: c.date.clone(),
            description: c.description.clone(),
            commit_id: c.commit_id.clone(),
            pointer_to_data: 0,
            size,
        };
        let mut entries: Vec<CommitMetadata> = Vec::new();
        entries.push(entry);
        let h = FileHistory { entries, data: content };
        proof {
            assert(h@.entries =~= FileHistoryView::first(c@, content@).entries);
            assert(h@ =~= FileHistoryView::first(c@, content@));
        }
        h
    }

    /// Appends a new version: one more index entry, whose range starts where
    /// the previous last version ended, and `content` appended to the end of
    /// the data blob.  Prior bytes of the blob are never rewritten.
    pub fn append_version(&mut self, c: &Commit, content: Vec<u8>)
        requires
            old(self)@.wf(),
        ensures
            final(self)@ == old(self)@.append(c@, content@),
            final(self)@.wf(),
    {
        let last_idx = self.entries.len() - 1;
        let last_ptr = self.entries[last_idx].pointer_to_data;
        let last_size = self.entries[last_idx].size;
        proof {
            assert(self@.entries[last_idx as int] == self.entries@[last_idx as int]@);
            assert(self.data.len() == self@.data.len());
            assert(last_ptr + last_size == self@.data.len());
            assert(last_ptr + last_size <= usize::MAX);
        }
        let size = content.len();
        let entry = CommitMetadata {
            date: c.date.clone(),
            description: c.description.clone(),
            commit_id: c.commit_id.clone(),
            pointer_to_data: last_ptr + last_size,
            size,
        };
        self.entries.push(entry);
        let mut tail = content;
        self.data.append(&mut tail);
        proof {
            let prev = old(self)@;
            assert(self@.entries =~= prev.append(c@, content@).entries);
            assert(self@ =~= prev.append(c@, content@));
            assert forall|i: int|
                1 <= i < self@.entries.len() implies #[trigger] self@.entries[i].pointer_to_data
                == self@.entries[i - 1].pointer_to_data + self@.entries[i - 1].size by {
                if i < prev.entries.len() {
                    assert(prev.entries[i].pointer_to_data
                        == prev.entries[i - 1].pointer_to_data + prev.entries[i - 1].size);
                }
            }
        }
    }

    /// Reads the version addressed by `pointer` and `size` out of the data
    /// blob.  Fails with `TruncatedBlob` exactly when fewer than `size` bytes
    /// lie at `pointer`: the index and the blob have come apart, which is
    /// non-recoverable corruption.
    pub fn read_version(&self, pointer: usize, size: usize) -> (r: Result<Vec<u8>, VcsError>)
        ensures
            match r {
                Ok(v) => {
                    &&& pointer + size <= self@.data.len()
                    &&& v@ == self@.data.subrange(pointer as int, pointer + size)
                },
                Err(e) => {
                    &&& e == VcsError::TruncatedBlob
                    &&& pointer + size > self@.data.len()
                },
            },
    {
        if pointer > self.data.len() || size > self.data.len() - pointer {
            return Err(VcsError::TruncatedBlob);
        }
        let mut out: Vec<u8> = Vec::new();
        let mut i: usize = 0;
        while i < size
            invariant
                pointer + size <= self.data.len(),
                i <= size,
                out@ == self@.data.subrange(pointer as int, pointer + i),
            decreases size - i,
        {
            out.push(self.data[pointer + i]);
            i = i + 1;
            proof {
                assert(out@ =~= self@.data.subrange(pointer as int, pointer + i));
            }
        }
        Ok(out)
    }

    /// The bytes of the most recently recorded version.
    pub fn last_version_content(&self) -> (v: Vec<u8>)
        requires
            self@.wf(),
        ensures
            v@ == self@.last_content(),
    {
        let last_idx = self.entries.len() - 1;
        let ptr = self.entries[last_idx].pointer_to_data;
        let size = self.entries[last_idx].size;
        proof {
            lemma_wf_entry_in_bounds(self@, self@.entries.len() - 1);
        }
        match self.read_version(ptr, size) {
            Ok(v) => v,
            Err(_) => {
                proof {
                    assert(false);
                }
                Vec::new()
            },
        }
    }
}

/// The first entry of `entries` labelled with commit `id`, searching in
/// index order, or `None` if the commit never touched this file.
pub open spec fn spec_find_metadata(entries: Seq<CommitMetadataView>, id: Seq<char>) -> Option<
    CommitMetadataView,
>
    decreases entries.len(),
{
    if entries.len() == 0 {
        None
    } else if entries[0].commit_id == id {
        Some(entries[0])
    } else {
        spec_find_metadata(entries.drop_first(), id)
    }
}

/// What `spec_find_metadata` returns, spelled out: `None` means no entry
/// carries the id; `Some` is the first entry that does.
pub proof fn lemma_find_metadata_characterizes(entries: Seq<CommitMetadataView>, id: Seq<char>)
    ensures
        match spec_find_metadata(entries, id) {
            None => forall|j: int|
                0 <= j < entries.len() ==> (#[trigger] entries[j]).commit_id != id,
            Some(m) => exists|j: int|
                {
                    &&& 0 <= j < entries.len()
                    &&& #[trigger] entries[j] == m
                    &&& m.commit_id == id
                    &&& forall|k: int| 0 <= k < j ==> (#[trigger] entries[k]).commit_id != id
                },
        },
    decreases entries.len(),
{
    if entries.len() == 0 {
    } else if entries[0].commit_id == id {
        assert(entries[0] == entries[0]);
    } else {
        lemma_find_metadata_characterizes(entries.drop_first(), id);
        match spec_find_metadata(entries.drop_first(), id) {
            None => {
                assert forall|j: int|
                    0 <= j < entries.len() implies (#[trigger] entries[j]).commit_id != id by {
                    if j > 0 {
                        assert(entries.drop_first()[j - 1] == entries[j]);
                    }
                }
            },
            Some(m) => {
                let j = choose|j: int|
                    {
                        &&& 0 <= j < entries.drop_first().len()
                        &&& #[trigger] entries.drop_first()[j] == m
                        &&& m.commit_id == id
                        &&& forall|k: int|
                            0 <= k < j ==> (#[trigger] entries.drop_first()[k]).commit_id != id
                    };
                assert(entries[j + 1] == m);
                assert forall|k: int|
                    0 <= k < j + 1 implies (#[trigger] entries[k]).commit_id != id by {
                    if k > 0 {
                        assert(entries.drop_first()[k - 1] == entries[k]);
                    }
                }
                assert(0 <= j + 1 < entries.len() && entries[j + 1] == m && m.commit_id == id
                    && forall|k: int| 0 <= k < j + 1 ==> (#[trigger] entries[k]).commit_id != id);
            },
        }
    }
}

/// If no existing entry carries `id`, then after pushing one more entry the
/// search finds that entry exactly when it carries `id`.
pub proof fn lemma_find_metadata_push(
    entries: Seq<CommitMetadataView>,
    m: CommitMetadataView,
    id: Seq<char>,
)
    requires
        forall|j: int| 0 <= j < entries.len() ==> (#[trigger] entries[j]).commit_id != id,
    ensures
        spec_find_metadata(entries.push(m), id) == if m.commit_id == id {
            Some(m)
        } else {
            None::<CommitMetadataView>
        },
    decreases entries.len(),
{
    if entries.len() == 0 {
        assert(entries.push(m)[0] == m);
        if m.commit_id != id {
            assert(entries.push(m).drop_first() =~= Seq::<CommitMetadataView>::empty());
        }
    } else {
        assert(entries[0].commit_id != id);
        assert(entries.push(m)[0] == entries[0]);
        assert(entries.push(m).drop_first() =~= entries.drop_first().push(m));
        lemma_find_metadata_push(entries.drop_first(), m, id);
    }
}

/// Linear scan for the first version record labelled with `commit_id`.
pub fn find_metadata_by_commit_id(metadata: &Vec<CommitMetadata>, commit_id: &str) -> (r: Option<
    CommitMetadata,
>)
    ensures
        match r {
            Some(m) => spec_find_metadata(
                metadata@.map_values(|x: CommitMetadata| x@),
                commit_id@,
            ) == Some(m@),
            None => spec_find_metadata(
                metadata@.map_values(|x: CommitMetadata| x@),
                commit_id@,
            ) is None,
        },
{
    let ghost entries = metadata@.map_values(|x: CommitMetadata| x@);
    let target: String = commit_id.to_owned();
    proof {
        assert(entries.skip(0) =~= entries);
    }
    let mut i: usize = 0;
    while i < metadata.len()
        invariant
            i <= metadata.len(),
            entries == metadata@.map_values(|x: CommitMetadata| x@),
            target@ == commit_id@,
            spec_find_metadata(entries, commit_id@) == spec_find_metadata(
                entries.skip(i as int),
                commit_id@,
            ),
            entries.len() == metadata@.len(),
        decreases metadata.len() - i,
    {
        if metadata[i].commit_id == target {
            assert(entries.skip(i as int)[0] == entries[i as int]);
            return Some(metadata[i].clone());
        }
        proof {
            assert(entries.skip(i as int)[0] == entries[i as int]);
            assert(entries.skip(i as int).drop_first() =~= entries.skip(i + 1));
        }
        i = i + 1;
    }
    proof {
        assert(entries.skip(metadata@.len() as int) =~= Seq::<CommitMetadataView>::empty());
    }
    None
}

} // verus!
