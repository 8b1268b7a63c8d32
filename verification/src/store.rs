//! The local store and the snapshot engine: the root commit log, the
//! tracked files, the commit-time diff-and-append fold, and snapshot
//! reconstruction.

use vstd::prelude::*;

use crate::error::VcsError;
use crate::history::{
    find_metadata_by_commit_id, lemma_append_wf, lemma_find_metadata_characterizes,
    lemma_first_wf, lemma_wf_entry_in_bounds, spec_find_metadata, FileHistory, FileHistoryView,
};
use crate::paths::{escape_path, spec_escape_path, spec_unescape_path, unescape_path};
use crate::types::{
    Commit, CommitMetadata, CommitMetadataView, CommitView, RestoredFile, RestoredFileView,
    WorkingFile, WorkingFileView,
};
use crate::util::{bytes_eq, clone_bytes};

verus! {

/// One tracked file of the store: its flat storage key (the escaped
/// working-tree path) and its version history.
pub struct TrackedFile {
    pub key: Vec<u8>,
    pub history: FileHistory,
}

/// The mathematical value of a [`TrackedFile`].
#[verifier::ext_equal]
pub ghost struct TrackedFileView {
    pub key: Seq<u8>,
    pub history: FileHistoryView,
}

impl View for TrackedFile {
    type V = TrackedFileView;

    open spec fn view(&self) -> TrackedFileView {
        TrackedFileView { key: self.key@, history: self.history@ }
    }
}

/// The whole local store: the root commit log, one history per tracked file,
/// and the optional remote namespace marker.
pub struct Store {
    pub commits: Vec<Commit>,
    pub files: Vec<TrackedFile>,
    pub remote: Option<String>,
}

/// The mathematical value of a [`Store`].
#[verifier::ext_equal]
pub ghost struct StoreView {
    pub commits: Seq<CommitView>,
    pub files: Seq<TrackedFileView>,
    pub remote: Option<Seq<char>>,
}

impl View for Store {
    type V = StoreView;

    open spec fn view(&self) -> StoreView {
        StoreView {
            commits: self.commits@.map_values(|c: Commit| c@),
            files: self.files@.map_values(|f: TrackedFile| f@),
            remote: match self.remote {
                Option::Some(ref s) => Option::Some(s@),
                Option::None => Option::None,
            },
        }
    }
}

/// Well-formedness of a tracked-file sequence: every history is well-formed,
/// and no two tracked files share a storage key.
pub open spec fn files_wf(files: Seq<TrackedFileView>) -> bool {
    &&& forall|i: int| 0 <= i < files.len() ==> (#[trigger] files[i]).history.wf()
    &&& forall|i: int, j: int|
        0 <= i < j < files.len() ==> (#[trigger] files[i]).key != (#[trigger] files[j]).key
}

impl StoreView {
    /// The store of a freshly initialized repository: no commits, no tracked
    /// files, no remote.
    pub open spec fn init() -> StoreView {
        StoreView { commits: Seq::empty(), files: Seq::empty(), remote: Option::None }
    }

    /// Well-formedness of the whole store.
    pub open spec fn wf(self) -> bool {
        files_wf(self.files)
    }
}

/// The index of the first tracked file whose key is `key`, in store order,
/// or `None` if no file has that key (the file is not yet tracked).
pub open spec fn spec_find_file(files: Seq<TrackedFileView>, key: Seq<u8>) -> Option<int>
    decreases files.len(),
{
    if files.len() == 0 {
        None
    } else if files[0].key == key {
        Some(0int)
    } else {
        match spec_find_file(files.drop_first(), key) {
            None => None,
            Some(i) => Some(i + 1),
        }
    }
}

/// What `spec_find_file` returns, spelled out.
pub proof fn lemma_find_file_characterizes(files: Seq<TrackedFileView>, key: Seq<u8>)
    ensures
        match spec_find_file(files, key) {
            None => forall|j: int| 0 <= j < files.len() ==> (#[trigger] files[j]).key != key,
            Some(i) => {
                &&& 0 <= i < files.len()
                &&& files[i].key == key
                &&& forall|k: int| 0 <= k < i ==> (#[trigger] files[k]).key != key
            },
        },
    decreases files.len(),
{
    if files.len() == 0 {
    } else if files[0].key == key {
    } else {
        lemma_find_file_characterizes(files.drop_first(), key);
        match spec_find_file(files.drop_first(), key) {
            None => {
                assert forall|j: int|
                    0 <= j < files.len() implies (#[trigger] files[j]).key != key by {
                    if j > 0 {
                        assert(files.drop_first()[j - 1] == files[j]);
                    }
                }
            },
            Some(i) => {
                assert(files.drop_first()[i] == files[i + 1]);
                assert forall|k: int| 0 <= k < i + 1 implies (#[trigger] files[k]).key != key by {
                    if k > 0 {
                        assert(files.drop_first()[k - 1] == files[k]);
                    }
                }
            },
        }
    }
}

/// The first commit of the root log carrying `commit_id`, in log order.
pub open spec fn spec_find_commit(commits: Seq<CommitView>, id: Seq<char>) -> Option<CommitView>
    decreases commits.len(),
{
    if commits.len() == 0 {
        None
    } else if commits[0].commit_id == id {
        Some(commits[0])
    } else {
        spec_find_commit(commits.drop_first(), id)
    }
}

/// What `spec_find_commit` returns, spelled out: `None` means no commit in
/// the log carries the id; `Some` is the first commit that does — no
/// earlier record of the log carries the id.
pub proof fn lemma_find_commit_characterizes(commits: Seq<CommitView>, id: Seq<char>)
    ensures
        match spec_find_commit(commits, id) {
            None => forall|j: int|
                0 <= j < commits.len() ==> (#[trigger] commits[j]).commit_id != id,
            Some(c) => exists|j: int|
                {
                    &&& 0 <= j < commits.len()
                    &&& #[trigger] commits[j] == c
                    &&& c.commit_id == id
                    &&& forall|k: int| 0 <= k < j ==> (#[trigger] commits[k]).commit_id != id
                },
        },
    decreases commits.len(),
{
    if commits.len() == 0 {
    } else if commits[0].commit_id == id {
        assert(commits[0] == commits[0]);
    } else {
        lemma_find_commit_characterizes(commits.drop_first(), id);
        match spec_find_commit(commits.drop_first(), id) {
            None => {
                assert forall|j: int|
                    0 <= j < commits.len() implies (#[trigger] commits[j]).commit_id != id by {
                    if j > 0 {
                        assert(commits.drop_first()[j - 1] == commits[j]);
                    }
                }
            },
            Some(c) => {
                let j = choose|j: int|
                    {
                        &&& 0 <= j < commits.drop_first().len()
                        &&& #[trigger] commits.drop_first()[j] == c
                        &&& c.commit_id == id
                        &&& forall|k: int|
                            0 <= k < j ==> (#[trigger] commits.drop_first()[k]).commit_id != id
                    };
                assert(commits[j + 1] == c);
                assert forall|k: int|
                    0 <= k < j + 1 implies (#[trigger] commits[k]).commit_id != id by {
                    if k > 0 {
                        assert(commits.drop_first()[k - 1] == commits[k]);
                    }
                }
                assert(0 <= j + 1 < commits.len() && commits[j + 1] == c && c.commit_id == id
                    && forall|k: int| 0 <= k < j + 1 ==> (#[trigger] commits[k]).commit_id != id);
            },
        }
    }
}

/// Linear scan of the root commit log for the first commit with `commit_id`;
/// commit counts are expected to stay small, so no index is kept.
pub fn find_commit_by_commit_id(commits: &Vec<Commit>, commit_id: &str) -> (r: Option<Commit>)
    ensures
        match r {
            Some(c) => spec_find_commit(commits@.map_values(|x: Commit| x@), commit_id@) == Some(
                c@,
            ),
            None => spec_find_commit(commits@.map_values(|x: Commit| x@), commit_id@) is None,
        },
{
    let ghost log = commits@.map_values(|x: Commit| x@);
    let target: String = commit_id.to_owned();
    proof {
        assert(log.skip(0) =~= log);
    }
    let mut i: usize = 0;
    while i < commits.len()
        invariant
            i <= commits.len(),
            log == commits@.map_values(|x: Commit| x@),
            target@ == commit_id@,
            spec_find_commit(log, commit_id@) == spec_find_commit(log.skip(i as int), commit_id@),
            log.len() == commits@.len(),
        decreases commits.len() - i,
    {
        if commits[i].commit_id == target {
            assert(log.skip(i as int)[0] == log[i as int]);
            return Some(commits[i].clone());
        }
        proof {
            assert(log.skip(i as int)[0] == log[i as int]);
            assert(log.skip(i as int).drop_first() =~= log.skip(i + 1));
        }
        i = i + 1;
    }
    proof {
        assert(log.skip(log.len() as int) =~= Seq::<CommitView>::empty());
    }
    None
}

/// What committing does to the tracked files for one working-tree file `w`:
/// a file never seen before enters the store with a one-entry history; a
/// tracked file whose current content equals its last recorded version is
/// left alone; a tracked file whose content changed gets one appended
/// version.
pub open spec fn spec_commit_one(
    files: Seq<TrackedFileView>,
    w: WorkingFileView,
    c: CommitView,
) -> Seq<TrackedFileView> {
    let key = spec_escape_path(w.path);
    match spec_find_file(files, key) {
        None => files.push(TrackedFileView { key, history: FileHistoryView::first(c, w.content) }),
        Some(i) => if files[i].history.last_content() == w.content {
            files
        } else {
            files.update(
                i,
                TrackedFileView { key, history: files[i].history.append(c, w.content) },
            )
        },
    }
}

/// The per-file fold of a commit, over the enumerated working files in
/// order.
pub open spec fn spec_commit_files(
    files: Seq<TrackedFileView>,
    ws: Seq<WorkingFileView>,
    c: CommitView,
) -> Seq<TrackedFileView>
    decreases ws.len(),
{
    if ws.len() == 0 {
        files
    } else {
        spec_commit_files(spec_commit_one(files, ws[0], c), ws.drop_first(), c)
    }
}

/// What a whole commit does to the store: the commit record is appended to
/// the root log unconditionally — even when no file changed — and the
/// tracked files are folded over the working tree.
pub open spec fn spec_commit(
    s: StoreView,
    ws: Seq<WorkingFileView>,
    c: CommitView,
) -> StoreView {
    StoreView {
        commits: s.commits.push(c),
        files: spec_commit_files(s.files, ws, c),
        remote: s.remote,
    }
}

/// The fold taken one step further at the end: processing `ws` then one more
/// file equals processing `ws.push(w)`.
pub proof fn lemma_commit_files_snoc(
    files: Seq<TrackedFileView>,
    ws: Seq<WorkingFileView>,
    w: WorkingFileView,
    c: CommitView,
)
    ensures
        spec_commit_files(files, ws.push(w), c) == spec_commit_one(
            spec_commit_files(files, ws, c),
            w,
            c,
        ),
    decreases ws.len(),
{
    if ws.len() == 0 {
        assert(ws.push(w)[0] == w);
        assert(ws.push(w).drop_first() =~= Seq::<WorkingFileView>::empty());
        assert(spec_commit_files(files, ws.push(w), c) == spec_commit_files(
            spec_commit_one(files, w, c),
            Seq::<WorkingFileView>::empty(),
            c,
        ));
        assert(spec_commit_files(spec_commit_one(files, w, c), Seq::<WorkingFileView>::empty(), c)
            == spec_commit_one(files, w, c));
        assert(spec_commit_files(files, ws, c) == files);
    } else {
        assert(ws.push(w)[0] == ws[0]);
        assert(ws.push(w).drop_first() =~= ws.drop_first().push(w));
        lemma_commit_files_snoc(spec_commit_one(files, ws[0], c), ws.drop_first(), w, c);
        assert(spec_commit_files(files, ws.push(w), c) == spec_commit_files(
            spec_commit_one(files, ws[0], c),
            ws.drop_first().push(w),
            c,
        ));
        assert(spec_commit_files(files, ws, c) == spec_commit_files(
            spec_commit_one(files, ws[0], c),
            ws.drop_first(),
            c,
        ));
    }
}

/// One step of the fold preserves well-formedness of the tracked files.
pub proof fn lemma_commit_one_preserves_wf(
    files: Seq<TrackedFileView>,
    w: WorkingFileView,
    c: CommitView,
)
    requires
        files_wf(files),
    ensures
        files_wf(spec_commit_one(files, w, c)),
{
    let key = spec_escape_path(w.path);
    lemma_find_file_characterizes(files, key);
    match spec_find_file(files, key) {
        None => {
            lemma_first_wf(c, w.content);
            let fs2 = files.push(TrackedFileView { key, history: FileHistoryView::first(c, w.content) });
            assert forall|i: int| 0 <= i < fs2.len() implies (#[trigger] fs2[i]).history.wf() by {
                if i < files.len() {
                    assert(files[i].history.wf());
                }
            }
            assert forall|i: int, j: int|
                0 <= i < j < fs2.len() implies (#[trigger] fs2[i]).key != (
            #[trigger] fs2[j]).key by {
                if j < files.len() {
                    assert(files[i].key != files[j].key);
                } else {
                    assert(fs2[j].key == key);
                    assert(files[i].key != key);
                }
            }
        },
        Some(i) => {
            if files[i].history.last_content() != w.content {
                lemma_append_wf(files[i].history, c, w.content);
                let fs2 = files.update(
                    i,
                    TrackedFileView { key, history: files[i].history.append(c, w.content) },
                );
                assert(fs2[i].key == files[i].key);
                assert forall|a: int, b: int|
                    0 <= a < b < fs2.len() implies (#[trigger] fs2[a]).key != (
                #[trigger] fs2[b]).key by {
                    assert(files[a].key != files[b].key);
                }
            }
        },
    }
}

/// The whole fold preserves well-formedness of the tracked files.
pub proof fn lemma_commit_files_preserves_wf(
    files: Seq<TrackedFileView>,
    ws: Seq<WorkingFileView>,
    c: CommitView,
)
    requires
        files_wf(files),
    ensures
        files_wf(spec_commit_files(files, ws, c)),
    decreases ws.len(),
{
    if ws.len() > 0 {
        lemma_commit_one_preserves_wf(files, ws[0], c);
        lemma_commit_files_preserves_wf(spec_commit_one(files, ws[0], c), ws.drop_first(), c);
    }
}

/// Linear scan for the tracked file with storage key `key`.
pub fn find_file(files: &Vec<TrackedFile>, key: &Vec<u8>) -> (r: Option<usize>)
    ensures
        match r {
            Some(i) => i < files@.len() && spec_find_file(
                files@.map_values(|f: TrackedFile| f@),
                key@,
            ) == Some(i as int),
            None => spec_find_file(files@.map_values(|f: TrackedFile| f@), key@) is None,
        },
{
    let ghost fsv = files@.map_values(|f: TrackedFile| f@);
    let mut i: usize = 0;
    proof {
        assert(fsv.skip(0) =~= fsv);
    }
    while i < files.len()
        invariant
            i <= files.len(),
            fsv == files@.map_values(|f: TrackedFile| f@),
            fsv.len() == files@.len(),
            spec_find_file(fsv, key@) == match spec_find_file(fsv.skip(i as int), key@) {
                None => None::<int>,
                Some(j) => Some(j + i),
            },
        decreases files.len() - i,
    {
        if bytes_eq(&files[i].key, key) {
            proof {
                assert(fsv.skip(i as int)[0] == fsv[i as int]);
            }
            return Some(i);
        }
        proof {
            assert(fsv.skip(i as int)[0] == fsv[i as int]);
            assert(fsv.skip(i as int).drop_first() =~= fsv.skip(i + 1));
        }
        i = i + 1;
    }
    proof {
        assert(fsv.skip(fsv.len() as int) =~= Seq::<TrackedFileView>::empty());
    }
    None
}

/// Picks the new remote marker, or refuses it: a marker may be written once
/// and is never overwritten.
pub open spec fn spec_set_remote(s: StoreView, name: Seq<char>) -> (StoreView, Result<
    (),
    VcsError,
>) {
    match s.remote {
        Option::Some(_) => (s, Err(VcsError::RemoteAlreadyConfigured)),
        Option::None => (StoreView { remote: Option::Some(name), ..s }, Ok(())),
    }
}

impl Store {
    /// The store of a freshly initialized repository.
    pub fn new() -> (s: Store)
        ensures
            s@ == StoreView::init(),
            s@.wf(),
    {
        let s = Store { commits: Vec::new(), files: Vec::new(), remote: None };
        proof {
            assert(s@ =~= StoreView::init());
        }
        s
    }

    /// Appends one record to the root commit log.  The log is total-order
    /// by append time; records are never mutated or deleted, and no
    /// concurrent-append coordination exists (single-writer assumption).
    pub fn append_root_commit(&mut self, commit: Commit)
        ensures
            final(self)@ == (StoreView { commits: old(self)@.commits.push(commit@), ..old(self)@ }),
            old(self)@.wf() ==> final(self)@.wf(),
    {
        self.commits.push(commit);
        proof {
            assert(self@.commits =~= old(self)@.commits.push(self.commits@.last()@));
            assert(self@ =~= (StoreView { commits: self@.commits, ..old(self)@ }));
        }
    }

    /// Commits the working tree: appends one commit record to the root log
    /// (even when nothing changed — the commit is still recorded), then
    /// folds over the enumerated working files in order.  A file never seen
    /// before is tracked with a first version; a file whose content equals
    /// its last recorded version is left alone; a changed file gets one
    /// appended version, laid out right after its predecessor in the blob.
    ///
    /// The commit id and date are passed in by the caller, which draws them
    /// from the id generator and the clock.
    pub fn commit(
        &mut self,
        description: &str,
        date: &str,
        commit_id: &str,
        working: &Vec<WorkingFile>,
    )
        requires
            old(self)@.wf(),
        ensures
            final(self)@ == spec_commit(
                old(self)@,
                working@.map_values(|w: WorkingFile| w@),
                CommitView { date: date@, description: description@, commit_id: commit_id@ },
            ),
            final(self)@.wf(),
    {
        let c = Commit {
            date: date.to_owned(),
            description: description.to_owned(),
            commit_id: commit_id.to_owned(),
        };
        let ghost cv = CommitView { date: date@, description: description@, commit_id: commit_id@ };
        let ghost ws = working@.map_values(|w: WorkingFile| w@);
        self.append_root_commit(c.clone());
        proof {
            assert(ws.take(0) =~= Seq::<WorkingFileView>::empty());
        }
        let mut i: usize = 0;
        while i < working.len()
            invariant
                i <= working.len(),
                ws == working@.map_values(|w: WorkingFile| w@),
                ws.len() == working@.len(),
                c@ == cv,
                self@.commits == old(self)@.commits.push(cv),
                self@.remote == old(self)@.remote,
                files_wf(self@.files),
                files_wf(old(self)@.files),
                self@.files == spec_commit_files(old(self)@.files, ws.take(i as int), cv),
            decreases working.len() - i,
        {
            let ghost fs = self@.files;
            proof {
                assert(ws[i as int] == working@[i as int]@);
                assert(ws.take(i + 1) =~= ws.take(i as int).push(ws[i as int]));
                lemma_commit_files_snoc(old(self)@.files, ws.take(i as int), ws[i as int], cv);
                lemma_commit_one_preserves_wf(fs, ws[i as int], cv);
            }
            let key = escape_path(&working[i].path);
            match find_file(&self.files, &key) {
                None => {
                    let content = clone_bytes(&working[i].content);
                    let h = FileHistory::first_version(&c, content);
                    self.files.push(TrackedFile { key, history: h });
                    proof {
                        assert(self@.files =~= fs.push(
                            TrackedFileView {
                                key: spec_escape_path(ws[i as int].path),
                                history: FileHistoryView::first(cv, ws[i as int].content),
                            },
                        ));
                        assert(self@.files =~= spec_commit_one(fs, ws[i as int], cv));
                    }
                },
                Some(idx) => {
                    proof {
                        assert(fs[idx as int].history.wf());
                        lemma_find_file_characterizes(fs, key@);
                    }
                    let last = self.files[idx].history.last_version_content();
                    if !bytes_eq(&last, &working[i].content) {
                        let content = clone_bytes(&working[i].content);
                        let ghost before = self.files@;
                        let mut tf = self.files.remove(idx);
                        tf.history.append_version(&c, content);
                        let ghost tfv = tf@;
                        self.files.insert(idx, tf);
                        proof {
                            assert(self.files@ =~= before.update(idx as int, tf));
                            assert(self@.files =~= fs.update(idx as int, tfv));
                            assert(tfv =~= TrackedFileView {
                                key: spec_escape_path(ws[i as int].path),
                                history: fs[idx as int].history.append(cv, ws[i as int].content),
                            });
                            assert(self@.files =~= spec_commit_one(fs, ws[i as int], cv));
                        }
                    } else {
                        proof {
                            assert(self@.files =~= spec_commit_one(fs, ws[i as int], cv));
                        }
                    }
                },
            }
            i = i + 1;
        }
        proof {
            assert(ws.take(ws.len() as int) =~= ws);
            assert(self@ =~= spec_commit(
                old(self)@,
                working@.map_values(|w: WorkingFile| w@),
                cv,
            ));
        }
    }

    /// Loads the metadata index of the tracked file stored under `key`.
    /// Fails with `NotYetTracked` when no version of the file exists — the
    /// normal signal, not corruption: it is how a caller learns it is seeing
    /// a file for the first time.
    pub fn read_index(&self, key: &Vec<u8>) -> (r: Result<&Vec<CommitMetadata>, VcsError>)
        ensures
            match r {
                Ok(v) => spec_find_file(self@.files, key@) matches Some(i)
                    && v@.map_values(|m: CommitMetadata| m@) == self@.files[i].history.entries,
                Err(e) => {
                    &&& e == VcsError::NotYetTracked
                    &&& spec_find_file(self@.files, key@) is None
                },
            },
    {
        match find_file(&self.files, key) {
            None => Err(VcsError::NotYetTracked),
            Some(i) => Ok(&self.files[i].history.entries),
        }
    }

    /// Records the remote namespace identifier.  Refuses with
    /// `RemoteAlreadyConfigured`, changing nothing, if a marker already
    /// exists — even when the new identifier differs from the old one.
    pub fn set_remote(&mut self, name: &str) -> (r: Result<(), VcsError>)
        ensures
            (final(self)@, r) == spec_set_remote(old(self)@, name@),
            old(self)@.wf() ==> final(self)@.wf(),
    {
        match &self.remote {
            Some(_) => Err(VcsError::RemoteAlreadyConfigured),
            None => {
                self.remote = Some(name.to_owned());
                proof {
                    assert(self@ =~= spec_set_remote(old(self)@, name@).0);
                }
                Ok(())
            },
        }
    }
}

/// The index entry `view` restores a tracked file from: the first entry
/// labelled with the requested commit id, or — when that commit never
/// touched this file — the entry of the latest version, silently.  The
/// fallback makes `view` a best effort toward a point in time, not a strict
/// historical snapshot.
pub open spec fn spec_restore_entry(t: TrackedFileView, id: Seq<char>) -> CommitMetadataView {
    match spec_find_metadata(t.history.entries, id) {
        Some(m) => m,
        None => t.history.last(),
    }
}

/// What `view` writes back for one tracked file: the working-tree path the
/// storage key maps to, and the bytes of the chosen version.
pub open spec fn spec_restore(t: TrackedFileView, id: Seq<char>) -> RestoredFileView {
    let entry = spec_restore_entry(t, id);
    RestoredFileView {
        path: spec_unescape_path(t.key),
        content: t.history.data.subrange(
            entry.pointer_to_data,
            entry.pointer_to_data + entry.size,
        ),
    }
}

/// What `view` yields for the whole store: one restored file per tracked
/// file, in store order.
pub open spec fn spec_view(s: StoreView, id: Seq<char>) -> Seq<RestoredFileView> {
    s.files.map_values(|t: TrackedFileView| spec_restore(t, id))
}

/// Reconstructs every tracked file as of commit `commit_id`: for each
/// file, the version that commit recorded, or — silently — the latest
/// version when that commit never touched the file.  The caller is
/// expected to clear the working tree and write each result to its path.
pub fn view(store: &Store, commit_id: &str) -> (r: Vec<RestoredFile>)
    requires
        store@.wf(),
    ensures
        r@.map_values(|f: RestoredFile| f@) == spec_view(store@, commit_id@),
{
    let mut out: Vec<RestoredFile> = Vec::new();
    let mut i: usize = 0;
    while i < store.files.len()
        invariant
            i <= store.files.len(),
            files_wf(store@.files),
            store@.files.len() == store.files@.len(),
            out@.len() == i,
            forall|k: int|
                0 <= k < i ==> (#[trigger] out@[k])@ == spec_restore(
                    store@.files[k],
                    commit_id@,
                ),
        decreases store.files.len() - i,
    {
        let f = &store.files[i];
        let ghost fv = store@.files[i as int];
        proof {
            assert(fv == store.files@[i as int]@);
            assert(fv.history.wf());
            assert(f.history@.entries.len() == f.history.entries@.len());
        }
        let entry = match find_metadata_by_commit_id(&f.history.entries, commit_id) {
            Some(m) => m,
            None => f.history.entries[f.history.entries.len() - 1].clone(),
        };
        proof {
            assert(entry@ == spec_restore_entry(fv, commit_id@));
            match spec_find_metadata(fv.history.entries, commit_id@) {
                Some(_) => {
                    lemma_find_metadata_characterizes(fv.history.entries, commit_id@);
                    let j = choose|j: int|
                        {
                            &&& 0 <= j < fv.history.entries.len()
                            &&& #[trigger] fv.history.entries[j] == entry@
                            &&& entry@.commit_id == commit_id@
                            &&& forall|k: int|
                                0 <= k < j ==> (#[trigger] fv.history.entries[k]).commit_id
                                    != commit_id@
                        };
                    lemma_wf_entry_in_bounds(fv.history, j);
                },
                None => {
                    lemma_wf_entry_in_bounds(fv.history, fv.history.entries.len() - 1);
                },
            }
            assert(entry@.pointer_to_data + entry@.size <= fv.history.data.len());
        }
        let content = match f.history.read_version(entry.pointer_to_data, entry.size) {
            Ok(v) => v,
            Err(_) => {
                proof {
                    assert(false);
                }
                Vec::new()
            },
        };
        let path = unescape_path(&f.key);
        out.push(RestoredFile { path, content });
        i = i + 1;
        proof {
            let pushed = out@[out@.len() - 1];
            assert(pushed@.path == spec_restore(fv, commit_id@).path);
            assert(pushed@.content == spec_restore(fv, commit_id@).content);
            assert(pushed@ =~= spec_restore(fv, commit_id@));
        }
    }
    proof {
        assert forall|k: int|
            0 <= k < store@.files.len() implies out@.map_values(|f: RestoredFile| f@)[k]
            == spec_view(store@, commit_id@)[k] by {
            assert(out@[k]@ == spec_restore(store@.files[k], commit_id@));
        }
        assert(out@.map_values(|f: RestoredFile| f@) =~= spec_view(store@, commit_id@));
    }
    out
}

/// Refusing a second remote marker leaves the first untouched: after a
/// successful `set_remote`, any further `set_remote` — with the same or a
/// different identifier — fails with `RemoteAlreadyConfigured` and leaves
/// the store, marker included, exactly as it was.
pub proof fn lemma_set_remote_refuses_second(s: StoreView, first: Seq<char>, second: Seq<char>)
    requires
        s.remote is None,
    ensures
        ({
            let (s1, r1) = spec_set_remote(s, first);
            let (s2, r2) = spec_set_remote(s1, second);
            &&& r1 == Ok::<(), VcsError>(())
            &&& s1.remote == Option::Some(first)
            &&& r2 == Err::<(), VcsError>(VcsError::RemoteAlreadyConfigured)
            &&& s2 == s1
        }),
{
}

} // verus!
