//! Properties of the engine proved across operations: what a commit leaves
//! alone, and what a commit followed by a view of it gives back.

use vstd::prelude::*;

use crate::history::{
    lemma_find_metadata_push, spec_find_metadata, FileHistoryView,
};
use crate::paths::{lemma_escape_injective, lemma_escape_round_trip, spec_escape_path};
use crate::store::{
    lemma_commit_files_snoc, lemma_find_file_characterizes, spec_commit, spec_commit_files,
    spec_commit_one, spec_find_file, spec_restore, spec_view, StoreView, TrackedFileView,
};
use crate::types::{CommitMetadataView, CommitView, WorkingFileView};

verus! {

/// True when no version record anywhere in the store carries `id`: the id
/// generator has not produced it before.  Commit ids are drawn from one
/// generator for the whole repository, so a fresh id is fresh everywhere.
pub open spec fn fresh_commit_id(files: Seq<TrackedFileView>, id: Seq<char>) -> bool {
    forall|fi: int, j: int|
        0 <= fi < files.len() && 0 <= j < files[fi].history.entries.len()
            ==> (#[trigger] files[fi].history.entries[j]).commit_id != id
}

/// Converse of the find characterization: a witness index that is the first
/// key match forces `spec_find_file` to return it.
pub proof fn lemma_find_file_from_witness(files: Seq<TrackedFileView>, key: Seq<u8>, i: int)
    requires
        0 <= i < files.len(),
        files[i].key == key,
        forall|k: int| 0 <= k < i ==> (#[trigger] files[k]).key != key,
    ensures
        spec_find_file(files, key) == Some(i),
    decreases i,
{
    if i == 0 {
    } else {
        assert(files[0].key != key);
        assert(files.drop_first()[i - 1] == files[i]);
        assert forall|k: int| 0 <= k < i - 1 implies (#[trigger] files.drop_first()[k]).key
            != key by {
            assert(files.drop_first()[k] == files[k + 1]);
        }
        lemma_find_file_from_witness(files.drop_first(), key, i - 1);
    }
}

/// Converse of the find characterization: if no file carries the key, the
/// search misses.
pub proof fn lemma_find_file_none_from_witness(files: Seq<TrackedFileView>, key: Seq<u8>)
    requires
        forall|k: int| 0 <= k < files.len() ==> (#[trigger] files[k]).key != key,
    ensures
        spec_find_file(files, key) is None,
{
    lemma_find_file_characterizes(files, key);
    match spec_find_file(files, key) {
        None => {},
        Some(i) => {
            assert(files[i].key == key);
            assert(false);
        },
    }
}

/// A tracked file that no working file changes keeps its history through a
/// whole commit, entry count included: a working file may share its key
/// only if it holds exactly the bytes of the file's last recorded version,
/// and then no new entry is appended.  In particular, a file committed once
/// and never edited keeps a metadata index of length one, however many
/// commits follow.
pub proof fn lemma_unchanged_file_keeps_history(
    files: Seq<TrackedFileView>,
    ws: Seq<WorkingFileView>,
    c: CommitView,
    fi: int,
)
    requires
        0 <= fi < files.len(),
        forall|j: int|
            0 <= j < ws.len() && spec_escape_path((#[trigger] ws[j]).path) == files[fi].key
                ==> ws[j].content == files[fi].history.last_content(),
    ensures
        spec_commit_files(files, ws, c).len() >= files.len(),
        spec_commit_files(files, ws, c)[fi] == files[fi],
    decreases ws.len(),
{
    if ws.len() > 0 {
        let files1 = spec_commit_one(files, ws[0], c);
        let key = spec_escape_path(ws[0].path);
        lemma_find_file_characterizes(files, key);
        match spec_find_file(files, key) {
            None => {
                assert(files1[fi] == files[fi]);
            },
            Some(i) => {
                if files[i].history.last_content() == ws[0].content {
                    assert(files1[fi] == files[fi]);
                } else {
                    assert(i != fi) by {
                        if i == fi {
                            assert(ws[0].content == files[fi].history.last_content());
                        }
                    }
                    assert(files1[fi] == files[fi]);
                }
            },
        }
        assert forall|j: int|
            0 <= j < ws.drop_first().len() && spec_escape_path(
                (#[trigger] ws.drop_first()[j]).path,
            ) == files1[fi].key implies ws.drop_first()[j].content
            == files1[fi].history.last_content() by {
            assert(ws.drop_first()[j] == ws[j + 1]);
        }
        lemma_unchanged_file_keeps_history(files1, ws.drop_first(), c, fi);
    }
}

/// The fold splits at any point: processing a working list is processing a
/// prefix of it, then the rest.
pub proof fn lemma_commit_files_concat(
    files: Seq<TrackedFileView>,
    a: Seq<WorkingFileView>,
    b: Seq<WorkingFileView>,
    c: CommitView,
)
    ensures
        spec_commit_files(files, a + b, c) == spec_commit_files(
            spec_commit_files(files, a, c),
            b,
            c,
        ),
    decreases a.len(),
{
    if a.len() == 0 {
        assert(a + b =~= b);
        assert(spec_commit_files(files, a, c) == files);
    } else {
        assert((a + b)[0] == a[0]);
        assert((a + b).drop_first() =~= a.drop_first() + b);
        lemma_commit_files_concat(spec_commit_one(files, a[0], c), a.drop_first(), b, c);
        assert(spec_commit_files(files, a + b, c) == spec_commit_files(
            spec_commit_one(files, a[0], c),
            a.drop_first() + b,
            c,
        ));
    }
}

/// A storage key no working file maps to is invisible to the fold: the
/// search for it lands on the same index before and after, and the file
/// there (if any) is untouched.
pub proof fn lemma_fold_untouched_key(
    files: Seq<TrackedFileView>,
    ws: Seq<WorkingFileView>,
    c: CommitView,
    key: Seq<u8>,
)
    requires
        forall|j: int| 0 <= j < ws.len() ==> spec_escape_path((#[trigger] ws[j]).path) != key,
    ensures
        spec_commit_files(files, ws, c).len() >= files.len(),
        spec_find_file(spec_commit_files(files, ws, c), key) == spec_find_file(files, key),
        match spec_find_file(files, key) {
            Some(i) => spec_commit_files(files, ws, c)[i] == files[i],
            None => true,
        },
    decreases ws.len(),
{
    if ws.len() > 0 {
        let key0 = spec_escape_path(ws[0].path);
        assert(key0 != key);
        let files1 = spec_commit_one(files, ws[0], c);
        lemma_find_file_characterizes(files, key);
        lemma_find_file_characterizes(files, key0);
        // one step leaves the key's search result alone
        match spec_find_file(files, key) {
            None => {
                assert forall|m: int| 0 <= m < files1.len() implies (#[trigger] files1[m]).key
                    != key by {
                    if m < files.len() {
                        assert(files[m].key != key);
                    }
                }
                lemma_find_file_none_from_witness(files1, key);
            },
            Some(i) => {
                assert(files1[i] == files[i]) by {
                    match spec_find_file(files, key0) {
                        None => {},
                        Some(i0) => {
                            assert(files[i0].key == key0);
                            assert(i0 != i);
                        },
                    }
                }
                assert forall|m: int| 0 <= m < i implies (#[trigger] files1[m]).key != key by {
                    assert(files[m].key != key);
                    match spec_find_file(files, key0) {
                        None => {},
                        Some(i0) => {
                            if m == i0 {
                                assert(files1[m].key == key0 || files1[m] == files[m]);
                            }
                        },
                    }
                }
                lemma_find_file_from_witness(files1, key, i);
            },
        }
        assert forall|j: int|
            0 <= j < ws.drop_first().len() implies spec_escape_path(
            (#[trigger] ws.drop_first()[j]).path,
        ) != key by {
            assert(ws.drop_first()[j] == ws[j + 1]);
        }
        lemma_fold_untouched_key(files1, ws.drop_first(), c, key);
    }
}

/// Round trip: committing a working tree and then viewing that very commit
/// hands back the committed bytes.  For any working file whose content
/// differs from its last recorded version — or which was never tracked —
/// the store after the commit holds a tracked file under that file's
/// storage key whose restoration at the new commit's id lands back on the
/// committed path with byte-identical content.  The working files are a
/// working tree, so their
/// paths are pairwise distinct — the reversible escaping then keeps their
/// storage keys distinct — and the commit id must be fresh: no earlier
/// version record anywhere carries it.
pub proof fn lemma_commit_then_view_round_trip(
    s: StoreView,
    ws: Seq<WorkingFileView>,
    c: CommitView,
    wi: int,
)
    requires
        s.wf(),
        fresh_commit_id(s.files, c.commit_id),
        forall|a: int, b: int|
            0 <= a < b < ws.len() ==> (#[trigger] ws[a]).path != (#[trigger] ws[b]).path,
        0 <= wi < ws.len(),
        match spec_find_file(s.files, spec_escape_path(ws[wi].path)) {
            None => true,
            Some(i) => s.files[i].history.last_content() != ws[wi].content,
        },
    ensures
        ({
            let s2 = spec_commit(s, ws, c);
            let key = spec_escape_path(ws[wi].path);
            match spec_find_file(s2.files, key) {
                Some(k) => {
                    &&& 0 <= k < s2.files.len()
                    &&& s2.files[k].key == key
                    &&& spec_restore(s2.files[k], c.commit_id).path == ws[wi].path
                    &&& spec_restore(s2.files[k], c.commit_id).content == ws[wi].content
                    &&& spec_view(s2, c.commit_id)[k].content == ws[wi].content
                },
                None => false,
            }
        }),
{
    let key = spec_escape_path(ws[wi].path);
    let content = ws[wi].content;
    let id = c.commit_id;
    lemma_escape_round_trip(ws[wi].path);
    let pre = ws.take(wi);
    let post = ws.skip(wi + 1);

    // split the fold around step wi
    assert(ws =~= ws.take(wi + 1) + post);
    assert(ws.take(wi + 1) =~= pre.push(ws[wi]));
    lemma_commit_files_concat(s.files, ws.take(wi + 1), post, c);
    lemma_commit_files_snoc(s.files, pre, ws[wi], c);
    let files1 = spec_commit_files(s.files, pre, c);
    let files2 = spec_commit_one(files1, ws[wi], c);
    let fin = spec_commit_files(files2, post, c);
    assert(spec_commit(s, ws, c).files == fin);

    // the steps before wi never touch the key: their paths differ from
    // ws[wi]'s, and distinct paths escape to distinct keys
    assert forall|j: int| 0 <= j < pre.len() implies spec_escape_path((#[trigger] pre[j]).path)
        != key by {
        assert(pre[j] == ws[j]);
        assert(ws[j].path != ws[wi].path);
        if spec_escape_path(ws[j].path) == key {
            lemma_escape_injective(ws[j].path, ws[wi].path);
        }
    }
    lemma_fold_untouched_key(s.files, pre, c, key);
    assert(spec_find_file(files1, key) == spec_find_file(s.files, key));

    // step wi creates or extends the file at the key, at index k
    lemma_find_file_characterizes(files1, key);
    lemma_find_file_characterizes(s.files, key);
    let k: int = match spec_find_file(s.files, key) {
        None => files1.len() as int,
        Some(i) => i,
    };
    match spec_find_file(s.files, key) {
        None => {
            assert(files2 == files1.push(
                TrackedFileView { key, history: FileHistoryView::first(c, content) },
            ));
            assert(files2[k].key == key);
            assert forall|m: int| 0 <= m < k implies (#[trigger] files2[m]).key != key by {
                assert(files2[m] == files1[m]);
            }
            lemma_find_file_from_witness(files2, key, k);
            // restoring the one-entry history at the fresh id picks that entry
            let h = FileHistoryView::first(c, content);
            assert(h.entries[0].commit_id == id);
            assert(spec_find_metadata(h.entries, id) == Some(h.entries[0]));
            assert(h.entries[0] == CommitMetadataView::of_commit(c, 0, content.len() as int));
            assert(spec_restore(files2[k], id).content =~= content);
        },
        Some(i) => {
            assert(0 <= i < s.files.len());
            assert(s.files[i].history.wf());
            assert(files1[i] == s.files[i]);
            assert(files1[i].history.last_content() != content);
            let h = s.files[i].history;
            let h2 = h.append(c, content);
            assert(files2 == files1.update(i, TrackedFileView { key, history: h2 }));
            assert(files2[k].key == key);
            assert forall|m: int| 0 <= m < k implies (#[trigger] files2[m]).key != key by {
                assert(files2[m] == files1[m]);
            }
            lemma_find_file_from_witness(files2, key, k);
            // the appended entry is the first (and only) one carrying the id
            let new_entry = CommitMetadataView::of_commit(
                c,
                h.last().pointer_to_data + h.last().size,
                content.len() as int,
            );
            assert(h2.entries == h.entries.push(new_entry));
            assert forall|j: int| 0 <= j < h.entries.len() implies (#[trigger] h.entries[j]).commit_id
                != id by {
                assert(s.files[i].history.entries[j].commit_id != id);
            }
            lemma_find_metadata_push(h.entries, new_entry, id);
            assert(spec_find_metadata(h2.entries, id) == Some(new_entry));
            // under well-formedness the new range is exactly the appended bytes
            assert(h.wf());
            assert(new_entry.pointer_to_data == h.data.len());
            assert(spec_restore(files2[k], id).content =~= content);
        },
    }

    // the steps after wi never touch the key either
    assert forall|j: int| 0 <= j < post.len() implies spec_escape_path((#[trigger] post[j]).path)
        != key by {
        assert(post[j] == ws[j + wi + 1]);
        assert(ws[wi].path != ws[j + wi + 1].path);
        if spec_escape_path(ws[j + wi + 1].path) == key {
            lemma_escape_injective(ws[j + wi + 1].path, ws[wi].path);
        }
    }
    lemma_fold_untouched_key(files2, post, c, key);
    assert(spec_find_file(fin, key) == Some(k));
    assert(fin[k] == files2[k]);
}

/// A commit in which every tracked file's content is unchanged — and no new
/// file appears — leaves every file history exactly as it was; only the
/// root commit log grows, by the one (semantically empty) commit record.
pub proof fn lemma_no_change_commit_keeps_all_histories(
    s: StoreView,
    ws: Seq<WorkingFileView>,
    c: CommitView,
)
    requires
        forall|j: int|
            0 <= j < ws.len() ==> match spec_find_file(
                s.files,
                spec_escape_path((#[trigger] ws[j]).path),
            ) {
                Some(i) => ws[j].content == s.files[i].history.last_content(),
                None => false,
            },
    ensures
        spec_commit(s, ws, c).files == s.files,
        spec_commit(s, ws, c).commits == s.commits.push(c),
    decreases ws.len(),
{
    if ws.len() > 0 {
        let key = spec_escape_path(ws[0].path);
        lemma_find_file_characterizes(s.files, key);
        match spec_find_file(s.files, key) {
            Some(i) => {
                assert(ws[0].content == s.files[i].history.last_content());
                assert(spec_commit_one(s.files, ws[0], c) == s.files);
            },
            None => {
                assert(false);
            },
        }
        assert forall|j: int|
            0 <= j < ws.drop_first().len() implies match spec_find_file(
            s.files,
            spec_escape_path((#[trigger] ws.drop_first()[j]).path),
        ) {
            Some(i) => ws.drop_first()[j].content == s.files[i].history.last_content(),
            None => false,
        } by {
            assert(ws.drop_first()[j] == ws[j + 1]);
        }
        lemma_no_change_commit_keeps_all_histories(s, ws.drop_first(), c);
        assert(spec_commit_files(s.files, ws, c) == spec_commit_files(
            spec_commit_one(s.files, ws[0], c),
            ws.drop_first(),
            c,
        ));
    }
}

} // verus!
