use rgit::error::VcsError;
use rgit::history::{find_metadata_by_commit_id, FileHistory};
use rgit::repo::Repository;
use rgit::store::{view, Store};
use rgit::types::{Commit, WorkingFile};

fn wf(path: &[u8], content: &[u8]) -> WorkingFile {
    WorkingFile { path: path.to_vec(), content: content.to_vec() }
}

fn commit_record(id: &str) -> Commit {
    Commit {
        date: "2024-01-01 00:00:00".to_string(),
        description: "test".to_string(),
        commit_id: id.to_string(),
    }
}

#[test]
fn end_to_end_two_commits_one_file() {
    // init empty dir, commit "a" with one tracked file "x.txt" holding "1"
    let mut store = Store::new();
    let working = vec![wf(b"x.txt", b"1")];
    store.commit("a", "2024-01-01 00:00:00", "aaaaaaa", &working);

    assert_eq!(store.commits.len(), 1);
    assert_eq!(store.commits[0].commit_id, "aaaaaaa");
    assert_eq!(store.files.len(), 1);
    assert_eq!(store.files[0].key, b"x.txt".to_vec());
    let entries = &store.files[0].history.entries;
    assert_eq!(entries.len(), 1);
    assert_eq!(entries[0].pointer_to_data, 0);
    assert_eq!(entries[0].size, 1);
    assert_eq!(entries[0].commit_id, "aaaaaaa");
    assert_eq!(store.files[0].history.data, b"1".to_vec());

    // edit "x.txt" to "22", commit "b": a second contiguous entry
    let working = vec![wf(b"x.txt", b"22")];
    store.commit("b", "2024-01-02 00:00:00", "bbbbbbb", &working);

    assert_eq!(store.commits.len(), 2);
    let entries = &store.files[0].history.entries;
    assert_eq!(entries.len(), 2);
    assert_eq!(entries[1].pointer_to_data, 1);
    assert_eq!(entries[1].size, 2);
    assert_eq!(store.files[0].history.data, b"122".to_vec());

    // view at commit "a" restores "1"; at commit "b" restores "22"
    let restored = view(&store, "aaaaaaa");
    assert_eq!(restored.len(), 1);
    assert_eq!(restored[0].path, b"x.txt".to_vec());
    assert_eq!(restored[0].content, b"1".to_vec());

    let restored = view(&store, "bbbbbbb");
    assert_eq!(restored[0].content, b"22".to_vec());
}

#[test]
fn view_falls_back_to_latest_for_unknown_commit() {
    let mut store = Store::new();
    store.commit("a", "2024-01-01 00:00:00", "aaaaaaa", &vec![wf(b"x.txt", b"1")]);
    store.commit("b", "2024-01-02 00:00:00", "bbbbbbb", &vec![wf(b"x.txt", b"22")]);

    // a commit id that never touched the file: latest version wins, silently
    let restored = view(&store, "zzzzzzz");
    assert_eq!(restored[0].content, b"22".to_vec());
}

#[test]
fn unchanged_content_appends_no_entry() {
    let mut store = Store::new();
    store.commit("a", "2024-01-01 00:00:00", "aaaaaaa", &vec![wf(b"x.txt", b"same")]);
    store.commit("b", "2024-01-02 00:00:00", "bbbbbbb", &vec![wf(b"x.txt", b"same")]);
    store.commit("c", "2024-01-03 00:00:00", "ccccccc", &vec![wf(b"x.txt", b"same")]);

    // the file's index stays at one entry, however many commits run
    assert_eq!(store.files[0].history.entries.len(), 1);
    assert_eq!(store.files[0].history.data, b"same".to_vec());
    // the root commit log still records every (semantically empty) commit
    assert_eq!(store.commits.len(), 3);
}

#[test]
fn commit_tracks_new_files_and_leaves_others_alone() {
    let mut store = Store::new();
    store.commit("a", "2024-01-01 00:00:00", "aaaaaaa", &vec![wf(b"x.txt", b"x")]);
    store.commit(
        "b",
        "2024-01-02 00:00:00",
        "bbbbbbb",
        &vec![wf(b"x.txt", b"x"), wf(b"dir/y.txt", b"yy")],
    );

    assert_eq!(store.files.len(), 2);
    assert_eq!(store.files[0].history.entries.len(), 1);
    assert_eq!(store.files[1].key, b"dir_y.txt".to_vec());
    assert_eq!(store.files[1].history.entries.len(), 1);
    assert_eq!(store.files[1].history.entries[0].commit_id, "bbbbbbb");

    // the nested path comes back with its separator restored
    let restored = view(&store, "bbbbbbb");
    assert_eq!(restored[1].path, b"dir/y.txt".to_vec());
    assert_eq!(restored[1].content, b"yy".to_vec());
}

#[test]
fn pointer_contiguity_after_every_append() {
    let mut store = Store::new();
    let contents: [&[u8]; 4] = [b"a", b"bcd", b"", b"efghij"];
    for (i, c) in contents.iter().enumerate() {
        let id = format!("id{:05}", i);
        store.commit("d", "2024-01-01 00:00:00", &id, &vec![wf(b"f.txt", c)]);
        let entries = &store.files[0].history.entries;
        for k in 1..entries.len() {
            assert_eq!(
                entries[k].pointer_to_data,
                entries[k - 1].pointer_to_data + entries[k - 1].size
            );
        }
    }
    // the empty content made a genuine (empty) version of its own
    assert_eq!(store.files[0].history.entries.len(), 4);
    assert_eq!(store.files[0].history.data, b"abcdefghij".to_vec());
}

#[test]
fn read_index_signals_not_yet_tracked() {
    let mut store = Store::new();
    store.commit("a", "2024-01-01 00:00:00", "aaaaaaa", &vec![wf(b"x.txt", b"1")]);

    let idx = store.read_index(&b"x.txt".to_vec()).unwrap();
    assert_eq!(idx.len(), 1);
    assert_eq!(
        store.read_index(&b"other.txt".to_vec()),
        Err(VcsError::NotYetTracked)
    );
}

#[test]
fn read_version_reads_exact_range_or_fails_truncated() {
    let h = FileHistory {
        entries: Vec::new(),
        data: b"hello world".to_vec(),
    };
    assert_eq!(h.read_version(0, 5).unwrap(), b"hello".to_vec());
    assert_eq!(h.read_version(6, 5).unwrap(), b"world".to_vec());
    assert_eq!(h.read_version(6, 6), Err(VcsError::TruncatedBlob));
    assert_eq!(h.read_version(11, 1), Err(VcsError::TruncatedBlob));
    assert_eq!(h.read_version(0, 12), Err(VcsError::TruncatedBlob));
    assert_eq!(h.read_version(11, 0).unwrap(), Vec::<u8>::new());
}

#[test]
fn find_metadata_returns_first_match() {
    let mut store = Store::new();
    store.commit("a", "2024-01-01 00:00:00", "aaaaaaa", &vec![wf(b"x.txt", b"1")]);
    store.commit("b", "2024-01-02 00:00:00", "bbbbbbb", &vec![wf(b"x.txt", b"2")]);

    let entries = &store.files[0].history.entries;
    let m = find_metadata_by_commit_id(entries, "bbbbbbb").unwrap();
    assert_eq!(m.pointer_to_data, 1);
    assert_eq!(m.size, 1);
    assert!(find_metadata_by_commit_id(entries, "absent0").is_none());
}

#[test]
fn repository_refuses_operations_before_init() {
    let mut repo = Repository::uninitialized();
    assert_eq!(
        repo.commit("d", &vec![wf(b"x.txt", b"1")]),
        Err(VcsError::RepositoryNotInitialized)
    );
    assert_eq!(repo.view("aaaaaaa"), Err(VcsError::RepositoryNotInitialized));
    assert_eq!(repo.set_remote("bucket"), Err(VcsError::RepositoryNotInitialized));
    assert!(repo.commits().is_err());
}

#[test]
fn repository_init_once_then_already_initialized() {
    let mut repo = Repository::uninitialized();
    assert_eq!(repo.init(), Ok(()));
    assert_eq!(repo.init(), Err(VcsError::AlreadyInitialized));
}

#[test]
fn repository_commit_draws_seven_char_id() {
    let mut repo = Repository::uninitialized();
    repo.init().unwrap();
    let c = repo.commit("first snapshot", &vec![wf(b"x.txt", b"1")]).unwrap();
    assert_eq!(c.description, "first snapshot");
    assert_eq!(c.commit_id.chars().count(), 7);
    assert!(c.commit_id.chars().all(|ch| ch.is_ascii_alphanumeric()));

    let log = repo.commits().unwrap();
    assert_eq!(log.len(), 1);
    assert_eq!(log[0].commit_id, c.commit_id);

    // the freshly drawn id restores what was just committed
    let restored = repo.view(&c.commit_id).unwrap();
    assert_eq!(restored[0].content, b"1".to_vec());
}

#[test]
fn two_generated_ids_are_not_the_argument_echoed() {
    // the generator draws from letters and digits only, seven of them
    let a = rgit::util::generate_commit_id();
    let b = rgit::util::generate_commit_id();
    assert_eq!(a.chars().count(), 7);
    assert_eq!(b.chars().count(), 7);
    assert!(a.chars().all(|c| c.is_ascii_alphanumeric()));
}

#[test]
fn colliding_names_stay_separate_files() {
    // 'a_b' and 'a/b' map to different storage keys, so both survive a
    // commit and both come back byte-identical
    let mut store = Store::new();
    let working = vec![wf(b"a_b", b"underscore"), wf(b"a/b", b"slash")];
    store.commit("a", "2024-01-01 00:00:00", "aaaaaaa", &working);

    assert_eq!(store.files.len(), 2);
    assert_ne!(store.files[0].key, store.files[1].key);

    let restored = view(&store, "aaaaaaa");
    assert_eq!(restored.len(), 2);
    assert_eq!(restored[0].path, b"a_b".to_vec());
    assert_eq!(restored[0].content, b"underscore".to_vec());
    assert_eq!(restored[1].path, b"a/b".to_vec());
    assert_eq!(restored[1].content, b"slash".to_vec());
}

#[test]
fn reverting_to_an_older_value_appends_again() {
    // equality is checked against the last recorded version only: a file
    // that reverts to an earlier historical value is appended anew
    let mut store = Store::new();
    store.commit("a", "2024-01-01 00:00:00", "aaaaaaa", &vec![wf(b"x.txt", b"1")]);
    store.commit("b", "2024-01-02 00:00:00", "bbbbbbb", &vec![wf(b"x.txt", b"2")]);
    store.commit("c", "2024-01-03 00:00:00", "ccccccc", &vec![wf(b"x.txt", b"1")]);

    assert_eq!(store.files[0].history.entries.len(), 3);
    assert_eq!(store.files[0].history.data, b"121".to_vec());
}

#[test]
fn current_date_is_formatted_year_first() {
    let d = rgit::util::get_current_formatted_date();
    let b = d.as_bytes();
    assert_eq!(b.len(), 19);
    assert_eq!(b[4], b'-');
    assert_eq!(b[7], b'-');
    assert_eq!(b[10], b' ');
    assert_eq!(b[13], b':');
    assert_eq!(b[16], b':');
    assert!(b[..4].iter().all(|c| c.is_ascii_digit()));
}

#[test]
fn empty_working_tree_still_records_the_commit() {
    // a commit that touches zero files is still appended to the root log
    let mut store = Store::new();
    store.commit("empty", "2024-01-01 00:00:00", "aaaaaaa", &Vec::new());
    assert_eq!(store.commits.len(), 1);
    assert_eq!(store.files.len(), 0);
    assert_eq!(view(&store, "aaaaaaa").len(), 0);
}

#[test]
fn append_root_commit_grows_the_log_in_order() {
    let mut store = Store::new();
    store.append_root_commit(commit_record("aaaaaaa"));
    store.append_root_commit(commit_record("bbbbbbb"));
    assert_eq!(store.commits.len(), 2);
    assert_eq!(store.commits[0].commit_id, "aaaaaaa");
    assert_eq!(store.commits[1].commit_id, "bbbbbbb");
}

#[test]
fn commit_record_fields_round_trip() {
    let c = commit_record("abc1234");
    let d = c.clone();
    assert_eq!(d.commit_id, "abc1234");
    assert_eq!(d.date, "2024-01-01 00:00:00");
    assert_eq!(d.description, "test");
}
