use rgit::error::VcsError;
use rgit::store::{find_commit_by_commit_id, Store};
use rgit::sync::push_check;
use rgit::types::Commit;

fn log(ids: &[&str]) -> Vec<Commit> {
    ids.iter()
        .map(|id| Commit {
            date: "2024-01-01 00:00:00".to_string(),
            description: "d".to_string(),
            commit_id: id.to_string(),
        })
        .collect()
}

#[test]
fn set_remote_refuses_second_marker_and_keeps_first() {
    let mut store = Store::new();
    assert_eq!(store.set_remote("bucket-one"), Ok(()));
    assert_eq!(store.remote, Some("bucket-one".to_string()));

    // a different identifier changes nothing
    assert_eq!(store.set_remote("bucket-two"), Err(VcsError::RemoteAlreadyConfigured));
    assert_eq!(store.remote, Some("bucket-one".to_string()));

    // the same identifier is refused just the same
    assert_eq!(store.set_remote("bucket-one"), Err(VcsError::RemoteAlreadyConfigured));
    assert_eq!(store.remote, Some("bucket-one".to_string()));
}

#[test]
fn push_after_clean_pull_has_nothing_to_push() {
    // a pull mirrors the remote log locally; with no local commits since,
    // the two logs are equal and push refuses
    let remote = log(&["aaaaaaa", "bbbbbbb"]);
    let local = log(&["aaaaaaa", "bbbbbbb"]);
    assert_eq!(push_check(&local, &remote), Err(VcsError::NothingToPush));
}

#[test]
fn push_refuses_when_remote_is_ahead() {
    // the remote's latest commit id is absent locally: pull first
    let remote = log(&["aaaaaaa", "ccccccc"]);
    let local = log(&["aaaaaaa", "bbbbbbb"]);
    assert_eq!(push_check(&local, &remote), Err(VcsError::RemoteAhead));
}

#[test]
fn push_proceeds_when_local_is_strictly_ahead() {
    let remote = log(&["aaaaaaa"]);
    let local = log(&["aaaaaaa", "bbbbbbb"]);
    assert_eq!(push_check(&local, &remote), Ok(()));
}

#[test]
fn push_refuses_when_remote_holds_at_least_as_many() {
    // the remote's latest is known locally but nothing new exists locally
    let remote = log(&["aaaaaaa", "bbbbbbb"]);
    let local = log(&["bbbbbbb"]);
    assert_eq!(push_check(&local, &remote), Err(VcsError::NothingToPush));
}

#[test]
fn find_commit_by_commit_id_scans_in_order() {
    let commits = log(&["aaaaaaa", "bbbbbbb", "ccccccc"]);
    let c = find_commit_by_commit_id(&commits, "bbbbbbb").unwrap();
    assert_eq!(c.commit_id, "bbbbbbb");
    assert!(find_commit_by_commit_id(&commits, "zzzzzzz").is_none());
    assert!(find_commit_by_commit_id(&Vec::new(), "aaaaaaa").is_none());
}

#[test]
fn error_messages_match_the_cli_wording() {
    assert_eq!(VcsError::RepositoryNotInitialized.message(), "Repository not initialized");
    assert_eq!(VcsError::AlreadyInitialized.message(), "Already initialized");
    assert_eq!(VcsError::RemoteAlreadyConfigured.message(), "Remote already set");
    assert_eq!(
        VcsError::RemoteAhead.message(),
        "Remote history is ahead of local history, pull the changes first"
    );
    assert_eq!(VcsError::NothingToPush.message(), "Nothing to push");
    assert!(!VcsError::CorruptMetadata.message().is_empty());
    assert!(!VcsError::TruncatedBlob.message().is_empty());
    assert!(!VcsError::NotYetTracked.message().is_empty());
}
