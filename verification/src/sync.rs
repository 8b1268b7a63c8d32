//! Remote synchronization decisions: whether a push may proceed, from the
//! local and remote root commit logs alone.

use vstd::prelude::*;

use crate::error::VcsError;
use crate::store::{find_commit_by_commit_id, lemma_find_commit_characterizes, spec_find_commit};
use crate::types::{Commit, CommitView};

verus! {

/// The push divergence policy, over the two parsed root commit logs.  If
/// the remote's latest commit id is absent from the local log, the remote
/// is ahead: pull first.  Otherwise, if the remote holds at least as many
/// commits as the local log, there is nothing to push.  Otherwise the push
/// may proceed (the caller then clears the remote namespace and mirrors the
/// whole local store).
pub open spec fn spec_push_check(local: Seq<CommitView>, remote: Seq<CommitView>) -> Result<
    (),
    VcsError,
>
    recommends
        remote.len() > 0,
{
    if spec_find_commit(local, remote.last().commit_id) is None {
        Err(VcsError::RemoteAhead)
    } else if remote.len() >= local.len() {
        Err(VcsError::NothingToPush)
    } else {
        Ok(())
    }
}

/// Decides whether a push may proceed.  The remote log must hold at least
/// one commit; the original engine does not support pushing to a remote
/// whose log is empty, so callers check that first.  No remote state is
/// touched here: on any `Err` the caller mirrors nothing.
pub fn push_check(local_commits: &Vec<Commit>, remote_commits: &Vec<Commit>) -> (r: Result<
    (),
    VcsError,
>)
    requires
        remote_commits@.len() > 0,
    ensures
        r == spec_push_check(
            local_commits@.map_values(|c: Commit| c@),
            remote_commits@.map_values(|c: Commit| c@),
        ),
{
    let ghost local = local_commits@.map_values(|c: Commit| c@);
    let ghost remote = remote_commits@.map_values(|c: Commit| c@);
    let last_remote = &remote_commits[remote_commits.len() - 1];
    proof {
        assert(last_remote@ == remote.last());
    }
    match find_commit_by_commit_id(local_commits, last_remote.commit_id.as_str()) {
        None => Err(VcsError::RemoteAhead),
        Some(_) => {
            if remote_commits.len() >= local_commits.len() {
                Err(VcsError::NothingToPush)
            } else {
                Ok(())
            }
        },
    }
}

/// After a pull that leaves the local log equal to the remote log — a
/// successful pull with no local changes since — a push has nothing to do:
/// it fails with `NothingToPush`.
pub proof fn lemma_push_after_pull_nothing_to_push(
    local: Seq<CommitView>,
    remote: Seq<CommitView>,
)
    requires
        local == remote,
        remote.len() > 0,
    ensures
        spec_push_check(local, remote) == Err::<(), VcsError>(VcsError::NothingToPush),
{
    let id = remote.last().commit_id;
    lemma_find_commit_characterizes(local, id);
    match spec_find_commit(local, id) {
        None => {
            assert(local[local.len() - 1].commit_id == id);
        },
        Some(_) => {},
    }
}

/// When the local log is missing the remote's latest commit id, push
/// refuses with `RemoteAhead`; since the decision precedes any transfer,
/// the remote is not mutated.
pub proof fn lemma_push_remote_ahead(local: Seq<CommitView>, remote: Seq<CommitView>)
    requires
        remote.len() > 0,
        forall|j: int|
            0 <= j < local.len() ==> (#[trigger] local[j]).commit_id != remote.last().commit_id,
    ensures
        spec_push_check(local, remote) == Err::<(), VcsError>(VcsError::RemoteAhead),
{
    let id = remote.last().commit_id;
    lemma_find_commit_characterizes(local, id);
    match spec_find_commit(local, id) {
        None => {},
        Some(c) => {
            let j = choose|j: int|
                {
                    &&& 0 <= j < local.len()
                    &&& #[trigger] local[j] == c
                    &&& c.commit_id == id
                };
            assert(local[j].commit_id == id);
            assert(false);
        },
    }
}

} // verus!
