//! The engine's top layer: an optional store, and one operation per
//! command, each refusing cleanly when the repository is uninitialized.

use vstd::prelude::*;

use crate::error::VcsError;
use crate::store::{spec_commit, spec_set_remote, spec_view, view, Store, StoreView};
use crate::types::{Commit, RestoredFile, WorkingFile};
use crate::util::{
    generate_commit_id, get_current_formatted_date, is_ascii_alphanumeric_char,
    is_formatted_date,
};

verus! {

/// The engine's handle on the repository: `None` until `init` has created
/// the store.  The caller owns persistence — it loads the store from disk
/// into this handle before an operation and writes the store back after —
/// so the store here is the single source of truth for one operation at a
/// time, under the engine's single-writer assumption.
pub struct Repository {
    pub store: Option<Store>,
}

impl Repository {
    /// The store's mathematical value, when the repository is initialized.
    pub open spec fn spec_store(self) -> Option<StoreView> {
        match self.store {
            Option::Some(s) => Option::Some(s@),
            Option::None => Option::None,
        }
    }

    /// Well-formedness: an initialized repository holds a well-formed store.
    pub open spec fn wf(self) -> bool {
        match self.spec_store() {
            Option::Some(s) => s.wf(),
            Option::None => true,
        }
    }

    /// A repository on which `init` has not yet run.
    pub fn uninitialized() -> (r: Repository)
        ensures
            r.spec_store() is None,
            r.wf(),
    {
        Repository { store: None }
    }

    /// Creates the empty store.  Fails with `AlreadyInitialized`, changing
    /// nothing, if a store already exists.
    pub fn init(&mut self) -> (r: Result<(), VcsError>)
        ensures
            match r {
                Ok(()) => {
                    &&& old(self).spec_store() is None
                    &&& final(self).spec_store() == Option::Some(StoreView::init())
                    &&& final(self).wf()
                },
                Err(e) => {
                    &&& e == VcsError::AlreadyInitialized
                    &&& old(self).spec_store() is Some
                    &&& *final(self) == *old(self)
                },
            },
    {
        match &self.store {
            Some(_) => Err(VcsError::AlreadyInitialized),
            None => {
                self.store = Some(Store::new());
                Ok(())
            },
        }
    }

    /// Commits the working tree under a freshly drawn commit id and the
    /// current date: the returned record is the one appended to the root
    /// log, and the store changes exactly as `spec_commit` says.  Fails with
    /// `RepositoryNotInitialized`, changing nothing, when no store exists.
    pub fn commit(&mut self, description: &str, working: &Vec<WorkingFile>) -> (r: Result<
        Commit,
        VcsError,
    >)
        requires
            old(self).wf(),
        ensures
            match r {
                Ok(c) => {
                    &&& old(self).spec_store() matches Some(s) && final(self).spec_store()
                        == Option::Some(spec_commit(
                        s,
                        working@.map_values(|w: WorkingFile| w@),
                        c@,
                    ))
                    &&& final(self).wf()
                    &&& c@.description == description@
                    &&& is_formatted_date(c@.date)
                    &&& c@.commit_id.len() == 7
                    &&& forall|i: int|
                        0 <= i < c@.commit_id.len() ==> is_ascii_alphanumeric_char(
                            #[trigger] c@.commit_id[i],
                        )
                },
                Err(e) => {
                    &&& e == VcsError::RepositoryNotInitialized
                    &&& old(self).spec_store() is None
                    &&& *final(self) == *old(self)
                },
            },
    {
        match self.store.take() {
            None => Err(VcsError::RepositoryNotInitialized),
            Some(mut store) => {
                let commit_id = generate_commit_id();
                let date = get_current_formatted_date();
                store.commit(description, date.as_str(), commit_id.as_str(), working);
                let c = Commit {
                    date,
                    description: description.to_owned(),
                    commit_id,
                };
                self.store = Some(store);
                Ok(c)
            },
        }
    }

    /// Reconstructs the working tree as of `commit_id`, per-file latest
    /// version as silent fallback.  Fails with `RepositoryNotInitialized`
    /// when no store exists.
    pub fn view(&self, commit_id: &str) -> (r: Result<Vec<RestoredFile>, VcsError>)
        requires
            self.wf(),
        ensures
            match r {
                Ok(v) => self.spec_store() matches Some(s) && v@.map_values(|f: RestoredFile| f@)
                    == spec_view(s, commit_id@),
                Err(e) => {
                    &&& e == VcsError::RepositoryNotInitialized
                    &&& self.spec_store() is None
                },
            },
    {
        match &self.store {
            None => Err(VcsError::RepositoryNotInitialized),
            Some(store) => Ok(view(store, commit_id)),
        }
    }

    /// Records the remote namespace identifier, refusing to overwrite an
    /// existing marker.  Fails with `RepositoryNotInitialized` when no store
    /// exists to hold the marker.
    pub fn set_remote(&mut self, name: &str) -> (r: Result<(), VcsError>)
        ensures
            match r {
                Ok(()) => {
                    &&& old(self).spec_store() matches Some(s) && s.remote is None
                        && final(self).spec_store() == Option::Some(spec_set_remote(s, name@).0)
                    &&& old(self).wf() ==> final(self).wf()
                },
                Err(e) => {
                    &&& final(self).spec_store() == old(self).spec_store()
                    &&& match old(self).spec_store() {
                        Option::None => e == VcsError::RepositoryNotInitialized,
                        Option::Some(s) => e == VcsError::RemoteAlreadyConfigured && s.remote
                            is Some,
                    }
                },
            },
    {
        match self.store.take() {
            None => Err(VcsError::RepositoryNotInitialized),
            Some(mut store) => {
                let r = store.set_remote(name);
                self.store = Some(store);
                r
            },
        }
    }

    /// The full root commit log, in append order.
    pub fn commits(&self) -> (r: Result<&Vec<Commit>, VcsError>)
        ensures
            match r {
                Ok(v) => self.spec_store() matches Some(s) && v@.map_values(|c: Commit| c@)
                    == s.commits,
                Err(e) => {
                    &&& e == VcsError::RepositoryNotInitialized
                    &&& self.spec_store() is None
                },
            },
    {
        match &self.store {
            None => Err(VcsError::RepositoryNotInitialized),
            Some(store) => Ok(&store.commits),
        }
    }
}

} // verus!
