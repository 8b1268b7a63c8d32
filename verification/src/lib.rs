//! A minimal local version-control engine.
//!
//! The library snapshots a working directory into an append-only per-file
//! history store, reconstructs any prior snapshot on demand, and decides how
//! the store is synchronized with a remote blob namespace.  All engine logic
//! is verified; reading and writing the actual files, and talking to the
//! remote store, is left to the surrounding binary, which hands the engine
//! plain values and persists what comes back.

pub mod error;
pub mod history;
pub mod ignore;
pub mod laws;
pub mod paths;
pub mod repo;
pub mod store;
pub mod sync;
pub mod types;
pub mod util;
