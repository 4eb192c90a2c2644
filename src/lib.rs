//! Incremental mirroring of remote playlists: a per-playlist ledger of the
//! entries already fetched, the delta computed against it, and the decision
//! to take a repository snapshot.

pub mod ledger;
pub mod sync;
pub mod snapshot;
pub mod laws;
