//! What a store says of itself: its backups, and what a run put into it.

use crate::primitives::oid::Oid;
use vstd::prelude::*;

verus! {

/// Where a store keeps what it records of each repository.
pub const REPOS_PREFIX: &'static str = ".tycho/repos/";

/// What one run did, as its commit message keeps it.
#[derive(Clone, Copy, Debug, PartialEq, Eq, Structural)]
pub struct Summary {
    pub changed: usize,
    pub added: usize,
    pub deleted: usize,
    pub tracked_bytes: u64,
    pub written_bytes: u64,
    pub seconds: u64,
    pub repos_found: usize,
    pub repos_captured: usize,
}

impl Default for Summary {
    fn default() -> (out: Summary)
        ensures
            out == (Summary {
                changed: 0,
                added: 0,
                deleted: 0,
                tracked_bytes: 0,
                written_bytes: 0,
                seconds: 0,
                repos_found: 0,
                repos_captured: 0,
            }),
    {
        Summary {
            changed: 0,
            added: 0,
            deleted: 0,
            tracked_bytes: 0,
            written_bytes: 0,
            seconds: 0,
            repos_found: 0,
            repos_captured: 0,
        }
    }
}

impl Summary {
    pub open spec fn quiet(self) -> bool {
        self.changed == 0 && self.added == 0 && self.deleted == 0
    }

    /// Whether the run changed nothing.
    #[must_use]
    pub fn is_empty(&self) -> (out: bool)
        ensures
            out == self.quiet(),
    {
        self.changed == 0 && self.added == 0 && self.deleted == 0
    }
}

/// One commit of the store. A commit that carries no summary is not one a run wrote.
#[derive(Debug, PartialEq, Eq)]
pub struct Backup {
    pub commit: Oid,
    pub when: String,
    pub summary: Option<Summary>,
}

/// How many backups a store holds, and between which two moments.
#[derive(Debug, PartialEq, Eq)]
pub struct Span {
    pub backups: usize,
    pub oldest: String,
    pub newest: String,
}

/// What is known of one destination.
#[derive(Debug, PartialEq, Eq)]
#[allow(inconsistent_fields)]
pub enum RemoteState {
    Unseen,
    Synced { at: String },
    Behind { runs: u32, last_seen: String },
    Failed { at: String, reason: String },
}

/// A destination's state as a report needs it: the state, the word for it, and how bad it is.
#[derive(Debug, PartialEq, Eq)]
pub struct RemoteSeen {
    pub state: RemoteState,
    /// `ok`, `behind 3 of 4`, `failed`, `unseen`.
    pub word: String,
    pub red: bool,
    pub yellow: bool,
    /// How many runs behind it may fall.
    pub tolerance: u32,
}

/// What a push to one destination came to.
#[derive(Debug, PartialEq, Eq)]
pub struct RemoteResult {
    pub name: String,
    pub seen: RemoteSeen,
}

/// A run that finished.
#[derive(Debug, PartialEq, Eq)]
pub struct Completed {
    pub commit: Oid,
    pub summary: Summary,
    pub warnings: Vec<String>,
    pub remotes: Vec<RemoteResult>,
}

/// What a run is doing right now.
#[derive(Debug, PartialEq, Eq)]
pub enum Step {
    Planning,
    Hashing { files: usize },
    Capturing { repo: String, done: usize, total: usize },
    Publishing,
    Pushing { remote: String },
}

/// One run as the state file keeps it.
#[derive(Debug, PartialEq, Eq)]
pub struct RunRecord {
    pub when: String,
    pub failed: bool,
    pub store_bytes: u64,
}

} // verus!
