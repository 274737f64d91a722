//! What a restore produced.

use crate::metadata::replay::Applied;
use crate::primitives::oid::Oid;
use vstd::prelude::*;

verus! {

/// An overlay file the restore declined to write, and why.
#[derive(Debug, PartialEq, Eq)]
pub struct Conflict {
    pub path: String,
    pub reason: String,
}

/// A repository rebuilt with its history.
#[derive(Debug, PartialEq, Eq)]
pub struct Rebuilt {
    pub key: String,
    pub at: String,
    pub head: Option<String>,
    pub stashes: usize,
    pub overlay: usize,
    pub conflicts: Vec<Conflict>,
}

#[derive(Debug, PartialEq, Eq)]
pub struct Done {
    /// The backup that was read.
    pub commit: Option<Oid>,
    /// The paths that were asked for, and which half of the store answered for each.
    pub resolved: Vec<(String, String)>,
    pub bundle: Option<String>,
    pub files: usize,
    pub bytes: u64,
    /// The paths the backup holds and the extraction could not write.
    pub missing: Vec<String>,
    pub metadata: Option<Applied>,
    pub repos: Vec<Rebuilt>,
}

impl Default for Done {
    fn default() -> (out: Done)
        ensures
            out.commit is None,
            out.resolved@.len() == 0,
            out.bundle is None,
            out.files == 0,
            out.bytes == 0,
            out.missing@.len() == 0,
            out.metadata is None,
            out.repos@.len() == 0,
    {
        Done {
            commit: None,
            resolved: Vec::new(),
            bundle: None,
            files: 0,
            bytes: 0,
            missing: Vec::new(),
            metadata: None,
            repos: Vec::new(),
        }
    }
}

impl Done {
    pub open spec fn in_conflict(self) -> bool {
        exists|i: int| 0 <= i < self.repos@.len() && (#[trigger] self.repos@[i]).conflicts@.len() > 0
    }

    /// Whether any overlay file was declined.
    pub fn has_conflicts(&self) -> (out: bool)
        ensures
            out == self.in_conflict(),
    {
        let mut i: usize = 0;
        while i < self.repos.len()
            invariant
                i <= self.repos@.len(),
                forall|k: int| 0 <= k < i ==> (#[trigger] self.repos@[k]).conflicts@.len() == 0,
            decreases self.repos@.len() - i,
        {
            if self.repos[i].conflicts.len() > 0 {
                return true;
            }
            i += 1;
        }
        false
    }
}

/// One commit that a path's history holds.
#[derive(Debug, PartialEq, Eq)]
pub struct Commit {
    pub oid: Oid,
    pub when: String,
    pub subject: String,
}

} // verus!
