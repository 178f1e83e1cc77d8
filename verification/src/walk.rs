//! Enumerating the files under a root as an explicit worklist.
//!
//! The recursive traversal is reframed as a stack of pending directories and
//! a list of files found, so no directory handle outlives the one listing the
//! caller performs per step: the caller pops a directory, lists it, and
//! reports each entry back.

use vstd::prelude::*;

verus! {

/// A traversal in progress: the directories still to list, and every file
/// found so far.
pub struct DirWalk {
    /// Directories awaiting a listing.
    pub pending: Vec<String>,
    /// Files collected, in the order they were reported.
    pub files: Vec<String>,
}

impl DirWalk {
    /// A traversal of everything under `root`.
    pub fn new(root: String) -> (r: DirWalk)
        ensures
            r.pending@ == seq![root],
            r.files@.len() == 0,
    {
        let mut pending: Vec<String> = Vec::new();
        pending.push(root);
        proof {
            assert(pending@ =~= seq![pending@[0]]);
        }
        DirWalk { pending, files: Vec::new() }
    }

    /// Hands out the next directory to list, if any is pending.
    pub fn next_dir(&mut self) -> (r: Option<String>)
        ensures
            final(self).files == old(self).files,
            match r {
                Some(d) => old(self).pending@.len() > 0 && d == old(self).pending@.last()
                    && final(self).pending@ == old(self).pending@.drop_last(),
                None => old(self).pending@.len() == 0 && final(self).pending@ == old(
                    self,
                ).pending@,
            },
    {
        let r = self.pending.pop();
        proof {
            if old(self).pending@.len() > 0 {
                assert(old(self).pending@.subrange(0, old(self).pending@.len() - 1) =~= old(
                    self,
                ).pending@.drop_last());
            }
        }
        r
    }

    /// Records one entry of a listing: a directory joins the worklist, a file
    /// joins the result.
    pub fn record_entry(&mut self, path: String, is_dir: bool)
        ensures
            final(self).pending@ == if is_dir {
                old(self).pending@.push(path)
            } else {
                old(self).pending@
            },
            final(self).files@ == if is_dir {
                old(self).files@
            } else {
                old(self).files@.push(path)
            },
    {
        if is_dir {
            self.pending.push(path);
        } else {
            self.files.push(path);
        }
    }

    /// Whether the traversal still has directories to list.
    pub fn is_done(&self) -> (r: bool)
        ensures
            r == (self.pending@.len() == 0),
    {
        self.pending.len() == 0
    }
}

} // verus!
