//! The state of a depth-first walk over a directory tree. The caller looks
//! at each path the walk hands out and, for a directory, hands back its
//! entries.

use vstd::prelude::*;
use crate::compat::string_views;

verus! {

/// A walk that has not started: the root and the paths still to visit.
pub struct WalkDir {
    pub root: String,
    pub stack: Vec<String>,
}

/// A walk under way.
pub struct WalkDirIter {
    pub walk_dir: WalkDir,
}

impl WalkDir {
    /// A walk from `path`, which is the first path it visits.
    pub fn new(path: &str) -> (r: WalkDir)
        ensures
            r.root@ == path@,
            string_views(r.stack@) == seq![path@],
    {
        let mut stack: Vec<String> = Vec::new();
        stack.push(path.to_string());
        let r = WalkDir { root: path.to_string(), stack };
        assert(string_views(r.stack@) =~= seq![path@]);
        r
    }

    /// Starts the walk.
    pub fn into_iter(self) -> (r: WalkDirIter)
        ensures
            r.walk_dir == self,
    {
        WalkDirIter { walk_dir: self }
    }
}

impl WalkDirIter {
    /// The next path to visit: the one discovered last, or none when the
    /// walk is over.
    pub fn next_path(&mut self) -> (r: Option<String>)
        ensures
            final(self).walk_dir.root == old(self).walk_dir.root,
            old(self).walk_dir.stack@.len() == 0 ==> r is None && final(self).walk_dir.stack@
                == old(self).walk_dir.stack@,
            old(self).walk_dir.stack@.len() > 0 ==> r == Some(old(self).walk_dir.stack@.last())
                && final(self).walk_dir.stack@ == old(self).walk_dir.stack@.drop_last(),
    {
        self.walk_dir.stack.pop()
    }

    /// Schedules the entries of the directory visited last.
    pub fn push_children(&mut self, children: Vec<String>)
        ensures
            final(self).walk_dir.root == old(self).walk_dir.root,
            final(self).walk_dir.stack@ == old(self).walk_dir.stack@ + children@,
    {
        let mut children = children;
        self.walk_dir.stack.append(&mut children);
    }

    /// Whether every path has been visited.
    pub fn is_done(&self) -> (r: bool)
        ensures
            r == (self.walk_dir.stack@.len() == 0),
    {
        self.walk_dir.stack.len() == 0
    }
}

} // verus!
