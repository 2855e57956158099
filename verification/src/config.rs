//! Per-repository autosave configuration.

use vstd::prelude::*;

verus! {

/// The tracking branch used when a configuration names none.
pub open spec fn default_branch() -> Seq<char> {
    "tmp/autosave"@
}

/// The commit message used when a configuration names none.
pub open spec fn default_commit_message() -> Seq<char> {
    "autosave commit"@
}

/// The merge message used when a configuration names none.
pub open spec fn default_merge_message() -> Seq<char> {
    "autosave merge"@
}

/// Quiet time, in seconds, before a save fires when a configuration
/// names no delay.
pub const DEFAULT_DELAY: u64 = 3;

/// One autosave configuration attached to a watched repository path.
///
/// A watched path carries one or more of these, ordered by strictly
/// increasing `delay`: each is one tier of the debounce schedule.
pub struct Config {
    /// Tracking branch name; `tmp/autosave` when absent.
    pub branch: Option<String>,
    /// Message for snapshot commits; `autosave commit` when absent.
    pub commit_message: Option<String>,
    /// Message for auto-merge commits; `autosave merge` when absent.
    pub merge_message: Option<String>,
    /// Quiet seconds before this tier fires.
    pub delay: u64,
    /// Name of the worktree this configuration tracks, if any.
    pub worktree: Option<String>,
}

impl Config {
    /// The branch name in force: the configured one, or the default.
    pub open spec fn spec_branch(&self) -> Seq<char> {
        match self.branch {
            Some(s) => s@,
            None => default_branch(),
        }
    }

    /// The commit message in force: the configured one, or the default.
    pub open spec fn spec_commit_message(&self) -> Seq<char> {
        match self.commit_message {
            Some(s) => s@,
            None => default_commit_message(),
        }
    }

    /// The merge message in force: the configured one, or the default.
    pub open spec fn spec_merge_message(&self) -> Seq<char> {
        match self.merge_message {
            Some(s) => s@,
            None => default_merge_message(),
        }
    }

    /// A configuration with every field defaulted.
    pub fn new() -> (r: Config)
        ensures
            r.branch is None,
            r.commit_message is None,
            r.merge_message is None,
            r.delay == DEFAULT_DELAY,
            r.worktree is None,
    {
        Config {
            branch: None,
            commit_message: None,
            merge_message: None,
            delay: DEFAULT_DELAY,
            worktree: None,
        }
    }

    /// Get branch name
    pub fn branch(&self) -> (r: String)
        ensures
            r@ == self.spec_branch(),
    {
        match &self.branch {
            Some(s) => s.clone(),
            None => "tmp/autosave".to_owned(),
        }
    }

    /// Get commit message
    pub fn commit_message(&self) -> (r: String)
        ensures
            r@ == self.spec_commit_message(),
    {
        match &self.commit_message {
            Some(s) => s.clone(),
            None => "autosave commit".to_owned(),
        }
    }

    /// Get merge message
    pub fn merge_message(&self) -> (r: String)
        ensures
            r@ == self.spec_merge_message(),
    {
        match &self.merge_message {
            Some(s) => s.clone(),
            None => "autosave merge".to_owned(),
        }
    }
}

impl Clone for Config {
    fn clone(&self) -> (r: Self)
        ensures
            r.branch == self.branch,
            r.commit_message == self.commit_message,
            r.merge_message == self.merge_message,
            r.delay == self.delay,
            r.worktree == self.worktree,
    {
        Config {
            branch: match &self.branch {
                Some(s) => Some(s.clone()),
                None => None,
            },
            commit_message: match &self.commit_message {
                Some(s) => Some(s.clone()),
                None => None,
            },
            merge_message: match &self.merge_message {
                Some(s) => Some(s.clone()),
                None => None,
            },
            delay: self.delay,
            worktree: match &self.worktree {
                Some(s) => Some(s.clone()),
                None => None,
            },
        }
    }
}

} // verus!
