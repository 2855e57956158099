//! Decisions of the worktree session driver.
//!
//! The driver forks the user command inside a throwaway worktree and
//! waits for it; the process plumbing lives outside the library, and
//! the decisions it applies are here.

use vstd::prelude::*;
use crate::config::Config;

verus! {

/// The exit code the session propagates: the child's own code on a
/// normal exit, `128` plus the signal number when a signal killed it.
pub fn session_exit_code(exited_normally: bool, code: i32, signal: i32) -> (r: i32)
    requires
        0 <= signal <= 64,
    ensures
        exited_normally ==> r == code,
        !exited_normally ==> r == 128 + signal,
{
    if exited_normally {
        code
    } else {
        128 + signal
    }
}

/// The configuration a session registers for its worktree: the session
/// branch and worktree name, everything else defaulted.
pub fn session_config(branch: String, worktree: String) -> (r: Config)
    ensures
        r.branch matches Some(b) && b@ == branch@,
        r.worktree matches Some(w) && w@ == worktree@,
        r.commit_message is None,
        r.merge_message is None,
        r.delay == crate::config::DEFAULT_DELAY,
{
    let mut c = Config::new();
    c.branch = Some(branch);
    c.worktree = Some(worktree);
    c
}

} // verus!
