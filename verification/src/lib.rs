//! Continuous-snapshot engine for Git working trees.
//!
//! The library holds the verified core of an autosave daemon: the
//! configuration records attached to each watched repository, the
//! debounce schedule that turns bursts of filesystem events into save
//! invocations, the watch-list state that the daemon's API mutates, the
//! path-redirection rules applied by the preload layer, and the save
//! algorithm that commits the working tree onto a tracking branch
//! without disturbing HEAD — proved over a repository model and run
//! against the real backend.

pub mod config;
pub mod debounce;
pub mod git;
pub mod git_model;
pub mod paths;
pub mod redirect;
pub mod session;
pub mod state;

pub use config::Config;
pub use paths::worktree_path;
pub use state::{
    ApiResponse, ApiState, ChangeWatchRequest, WatchListEntry, WatchListFile, WatchListFileEntry,
    WatchListResponse, change_watch_list, get_watch_list, kill,
};
