use autosave::config::{Config, DEFAULT_DELAY};
use autosave::session::{session_config, session_exit_code};

#[test]
fn defaults() {
    let c = Config::new();
    assert_eq!(c.branch(), "tmp/autosave".to_string());
    assert_eq!(c.commit_message(), "autosave commit".to_string());
    assert_eq!(c.merge_message(), "autosave merge".to_string());
    assert_eq!(c.delay, DEFAULT_DELAY);
    assert_eq!(c.delay, 3);
    assert!(c.worktree.is_none());
}

#[test]
fn configured_values_win() {
    let mut c = Config::new();
    c.branch = Some("side".to_string());
    c.commit_message = Some("snap".to_string());
    c.merge_message = Some("join".to_string());
    assert_eq!(c.branch(), "side".to_string());
    assert_eq!(c.commit_message(), "snap".to_string());
    assert_eq!(c.merge_message(), "join".to_string());
}

#[test]
fn clone_copies_every_field() {
    let mut c = Config::new();
    c.branch = Some("side".to_string());
    c.delay = 42;
    c.worktree = Some("wt".to_string());
    let d = c.clone();
    assert_eq!(d.branch(), "side".to_string());
    assert_eq!(d.delay, 42);
    assert_eq!(d.worktree, Some("wt".to_string()));
}

#[test]
fn exit_code_propagates_or_reports_signal() {
    assert_eq!(session_exit_code(true, 5, 0), 5);
    assert_eq!(session_exit_code(true, 0, 9), 0);
    // Death by SIGKILL reports 128 + 9.
    assert_eq!(session_exit_code(false, 0, 9), 137);
}

#[test]
fn session_config_names_branch_and_worktree() {
    let c = session_config("feature/x".to_string(), "wt-1".to_string());
    assert_eq!(c.branch(), "feature/x".to_string());
    assert_eq!(c.worktree, Some("wt-1".to_string()));
    assert_eq!(c.delay, DEFAULT_DELAY);
    assert_eq!(c.commit_message(), "autosave commit".to_string());
}
