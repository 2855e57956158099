use autosave::paths::{normalize_path, worktree_path};

#[test]
fn normalize_resolves_dots() {
    let cwd = b"/home".to_vec();
    let path = b"/a/b/../c/./d".to_vec();
    assert_eq!(normalize_path(&cwd, &path), b"/a/c/d".to_vec());
}

#[test]
fn normalize_joins_relative_onto_cwd() {
    let cwd = b"/home/user".to_vec();
    let path = b"x/y".to_vec();
    assert_eq!(normalize_path(&cwd, &path), b"/home/user/x/y".to_vec());
}

#[test]
fn normalize_collapses_repeated_separators() {
    let cwd = b"/".to_vec();
    let path = b"/a//b///c".to_vec();
    assert_eq!(normalize_path(&cwd, &path), b"/a/b/c".to_vec());
}

#[test]
fn normalize_parent_of_root_stays_at_root() {
    let cwd = b"/".to_vec();
    let path = b"/..".to_vec();
    assert_eq!(normalize_path(&cwd, &path), b"/".to_vec());
}

#[test]
fn normalize_relative_parent() {
    let cwd = b"/home/user/sub".to_vec();
    let path = b"../other".to_vec();
    assert_eq!(normalize_path(&cwd, &path), b"/home/user/other".to_vec());
}

#[test]
fn normalize_empty_relative_is_cwd() {
    let cwd = b"/w".to_vec();
    let path = b"".to_vec();
    assert_eq!(normalize_path(&cwd, &path), b"/w".to_vec());
}

#[test]
fn worktree_path_sanitizes_root_and_branch() {
    let cache = b"/c".to_vec();
    let root = b"/home/u/repo".to_vec();
    let branch = b"feature/x".to_vec();
    assert_eq!(
        worktree_path(&cache, &root, &branch),
        b"/c/worktrees/home%u%repo/feature%x".to_vec()
    );
}

#[test]
fn worktree_path_plain_branch() {
    let cache = b"/cache/autosave".to_vec();
    let root = b"/r".to_vec();
    let branch = b"main".to_vec();
    assert_eq!(
        worktree_path(&cache, &root, &branch),
        b"/cache/autosave/worktrees/r/main".to_vec()
    );
}

#[test]
fn worktree_path_keeps_separator_variants_apart() {
    // The joiner `%` only ever stands for a separator, so a branch
    // with a separator and one with a dash do not collide...
    let cache = b"/c".to_vec();
    let root = b"/r".to_vec();
    let a = worktree_path(&cache, &root, &b"x/y".to_vec());
    let b = worktree_path(&cache, &root, &b"x-y".to_vec());
    assert_ne!(a, b);
    // ...and neither do roots whose components merely move a dash.
    let r1 = worktree_path(&cache, &b"/a-b/c".to_vec(), &b"m".to_vec());
    let r2 = worktree_path(&cache, &b"/a/b-c".to_vec(), &b"m".to_vec());
    assert_ne!(r1, r2);
}
