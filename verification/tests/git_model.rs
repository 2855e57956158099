use autosave::git_model::{CommitRec, HeadRef, RepoModel, TreeEntry};

fn entry(path: &[u8], oid: u64) -> TreeEntry {
    TreeEntry { path: path.to_vec(), mode: 0o100644, oid }
}

fn commit(tree: Vec<TreeEntry>, parents: Vec<usize>) -> CommitRec {
    CommitRec { tree, parents, message: b"init".to_vec() }
}

/// A repository with one commit holding `a`, HEAD on `main`, and a
/// working tree that adds `b`.
fn dirty_repo() -> RepoModel {
    RepoModel {
        activity_clean: true,
        head: HeadRef::OnBranch(b"refs/heads/main".to_vec()),
        branches: vec![(b"refs/heads/main".to_vec(), 0)],
        commits: vec![commit(vec![entry(b"a", 1)], vec![])],
        workdir: vec![entry(b"a", 1), entry(b"b", 2)],
        index: vec![entry(b"a", 1)],
    }
}

fn branch() -> Vec<u8> {
    b"refs/heads/tmp/autosave".to_vec()
}

fn save(m: &mut RepoModel) {
    let cmsg = b"autosave commit".to_vec();
    let mmsg = b"autosave merge".to_vec();
    m.save(&branch(), &cmsg, &mmsg);
}

fn find_tip(m: &RepoModel, name: &[u8]) -> Option<usize> {
    m.branches.iter().find(|(n, _)| n == &name.to_vec()).map(|(_, t)| *t)
}

#[test]
fn save_advances_tracking_branch_to_working_tree() {
    let mut m = dirty_repo();
    save(&mut m);
    // The tracking branch exists and its tip's tree is the working
    // tree.
    let tip = find_tip(&m, &branch()).expect("tracking branch created");
    let tree = &m.commits[tip].tree;
    assert_eq!(tree.len(), 2);
    assert_eq!(tree[0].path, b"a".to_vec());
    assert_eq!(tree[1].path, b"b".to_vec());
    // A fresh commit was made.
    assert_eq!(m.commits.len(), 2);
    assert_eq!(m.commits[1].parents, vec![0]);
}

#[test]
fn save_is_transparent_to_head_and_index() {
    let mut m = dirty_repo();
    save(&mut m);
    // HEAD still points at the user's branch...
    match &m.head {
        HeadRef::OnBranch(n) => assert_eq!(n, &b"refs/heads/main".to_vec()),
        _ => panic!("HEAD moved"),
    }
    // ...the user's branch did not move...
    assert_eq!(find_tip(&m, b"refs/heads/main"), Some(0));
    // ...and the pre-save index entries are still staged.
    assert!(m.index.iter().any(|e| e.path == b"a".to_vec() && e.oid == 1));
}

#[test]
fn second_save_makes_no_new_commit() {
    let mut m = dirty_repo();
    save(&mut m);
    let commits_after_first = m.commits.len();
    save(&mut m);
    assert_eq!(m.commits.len(), commits_after_first);
}

#[test]
fn save_mid_rebase_changes_nothing() {
    let mut m = dirty_repo();
    m.activity_clean = false;
    save(&mut m);
    assert_eq!(m.commits.len(), 1);
    assert_eq!(find_tip(&m, b"refs/heads/main"), Some(0));
    assert_eq!(find_tip(&m, &branch()), None);
    assert!(matches!(m.head, HeadRef::OnBranch(_)));
}

#[test]
fn save_on_unborn_head_is_a_clean_noop() {
    let mut m = dirty_repo();
    m.head = HeadRef::Unborn;
    m.branches = vec![];
    save(&mut m);
    assert!(matches!(m.head, HeadRef::Unborn));
    assert_eq!(m.commits.len(), 1);
    assert!(m.branches.is_empty());
}

#[test]
fn save_with_detached_head_does_not_move_it() {
    let mut m = dirty_repo();
    m.head = HeadRef::Detached(0);
    save(&mut m);
    match m.head {
        HeadRef::Detached(c) => assert_eq!(c, 0),
        _ => panic!("detached HEAD moved"),
    }
    // The tracking branch was created from the detached commit.
    let tip = find_tip(&m, &branch()).expect("tracking branch created");
    assert_eq!(m.commits[tip].parents, vec![0]);
}

#[test]
fn save_with_clean_tree_is_a_noop() {
    let mut m = dirty_repo();
    m.workdir = vec![entry(b"a", 1)];
    save(&mut m);
    assert_eq!(m.commits.len(), 1);
    assert_eq!(find_tip(&m, &branch()), None);
}
