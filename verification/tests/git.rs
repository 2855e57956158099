use autosave::git::{GitError, GitRepo, ReferenceName};

/// A unique scratch path under /tmp.
fn unique_path(tag: &str) -> String {
    let stamp = std::time::SystemTime::now()
        .duration_since(std::time::UNIX_EPOCH)
        .expect("clock")
        .as_nanos();
    format!("/tmp/autosave_engine_test_{}_{}", tag, stamp)
}

/// A fresh repository under /tmp with one commit, built through the
/// backend alone.
fn make_repo(tag: &str) -> String {
    let path = unique_path(tag);
    let repo = git2::Repository::init(&path).expect("init");
    let mut config = repo.config().expect("config");
    config.set_str("user.name", "tester").expect("name");
    config.set_str("user.email", "tester@example.invalid").expect("email");
    let sig = git2::Signature::now("tester", "tester@example.invalid").expect("sig");
    // HEAD's tree holds one file that the (empty) working tree lacks,
    // so there is something to save.
    let blob = repo.blob(b"hello").expect("blob");
    let mut builder = repo.treebuilder(None).expect("treebuilder");
    builder.insert("a.txt", blob, 0o100644).expect("insert");
    let tree_oid = builder.write().expect("tree");
    let tree = repo.find_tree(tree_oid).expect("find tree");
    repo.commit(Some("HEAD"), &sig, &sig, "init", &tree, &[]).expect("commit");
    path
}

#[test]
fn save_on_real_repository_creates_tracking_branch_and_keeps_head() {
    let path = make_repo("save");
    let repo = GitRepo::new(&path).expect("open");
    let branch = "tmp/autosave".to_string();

    let head_before = match repo.get_current_head_name().expect("head") {
        ReferenceName::Branch(name) => name,
        ReferenceName::Commit(_) => panic!("fresh repository must be on a branch"),
    };
    assert!(!repo.is_saved(&branch).expect("is_saved"));

    repo.save(&branch, &"autosave commit".to_string(), &"autosave merge".to_string())
        .expect("save");

    // The tracking branch exists now.
    assert!(repo.get_branch(&branch).expect("get_branch").is_some());
    // HEAD is back where it was.
    let head_after = match repo.get_current_head_name().expect("head") {
        ReferenceName::Branch(name) => name,
        ReferenceName::Commit(_) => panic!("HEAD became detached"),
    };
    assert_eq!(head_before, head_after);
    // A second save with no changes is a clean no-op.
    assert!(repo.is_saved(&branch).expect("is_saved"));
    repo.save(&branch, &"autosave commit".to_string(), &"autosave merge".to_string())
        .expect("second save");
}

#[test]
fn save_on_unborn_head_is_a_clean_noop_in_the_engine() {
    // A freshly initialised repository: no commit yet, HEAD unborn.
    let path = unique_path("unborn");
    git2::Repository::init(&path).expect("init");
    let repo = GitRepo::new(&path).expect("open");
    let branch = "tmp/autosave".to_string();
    repo.save(&branch, &"autosave commit".to_string(), &"autosave merge".to_string())
        .expect("save must no-op cleanly");
    // No ref was created.
    assert!(repo.get_branch(&branch).expect("get_branch").is_none());
}

#[test]
fn missing_branch_reads_as_none() {
    let path = make_repo("branch");
    let repo = GitRepo::new(&path).expect("open");
    assert!(repo.get_branch(&"no/such/branch".to_string()).expect("get_branch").is_none());
    let created = repo.get_or_create_branch(&"side".to_string());
    assert!(created.is_ok());
    assert!(repo.get_branch(&"side".to_string()).expect("get_branch").is_some());
}

#[test]
fn auto_merge_records_prior_branch_as_first_parent() {
    // The user's branch and the tracking branch diverge from a common
    // base but carry the same tree, so save auto-merges them. The
    // merge commit's parents are (prior branch, tracking branch).
    let path = unique_path("automerge");
    let repo = git2::Repository::init(&path).expect("init");
    let mut config = repo.config().expect("config");
    config.set_str("user.name", "tester").expect("name");
    config.set_str("user.email", "tester@example.invalid").expect("email");
    let sig = git2::Signature::now("tester", "tester@example.invalid").expect("sig");

    // Base commit with an empty tree on the user's branch.
    let empty_oid = repo.treebuilder(None).expect("tb").write().expect("tree");
    let empty_tree = repo.find_tree(empty_oid).expect("find tree");
    let c0 = repo.commit(Some("HEAD"), &sig, &sig, "base", &empty_tree, &[]).expect("c0");
    let c0_commit = repo.find_commit(c0).expect("find c0");

    // A shared tree with one file.
    let blob = repo.blob(b"x").expect("blob");
    let mut tb = repo.treebuilder(None).expect("tb");
    tb.insert("f", blob, 0o100644).expect("insert");
    let shared_oid = tb.write().expect("tree");
    let shared_tree = repo.find_tree(shared_oid).expect("find tree");

    // The tracking branch and the user's branch both advance to the
    // shared tree, as separate commits.
    repo.branch("tmp/autosave", &c0_commit, false).expect("branch");
    let c1 = repo
        .commit(Some("refs/heads/tmp/autosave"), &sig, &sig, "side", &shared_tree, &[&c0_commit])
        .expect("c1");
    let c2 = repo
        .commit(Some("HEAD"), &sig, &sig, "main", &shared_tree, &[&c0_commit])
        .expect("c2");
    drop(c0_commit);

    let engine = GitRepo::new(&path).expect("open");
    engine
        .save(&"tmp/autosave".to_string(), &"autosave commit".to_string(), &"autosave merge".to_string())
        .expect("save");

    // The tracking tip is the snapshot commit; its parent is the
    // merge commit, whose parents are (prior, tracking).
    let check = git2::Repository::open(&path).expect("reopen");
    let tip = check
        .find_branch("tmp/autosave", git2::BranchType::Local)
        .expect("branch")
        .get()
        .peel_to_commit()
        .expect("tip");
    let merge = tip.parent(0).expect("snapshot parent");
    assert_eq!(merge.parent_count(), 2);
    assert_eq!(merge.parent(0).expect("p0").id(), c2);
    assert_eq!(merge.parent(1).expect("p1").id(), c1);
}

#[test]
fn fresh_repository_ignores_nothing() {
    let path = make_repo("ignore");
    let repo = GitRepo::new(&path).expect("open");
    let probe = format!("{path}/build/out.bin").into_bytes();
    assert_eq!(repo.is_ignored(&probe).expect("is_ignored"), false);
}

#[test]
fn opening_a_non_repository_reports_no_repository() {
    // The filesystem root is no Git repository and has no repository
    // above it.
    let r = GitRepo::new(&"/".to_string());
    match r {
        Err(GitError::NoRepository(_)) => {}
        Err(_) => panic!("expected the not-a-repository error"),
        Ok(_) => panic!("the root must not open as a repository"),
    }
}

#[test]
fn opening_a_missing_path_fails() {
    let r = GitRepo::new(&"/no/such/path/anywhere".to_string());
    assert!(r.is_err());
}
