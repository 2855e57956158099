//! The Git engine: the save routine over a real repository.
//!
//! Every backend call goes through one trusted wrapper per libgit2
//! binding; the orchestration around them is verified. What a call
//! returns depends on the repository on disk, so the wrappers promise
//! only the shape of their results; the object-level semantics of the
//! save algorithm are stated and proved over the repository model in
//! the companion model module.

use vstd::prelude::*;

verus! {

//
// Declarations of the backend's types. Verus treats their values as
// opaque; they are carried between wrappers, never inspected.
//

#[verifier::external_type_specification]
#[verifier::external_body]
pub struct ExRepository(git2::Repository);

#[verifier::external_type_specification]
#[verifier::external_body]
pub struct ExGitError(git2::Error);

#[verifier::external_type_specification]
#[verifier::external_body]
pub struct ExReference<'a>(git2::Reference<'a>);

#[verifier::external_type_specification]
#[verifier::external_body]
pub struct ExBranch<'a>(git2::Branch<'a>);

#[verifier::external_type_specification]
#[verifier::external_body]
pub struct ExCommit<'a>(git2::Commit<'a>);

#[verifier::external_type_specification]
#[verifier::external_body]
pub struct ExTree<'a>(git2::Tree<'a>);

#[verifier::external_type_specification]
#[verifier::external_body]
pub struct ExDiff<'a>(git2::Diff<'a>);

#[verifier::external_type_specification]
#[verifier::external_body]
pub struct ExDiffStats(git2::DiffStats);

#[verifier::external_type_specification]
#[verifier::external_body]
pub struct ExIndex(git2::Index);

#[verifier::external_type_specification]
#[verifier::external_body]
pub struct ExIndexEntry(git2::IndexEntry);

#[verifier::external_type_specification]
#[verifier::external_body]
pub struct ExOid(git2::Oid);

#[verifier::external_type_specification]
#[verifier::external_body]
pub struct ExSignature<'a>(git2::Signature<'a>);

//
// Trusted wrappers, one per backend call.
//

/// Relies on git2::Repository::open: opens the repository at a path.
#[verifier::external_body]
fn repo_open(path: &String) -> (r: Result<git2::Repository, git2::Error>) {
    git2::Repository::open(path.as_str())
}

/// Relies on git2::Error::code: whether the error is `NotFound`.
#[verifier::external_body]
fn err_is_not_found(e: &git2::Error) -> (r: bool) {
    e.code() == git2::ErrorCode::NotFound
}

/// Relies on git2::Error::code: whether the error is `NotFound` or
/// `UnbornBranch`.
#[verifier::external_body]
fn err_is_not_found_or_unborn(e: &git2::Error) -> (r: bool) {
    e.code() == git2::ErrorCode::NotFound || e.code() == git2::ErrorCode::UnbornBranch
}

/// Relies on git2::Repository::state: whether no merge, rebase or
/// cherry-pick is in progress.
#[verifier::external_body]
fn repo_state_is_clean(repo: &git2::Repository) -> (r: bool) {
    repo.state() == git2::RepositoryState::Clean
}

/// Relies on git2::Repository::head: the reference HEAD points to.
#[verifier::external_body]
fn repo_head<'r>(repo: &'r git2::Repository) -> (r: Result<git2::Reference<'r>, git2::Error>) {
    repo.head()
}

/// Relies on git2::Repository::head_detached: whether HEAD points
/// directly at a commit.
#[verifier::external_body]
fn repo_head_detached(repo: &git2::Repository) -> (r: Result<bool, git2::Error>) {
    repo.head_detached()
}

/// Relies on git2::Reference::name: the reference's full name, which
/// the backend reports as UTF-8 text.
#[verifier::external_body]
fn reference_name_string(re: &git2::Reference<'_>) -> (r: Result<String, git2::Error>) {
    re.name().map(|s| s.to_owned())
}

/// Relies on git2::Reference::peel_to_commit: the commit the reference
/// resolves to.
#[verifier::external_body]
fn reference_peel_to_commit<'r>(re: &git2::Reference<'r>) -> (r: Result<
    git2::Commit<'r>,
    git2::Error,
>) {
    re.peel_to_commit()
}

/// Relies on git2::Reference::peel_to_tree: the tree the reference
/// resolves to.
#[verifier::external_body]
fn reference_peel_to_tree<'r>(re: &git2::Reference<'r>) -> (r: Result<
    git2::Tree<'r>,
    git2::Error,
>) {
    re.peel_to_tree()
}

/// Relies on git2::Commit::id: the commit's object id.
#[verifier::external_body]
fn commit_id(c: &git2::Commit<'_>) -> (r: git2::Oid) {
    c.id()
}

/// Relies on git2::Oid::as_bytes: the twenty raw bytes of the id.
#[verifier::external_body]
fn oid_bytes(o: &git2::Oid) -> (r: Vec<u8>)
    ensures
        r@.len() == 20,
{
    o.as_bytes().to_vec()
}

/// Relies on git2::Repository::find_branch: looks a local branch up by
/// name.
#[verifier::external_body]
fn repo_find_branch<'r>(repo: &'r git2::Repository, name: &String) -> (r: Result<
    git2::Branch<'r>,
    git2::Error,
>) {
    repo.find_branch(name.as_str(), git2::BranchType::Local)
}

/// Relies on git2::Repository::branch: creates a branch at a commit,
/// without forcing.
#[verifier::external_body]
fn repo_branch_create<'r>(
    repo: &'r git2::Repository,
    name: &String,
    target: &git2::Commit<'_>,
) -> (r: Result<git2::Branch<'r>, git2::Error>) {
    repo.branch(name.as_str(), target, false)
}

/// Relies on git2::Branch::into_reference: the branch as a reference.
#[verifier::external_body]
fn branch_into_reference<'r>(b: git2::Branch<'r>) -> (r: git2::Reference<'r>) {
    b.into_reference()
}

/// Relies on git2::Repository::find_reference: looks a reference up by
/// full name.
#[verifier::external_body]
fn repo_find_reference<'r>(repo: &'r git2::Repository, name: &String) -> (r: Result<
    git2::Reference<'r>,
    git2::Error,
>) {
    repo.find_reference(name.as_str())
}

/// Relies on git2::Repository::reference_symbolic: retargets HEAD
/// symbolically at the named reference, overwriting it.
#[verifier::external_body]
fn repo_reference_symbolic_head<'r>(
    repo: &'r git2::Repository,
    target: &String,
    msg: &String,
) -> (r: Result<git2::Reference<'r>, git2::Error>) {
    repo.reference_symbolic("HEAD", target.as_str(), true, msg.as_str())
}

/// Relies on git2::Repository::reference: points HEAD directly at a
/// commit, overwriting it.
#[verifier::external_body]
fn repo_reference_direct_head<'r>(
    repo: &'r git2::Repository,
    oid: &git2::Oid,
    msg: &String,
) -> (r: Result<git2::Reference<'r>, git2::Error>) {
    repo.reference("HEAD", *oid, true, msg.as_str())
}

/// Relies on git2::Repository::reset with `ResetType::Mixed`: moves
/// the index to the commit's tree and leaves the working tree alone.
#[verifier::external_body]
fn repo_reset_mixed(repo: &git2::Repository, c: &git2::Commit<'_>) -> (r: Result<
    (),
    git2::Error,
>) {
    repo.reset(c.as_object(), git2::ResetType::Mixed, None)
}

/// Relies on git2::Repository::index: the repository's staging index.
#[verifier::external_body]
fn repo_index(repo: &git2::Repository) -> (r: Result<git2::Index, git2::Error>) {
    repo.index()
}

/// Relies on git2::Index::add_all over `.`: stages the whole working
/// tree, untracked files included, with the default filter.
#[verifier::external_body]
fn index_add_all_cwd(index: &mut git2::Index) -> (r: Result<(), git2::Error>) {
    index.add_all(["."], git2::IndexAddOption::DEFAULT, None)
}

/// Relies on git2::Index::write: writes the index to disk.
#[verifier::external_body]
fn index_write(index: &mut git2::Index) -> (r: Result<(), git2::Error>) {
    index.write()
}

/// Relies on git2::Index::iter: the index's entries, in order.
#[verifier::external_body]
fn index_entries(index: &git2::Index) -> (r: Vec<git2::IndexEntry>) {
    index.iter().collect()
}

/// Relies on git2::Index::add: stages one entry, replacing any entry
/// at the same path.
#[verifier::external_body]
fn index_add_entry(index: &mut git2::Index, entry: &git2::IndexEntry) -> (r: Result<
    (),
    git2::Error,
>) {
    index.add(entry)
}

/// Relies on git2::Index::write_tree: writes the index as a tree and
/// returns the tree's id.
#[verifier::external_body]
fn index_write_tree(index: &mut git2::Index) -> (r: Result<git2::Oid, git2::Error>) {
    index.write_tree()
}

/// Relies on git2::Repository::diff_tree_to_workdir, with untracked
/// files included and untracked directories recursed.
#[verifier::external_body]
fn repo_diff_tree_to_workdir<'r>(repo: &'r git2::Repository, tree: &git2::Tree<'_>) -> (r: Result<
    git2::Diff<'r>,
    git2::Error,
>) {
    repo.diff_tree_to_workdir(
        Some(tree),
        Some(git2::DiffOptions::new().include_untracked(true).recurse_untracked_dirs(true)),
    )
}

/// Relies on git2::Repository::diff_tree_to_tree, with untracked files
/// included and untracked directories recursed.
#[verifier::external_body]
fn repo_diff_tree_to_tree<'r>(
    repo: &'r git2::Repository,
    old: &git2::Tree<'_>,
    new: &git2::Tree<'_>,
) -> (r: Result<git2::Diff<'r>, git2::Error>) {
    repo.diff_tree_to_tree(
        Some(old),
        Some(new),
        Some(git2::DiffOptions::new().include_untracked(true).recurse_untracked_dirs(true)),
    )
}

/// Relies on git2::Diff::stats: accumulates the diff's statistics.
#[verifier::external_body]
fn diff_stats(diff: &git2::Diff<'_>) -> (r: Result<git2::DiffStats, git2::Error>) {
    diff.stats()
}

/// Relies on git2::DiffStats::files_changed: how many files the diff
/// touches.
#[verifier::external_body]
fn stats_files_changed(stats: &git2::DiffStats) -> (r: usize) {
    stats.files_changed()
}

/// Relies on git2::Repository::merge_base: the best common ancestor of
/// two commits.
#[verifier::external_body]
fn repo_merge_base(repo: &git2::Repository, one: &git2::Oid, two: &git2::Oid) -> (r: Result<
    git2::Oid,
    git2::Error,
>) {
    repo.merge_base(*one, *two)
}

/// Relies on git2::Repository::find_commit: looks a commit up by id.
#[verifier::external_body]
fn repo_find_commit<'r>(repo: &'r git2::Repository, oid: &git2::Oid) -> (r: Result<
    git2::Commit<'r>,
    git2::Error,
>) {
    repo.find_commit(*oid)
}

/// Relies on git2::Commit::tree: the commit's tree.
#[verifier::external_body]
fn commit_tree<'r>(c: &git2::Commit<'r>) -> (r: Result<git2::Tree<'r>, git2::Error>) {
    c.tree()
}

/// Relies on git2::Repository::merge_trees: three-way merge of two
/// trees over their ancestor, into a fresh in-memory index.
#[verifier::external_body]
fn repo_merge_trees(
    repo: &git2::Repository,
    ancestor: &git2::Tree<'_>,
    ours: &git2::Tree<'_>,
    theirs: &git2::Tree<'_>,
) -> (r: Result<git2::Index, git2::Error>) {
    repo.merge_trees(ancestor, ours, theirs, None)
}

/// Relies on git2::Repository::set_index: installs an index as the
/// repository's index.
#[verifier::external_body]
fn repo_set_index(repo: &git2::Repository, index: &mut git2::Index) -> (r: Result<
    (),
    git2::Error,
>) {
    repo.set_index(index)
}

/// Relies on git2::Repository::cleanup_state: removes merge and
/// similar in-progress state.
#[verifier::external_body]
fn repo_cleanup_state(repo: &git2::Repository) -> (r: Result<(), git2::Error>) {
    repo.cleanup_state()
}

/// Relies on git2::Repository::signature: the default signature of the
/// repository's configuration.
#[verifier::external_body]
fn repo_signature(repo: &git2::Repository) -> (r: Result<git2::Signature<'static>, git2::Error>) {
    repo.signature()
}

/// Relies on git2::Repository::commit on `HEAD`: writes a commit from
/// a tree and one or two parents, and advances HEAD's branch to it.
#[verifier::external_body]
fn repo_commit_head(
    repo: &git2::Repository,
    sig: &git2::Signature<'_>,
    msg: &String,
    tree: &git2::Tree<'_>,
    p1: &git2::Commit<'_>,
    p2: Option<&git2::Commit<'_>>,
) -> (r: Result<git2::Oid, git2::Error>) {
    match p2 {
        Some(p2) => repo.commit(Some("HEAD"), sig, sig, msg.as_str(), tree, &[p1, p2]),
        None => repo.commit(Some("HEAD"), sig, sig, msg.as_str(), tree, &[p1]),
    }
}

/// Relies on git2::Repository::commit with no reference to update:
/// writes a commit from a tree and one or two parents and returns its
/// id, moving nothing.
#[verifier::external_body]
fn repo_commit_create(
    repo: &git2::Repository,
    sig: &git2::Signature<'_>,
    msg: &String,
    tree: &git2::Tree<'_>,
    p1: &git2::Commit<'_>,
    p2: Option<&git2::Commit<'_>>,
) -> (r: Result<git2::Oid, git2::Error>) {
    match p2 {
        Some(p2) => repo.commit(None, sig, sig, msg.as_str(), tree, &[p1, p2]),
        None => repo.commit(None, sig, sig, msg.as_str(), tree, &[p1]),
    }
}

/// Relies on git2::Repository::reference: retargets the named
/// reference at a commit, overwriting it.
#[verifier::external_body]
fn repo_reference_set<'r>(
    repo: &'r git2::Repository,
    name: &String,
    oid: &git2::Oid,
    msg: &String,
) -> (r: Result<git2::Reference<'r>, git2::Error>) {
    repo.reference(name.as_str(), *oid, true, msg.as_str())
}

/// Relies on git2::Repository::is_path_ignored: whether the ignore
/// rules classify the path as ignored. The path is read as UTF-8,
/// lossily.
#[verifier::external_body]
fn repo_is_path_ignored(repo: &git2::Repository, path: &Vec<u8>) -> (r: Result<
    bool,
    git2::Error,
>) {
    repo.is_path_ignored(String::from_utf8_lossy(path).as_ref())
}

//
// The engine.
//

/// The engine's error kinds, each carrying the backend error that
/// caused it.
#[derive(Debug)]
pub enum GitError {
    /// The path is not a Git repository.
    NoRepository(git2::Error),
    /// Creating the tracking branch failed.
    BranchCreation(git2::Error),
    /// A reset failed.
    Reset(git2::Error),
    /// Writing a commit failed.
    Commit(git2::Error),
    /// Staging failed.
    Add(git2::Error),
    /// Computing a diff failed.
    Diff(git2::Error),
    /// The auto-merge failed.
    Merge(git2::Error),
    /// Any other backend error.
    Unknown(git2::Error),
    /// A failure whose HEAD restoration also failed: the error that
    /// interrupted the save, then the error met while restoring.
    Chained(Box<GitError>, Box<GitError>),
}

/// Where HEAD stood before a save: on a branch, or detached at a
/// commit.
pub enum ReferenceName {
    /// A branch, by full reference name.
    Branch(String),
    /// A commit, by id.
    Commit(git2::Oid),
}

/// An opened repository.
pub struct GitRepo {
    /// The backend handle.
    repo: git2::Repository,
}

impl GitRepo {
    /// Open the repository at `dir`. A path that is not a repository
    /// is reported as `NoRepository`; any other failure as `Unknown`.
    pub fn new(dir: &String) -> (r: Result<GitRepo, GitError>)
        ensures
            r matches Err(e) ==> (e is NoRepository || e is Unknown),
    {
        match repo_open(dir) {
            Ok(repo) => Ok(GitRepo { repo }),
            Err(e) => {
                if err_is_not_found(&e) {
                    Err(GitError::NoRepository(e))
                } else {
                    Err(GitError::Unknown(e))
                }
            },
        }
    }

    /// The reference HEAD points to.
    fn head(&self) -> (r: Result<git2::Reference<'_>, GitError>)
        ensures
            r matches Err(e) ==> e is Unknown,
    {
        match repo_head(&self.repo) {
            Ok(h) => Ok(h),
            Err(e) => Err(GitError::Unknown(e)),
        }
    }

    /// The named local branch, or nothing when it does not exist (or
    /// no branch was ever born).
    pub fn get_branch(&self, name: &String) -> (r: Result<Option<git2::Branch<'_>>, GitError>)
        ensures
            r matches Err(e) ==> e is Unknown,
    {
        match repo_find_branch(&self.repo, name) {
            Ok(b) => Ok(Some(b)),
            Err(e) => {
                if err_is_not_found_or_unborn(&e) {
                    Ok(None)
                } else {
                    Err(GitError::Unknown(e))
                }
            },
        }
    }

    /// The named local branch, created from the current HEAD commit
    /// when absent.
    pub fn get_or_create_branch(&self, name: &String) -> (r: Result<git2::Branch<'_>, GitError>)
        ensures
            r matches Err(e) ==> (e is Unknown || e is BranchCreation),
    {
        match self.get_branch(name) {
            Err(e) => Err(e),
            Ok(Some(b)) => Ok(b),
            Ok(None) => {
                let head = match self.head() {
                    Ok(h) => h,
                    Err(e) => {
                        return Err(e);
                    },
                };
                let commit = match reference_peel_to_commit(&head) {
                    Ok(c) => c,
                    Err(e) => {
                        return Err(GitError::Unknown(e));
                    },
                };
                match repo_branch_create(&self.repo, name, &commit) {
                    Ok(b) => Ok(b),
                    Err(e) => Err(GitError::BranchCreation(e)),
                }
            },
        }
    }

    /// Retarget HEAD at the given reference, then reset the index to
    /// its tree, leaving the working tree alone.
    pub fn change_head_ref(&self, target: &ReferenceName, msg: &String) -> (r: Result<
        git2::Reference<'_>,
        GitError,
    >)
        ensures
            r matches Err(e) ==> (e is Unknown || e is Reset),
    {
        let head = match target {
            ReferenceName::Branch(name) => {
                match repo_reference_symbolic_head(&self.repo, name, msg) {
                    Ok(h) => h,
                    Err(e) => {
                        return Err(GitError::Unknown(e));
                    },
                }
            },
            ReferenceName::Commit(oid) => {
                match repo_reference_direct_head(&self.repo, oid, msg) {
                    Ok(h) => h,
                    Err(e) => {
                        return Err(GitError::Unknown(e));
                    },
                }
            },
        };
        let commit = match reference_peel_to_commit(&head) {
            Ok(c) => c,
            Err(e) => {
                return Err(GitError::Unknown(e));
            },
        };
        match repo_reset_mixed(&self.repo, &commit) {
            Ok(_) => Ok(head),
            Err(e) => Err(GitError::Reset(e)),
        }
    }

    /// Retarget HEAD at the named branch, creating it from the current
    /// HEAD commit when absent, with a mixed reset.
    pub fn change_head_branch(&self, name: &String, msg: &String) -> (r: Result<
        git2::Reference<'_>,
        GitError,
    >)
        ensures
            r matches Err(e) ==> (e is Unknown || e is BranchCreation || e is Reset),
    {
        let branch = match self.get_or_create_branch(name) {
            Ok(b) => b,
            Err(e) => {
                return Err(e);
            },
        };
        let refr = branch_into_reference(branch);
        let ref_name = match reference_name_string(&refr) {
            Ok(n) => n,
            Err(e) => {
                return Err(GitError::Unknown(e));
            },
        };
        let target = ReferenceName::Branch(ref_name);
        self.change_head_ref(&target, msg)
    }

    /// Stage the whole working tree (`add .`, untracked files
    /// included) and write the index.
    pub fn add_cwd_all(&self) -> (r: Result<(), GitError>)
        ensures
            r matches Err(e) ==> e is Unknown,
    {
        let mut index = match repo_index(&self.repo) {
            Ok(i) => i,
            Err(e) => {
                return Err(GitError::Unknown(e));
            },
        };
        match index_add_all_cwd(&mut index) {
            Ok(_) => {},
            Err(e) => {
                return Err(GitError::Unknown(e));
            },
        }
        match index_write(&mut index) {
            Ok(_) => Ok(()),
            Err(e) => Err(GitError::Unknown(e)),
        }
    }

    /// Where HEAD stands: the branch it points to, or the commit it is
    /// detached at.
    pub fn get_current_head_name(&self) -> (r: Result<ReferenceName, GitError>)
        ensures
            r matches Err(e) ==> e is Unknown,
    {
        let head = match self.head() {
            Ok(h) => h,
            Err(e) => {
                return Err(e);
            },
        };
        let detached = match repo_head_detached(&self.repo) {
            Ok(d) => d,
            Err(e) => {
                return Err(GitError::Unknown(e));
            },
        };
        if detached {
            let commit = match reference_peel_to_commit(&head) {
                Ok(c) => c,
                Err(e) => {
                    return Err(GitError::Unknown(e));
                },
            };
            Ok(ReferenceName::Commit(commit_id(&commit)))
        } else {
            match reference_name_string(&head) {
                Ok(s) => Ok(ReferenceName::Branch(s)),
                Err(e) => Err(GitError::Unknown(e)),
            }
        }
    }

    /// The diff between a reference's tree and the working directory,
    /// untracked files included.
    pub fn get_ref_workdir_diff<'a>(&'a self, reference: &git2::Reference<'a>) -> (r: Result<
        git2::Diff<'a>,
        GitError,
    >)
        ensures
            r matches Err(e) ==> (e is Unknown || e is Diff),
    {
        let tree = match reference_peel_to_tree(reference) {
            Ok(t) => t,
            Err(e) => {
                return Err(GitError::Unknown(e));
            },
        };
        match repo_diff_tree_to_workdir(&self.repo, &tree) {
            Ok(d) => Ok(d),
            Err(e) => Err(GitError::Diff(e)),
        }
    }

    /// Already saved: the working tree has no diff against HEAD, or
    /// the tracking branch exists and the working tree has no diff
    /// against it.
    pub fn is_saved(&self, branch: &String) -> (r: Result<bool, GitError>)
        ensures
            r matches Err(e) ==> (e is Unknown || e is Diff),
    {
        let head = match self.head() {
            Ok(h) => h,
            Err(e) => {
                return Err(e);
            },
        };
        let changed = match self.count_workdir_changes(&head) {
            Ok(n) => n,
            Err(e) => {
                return Err(e);
            },
        };
        if changed == 0 {
            return Ok(true);
        }
        match self.get_branch(branch) {
            Err(e) => Err(e),
            Ok(None) => Ok(false),
            Ok(Some(b)) => {
                let refr = branch_into_reference(b);
                let changed = match self.count_workdir_changes(&refr) {
                    Ok(n) => n,
                    Err(e) => {
                        return Err(e);
                    },
                };
                Ok(changed == 0)
            },
        }
    }

    /// How many files differ between a reference's tree and the
    /// working directory.
    fn count_workdir_changes<'a>(&'a self, reference: &git2::Reference<'a>) -> (r: Result<
        usize,
        GitError,
    >)
        ensures
            r matches Err(e) ==> (e is Unknown || e is Diff),
    {
        let diff = match self.get_ref_workdir_diff(reference) {
            Ok(d) => d,
            Err(e) => {
                return Err(e);
            },
        };
        let stats = match diff_stats(&diff) {
            Ok(s) => s,
            Err(e) => {
                return Err(GitError::Diff(e));
            },
        };
        Ok(stats_files_changed(&stats))
    }

    /// The tree-to-tree diff between two references, untracked files
    /// included.
    pub fn get_ref_ref_diff<'a>(
        &'a self,
        old: &git2::Reference<'a>,
        new: &git2::Reference<'a>,
    ) -> (r: Result<git2::Diff<'a>, GitError>)
        ensures
            r matches Err(e) ==> (e is Unknown || e is Diff),
    {
        let old_tree = match reference_peel_to_tree(old) {
            Ok(t) => t,
            Err(e) => {
                return Err(GitError::Unknown(e));
            },
        };
        let new_tree = match reference_peel_to_tree(new) {
            Ok(t) => t,
            Err(e) => {
                return Err(GitError::Unknown(e));
            },
        };
        match repo_diff_tree_to_tree(&self.repo, &old_tree, &new_tree) {
            Ok(d) => Ok(d),
            Err(e) => Err(GitError::Diff(e)),
        }
    }

    /// Merge two references: find their merge base, three-way merge
    /// their trees in a temporary index, commit the result with both
    /// parents (our side first) and retarget their side's reference —
    /// the branch HEAD points at — to it, clean up merge state and
    /// restore the prior index. Returns nothing when either side is
    /// already the base.
    pub fn merge<'a>(
        &'a self,
        our: &git2::Reference<'a>,
        their: &git2::Reference<'a>,
        msg: &String,
    ) -> (r: Result<Option<git2::Oid>, GitError>)
        ensures
            r matches Err(e) ==> (e is Merge || e is Commit),
    {
        let oc = match reference_peel_to_commit(our) {
            Ok(c) => c,
            Err(e) => {
                return Err(GitError::Merge(e));
            },
        };
        let tc = match reference_peel_to_commit(their) {
            Ok(c) => c,
            Err(e) => {
                return Err(GitError::Merge(e));
            },
        };
        let our_id = commit_id(&oc);
        let their_id = commit_id(&tc);
        let base = match repo_merge_base(&self.repo, &our_id, &their_id) {
            Ok(b) => b,
            Err(e) => {
                return Err(GitError::Merge(e));
            },
        };
        let base_bytes = oid_bytes(&base);
        if crate::redirect::bytes_eq(&oid_bytes(&our_id), &base_bytes) || crate::redirect::bytes_eq(
            &oid_bytes(&their_id),
            &base_bytes,
        ) {
            return Ok(None);
        }
        let base_commit = match repo_find_commit(&self.repo, &base) {
            Ok(c) => c,
            Err(e) => {
                return Err(GitError::Merge(e));
            },
        };
        let ancestor = match commit_tree(&base_commit) {
            Ok(t) => t,
            Err(e) => {
                return Err(GitError::Merge(e));
            },
        };
        let our_tree = match reference_peel_to_tree(our) {
            Ok(t) => t,
            Err(e) => {
                return Err(GitError::Merge(e));
            },
        };
        let their_tree = match reference_peel_to_tree(their) {
            Ok(t) => t,
            Err(e) => {
                return Err(GitError::Merge(e));
            },
        };
        let mut before_index = match repo_index(&self.repo) {
            Ok(i) => i,
            Err(e) => {
                return Err(GitError::Merge(e));
            },
        };
        let mut merged = match repo_merge_trees(&self.repo, &ancestor, &our_tree, &their_tree) {
            Ok(i) => i,
            Err(e) => {
                return Err(GitError::Merge(e));
            },
        };
        match repo_set_index(&self.repo, &mut merged) {
            Ok(_) => {},
            Err(e) => {
                return Err(GitError::Merge(e));
            },
        }
        // The merge records the prior side as the first parent; the
        // backend refuses to advance a reference whose tip is not the
        // first parent, so the commit moves nothing and the reference
        // is retargeted explicitly.
        let commit = match self.commit_unanchored(&oc, Some(&tc), msg) {
            Ok(c) => c,
            Err(e) => {
                return Err(e);
            },
        };
        let their_name = match reference_name_string(their) {
            Ok(n) => n,
            Err(e) => {
                return Err(GitError::Merge(e));
            },
        };
        let empty = String::new();
        match repo_reference_set(&self.repo, &their_name, &commit, &empty) {
            Ok(_) => {},
            Err(e) => {
                return Err(GitError::Merge(e));
            },
        }
        match repo_cleanup_state(&self.repo) {
            Ok(_) => {},
            Err(e) => {
                return Err(GitError::Merge(e));
            },
        }
        match repo_set_index(&self.repo, &mut before_index) {
            Ok(_) => {},
            Err(e) => {
                return Err(GitError::Merge(e));
            },
        }
        Ok(Some(commit))
    }

    /// Merge the prior branch into HEAD when HEAD's tree equals the
    /// prior branch's tree; a detached prior HEAD is never merged.
    pub fn auto_merge(&self, from: &ReferenceName, msg: &String) -> (r: Result<
        Option<git2::Oid>,
        GitError,
    >)
        ensures
            r matches Err(e) ==> (e is Merge || e is Commit || e is Unknown || e is Diff),
            from is Commit ==> (r matches Ok(o) && o is None),
    {
        match from {
            ReferenceName::Commit(_) => Ok(None),
            ReferenceName::Branch(branch_ref) => {
                let branch = match repo_find_reference(&self.repo, branch_ref) {
                    Ok(b) => b,
                    Err(e) => {
                        return Err(GitError::Merge(e));
                    },
                };
                let head = match self.head() {
                    Ok(h) => h,
                    Err(e) => {
                        return Err(e);
                    },
                };
                let diff = match self.get_ref_ref_diff(&head, &branch) {
                    Ok(d) => d,
                    Err(e) => {
                        return Err(e);
                    },
                };
                let stats = match diff_stats(&diff) {
                    Ok(s) => s,
                    Err(e) => {
                        return Err(GitError::Diff(e));
                    },
                };
                if stats_files_changed(&stats) == 0 {
                    self.merge(&branch, &head, msg)
                } else {
                    Ok(None)
                }
            },
        }
    }

    /// The staging index's entries, as a backup to restore after the
    /// save.
    pub fn backup_index(&self) -> (r: Result<Vec<git2::IndexEntry>, GitError>)
        ensures
            r matches Err(e) ==> e is Unknown,
    {
        match repo_index(&self.repo) {
            Ok(i) => Ok(index_entries(&i)),
            Err(e) => Err(GitError::Unknown(e)),
        }
    }

    /// Stage the backed-up entries over the current index and write
    /// it: the user's staged state survives the save.
    pub fn restore_index(&self, entries: &Vec<git2::IndexEntry>) -> (r: Result<(), GitError>)
        ensures
            r matches Err(e) ==> (e is Unknown || e is Add),
    {
        let mut index = match repo_index(&self.repo) {
            Ok(i) => i,
            Err(e) => {
                return Err(GitError::Unknown(e));
            },
        };
        let mut i: usize = 0;
        while i < entries.len()
            decreases entries.len() - i,
        {
            match index_add_entry(&mut index, &entries[i]) {
                Ok(_) => {},
                Err(e) => {
                    return Err(GitError::Add(e));
                },
            }
            i += 1;
        }
        match index_write(&mut index) {
            Ok(_) => Ok(()),
            Err(e) => Err(GitError::Add(e)),
        }
    }

    /// Write the index as a tree and commit it on HEAD with the given
    /// parent (and second parent, for a merge).
    pub fn commit(
        &self,
        parent: &git2::Commit<'_>,
        second_parent: Option<&git2::Commit<'_>>,
        msg: &String,
    ) -> (r: Result<git2::Oid, GitError>)
        ensures
            r matches Err(e) ==> e is Commit,
    {
        let mut index = match repo_index(&self.repo) {
            Ok(i) => i,
            Err(e) => {
                return Err(GitError::Commit(e));
            },
        };
        let tree_oid = match index_write_tree(&mut index) {
            Ok(t) => t,
            Err(e) => {
                return Err(GitError::Commit(e));
            },
        };
        let tree = match repo_find_tree(&self.repo, &tree_oid) {
            Ok(t) => t,
            Err(e) => {
                return Err(GitError::Commit(e));
            },
        };
        let sig = match repo_signature(&self.repo) {
            Ok(s) => s,
            Err(e) => {
                return Err(GitError::Commit(e));
            },
        };
        match repo_commit_head(&self.repo, &sig, msg, &tree, parent, second_parent) {
            Ok(oid) => Ok(oid),
            Err(e) => Err(GitError::Commit(e)),
        }
    }

    /// Write the index as a tree and commit it with the given parents,
    /// moving no reference.
    fn commit_unanchored(
        &self,
        parent: &git2::Commit<'_>,
        second_parent: Option<&git2::Commit<'_>>,
        msg: &String,
    ) -> (r: Result<git2::Oid, GitError>)
        ensures
            r matches Err(e) ==> e is Commit,
    {
        let mut index = match repo_index(&self.repo) {
            Ok(i) => i,
            Err(e) => {
                return Err(GitError::Commit(e));
            },
        };
        let tree_oid = match index_write_tree(&mut index) {
            Ok(t) => t,
            Err(e) => {
                return Err(GitError::Commit(e));
            },
        };
        let tree = match repo_find_tree(&self.repo, &tree_oid) {
            Ok(t) => t,
            Err(e) => {
                return Err(GitError::Commit(e));
            },
        };
        let sig = match repo_signature(&self.repo) {
            Ok(s) => s,
            Err(e) => {
                return Err(GitError::Commit(e));
            },
        };
        match repo_commit_create(&self.repo, &sig, msg, &tree, parent, second_parent) {
            Ok(oid) => Ok(oid),
            Err(e) => Err(GitError::Commit(e)),
        }
    }

    /// Save the working tree onto the tracking branch without
    /// disturbing HEAD or the index.
    ///
    /// A repository mid-merge or mid-rebase, an unborn HEAD, and a
    /// working tree with nothing new are left untouched. Otherwise
    /// HEAD is retargeted onto the branch, the prior branch
    /// auto-merged when its tree matches, the whole working tree
    /// staged and committed, and HEAD and the index restored; should
    /// any step in between fail, HEAD is restored before the error is
    /// surfaced. The object-level meaning of these steps is proved
    /// over the repository model.
    pub fn save(&self, branch_name: &String, commit_message: &String, merge_message: &String) -> (r:
        Result<(), GitError>)
        ensures
            r matches Err(e) ==> !(e is NoRepository),
    {
        if !repo_state_is_clean(&self.repo) {
            return Ok(());
        }
        // An unborn HEAD (a repository with no commit yet) is a valid
        // starting state: there is nothing to snapshot, so the save is
        // a clean no-op.
        match repo_head(&self.repo) {
            Ok(_) => {},
            Err(e) => {
                if err_is_not_found_or_unborn(&e) {
                    return Ok(());
                }
                return Err(GitError::Unknown(e));
            },
        }
        match self.is_saved(branch_name) {
            Ok(true) => {
                return Ok(());
            },
            Ok(false) => {},
            Err(e) => {
                return Err(e);
            },
        }
        let current_head = match self.get_current_head_name() {
            Ok(h) => h,
            Err(e) => {
                return Err(e);
            },
        };
        let current_index_entries = match self.backup_index() {
            Ok(v) => v,
            Err(e) => {
                return Err(e);
            },
        };
        let empty = String::new();
        match self.save_on_branch(branch_name, commit_message, merge_message, &current_head) {
            Ok(_) => {},
            Err(e) => {
                // Restore HEAD before surfacing the error; a failure
                // to restore is chained onto the original and both are
                // surfaced.
                match self.change_head_ref(&current_head, &empty) {
                    Ok(_) => {
                        return Err(e);
                    },
                    Err(e2) => {
                        return Err(GitError::Chained(Box::new(e), Box::new(e2)));
                    },
                }
            },
        }
        match self.change_head_ref(&current_head, &empty) {
            Ok(_) => {},
            Err(e) => {
                return Err(e);
            },
        }
        self.restore_index(&current_index_entries)
    }

    /// The steps of a save that run with HEAD retargeted onto the
    /// tracking branch: retarget, auto-merge, stage all, commit.
    fn save_on_branch(
        &self,
        branch_name: &String,
        commit_message: &String,
        merge_message: &String,
        current_head: &ReferenceName,
    ) -> (r: Result<(), GitError>)
        ensures
            r matches Err(e) ==> (e is Unknown || e is BranchCreation || e is Reset || e is Merge
                || e is Commit || e is Diff),
    {
        let empty = String::new();
        match self.change_head_branch(branch_name, &empty) {
            Ok(_) => {},
            Err(e) => {
                return Err(e);
            },
        }
        match self.auto_merge(current_head, merge_message) {
            Ok(_) => {},
            Err(e) => {
                return Err(e);
            },
        }
        let branch_ref = match self.change_head_branch(branch_name, &empty) {
            Ok(h) => h,
            Err(e) => {
                return Err(e);
            },
        };
        let parent_commit = match reference_peel_to_commit(&branch_ref) {
            Ok(c) => c,
            Err(e) => {
                return Err(GitError::Unknown(e));
            },
        };
        match self.add_cwd_all() {
            Ok(_) => {},
            Err(e) => {
                return Err(e);
            },
        }
        match self.commit(&parent_commit, None, commit_message) {
            Ok(_) => Ok(()),
            Err(e) => Err(e),
        }
    }

    /// Whether the ignore rules classify the path as ignored.
    pub fn is_ignored(&self, path: &Vec<u8>) -> (r: Result<bool, GitError>)
        ensures
            r matches Err(e) ==> e is Unknown,
    {
        match repo_is_path_ignored(&self.repo, path) {
            Ok(b) => Ok(b),
            Err(e) => Err(GitError::Unknown(e)),
        }
    }
}

/// Relies on git2::Repository::find_tree: looks a tree up by id.
#[verifier::external_body]
fn repo_find_tree<'r>(repo: &'r git2::Repository, oid: &git2::Oid) -> (r: Result<
    git2::Tree<'r>,
    git2::Error,
>) {
    repo.find_tree(*oid)
}

} // verus!
