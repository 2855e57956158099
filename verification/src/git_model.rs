//! The save algorithm over a Git object model.
//!
//! A repository is modelled by the plain values the save routine reads
//! and writes: whether a merge or rebase is in progress, where HEAD
//! points, the branch tips, the commit store, the tree the working
//! directory would produce, and the staging index. Trees and the index
//! are entry lists; commit ids are indices into the commit store. The
//! backend's ancestor computation is abstracted: the auto-merge is
//! skipped when the two tips coincide, where a real backend also skips
//! when one tip is an ancestor of the other — a difference that only
//! omits merge commits and never changes the saved tree.

use vstd::prelude::*;
use crate::paths::clone_bytes;
use crate::redirect::bytes_eq;

verus! {

/// One staged entry: a path with its mode and blob id.
#[verifier::ext_equal]
pub struct EntryV {
    /// The entry's path.
    pub path: Seq<u8>,
    /// The entry's file mode.
    pub mode: u32,
    /// The entry's blob id.
    pub oid: u64,
}

/// Where HEAD points.
pub enum HeadV {
    /// No commit yet: a freshly initialised repository.
    Unborn,
    /// Directly at a commit.
    Detached(int),
    /// Symbolically at a branch.
    OnBranch(Seq<u8>),
}

/// One commit: its tree, parents and message.
#[verifier::ext_equal]
pub struct CommitV {
    /// The committed tree.
    pub tree: Seq<EntryV>,
    /// Parent commit ids.
    pub parents: Seq<int>,
    /// The commit message.
    pub message: Seq<u8>,
}

/// The repository as the save routine sees it.
#[verifier::ext_equal]
pub struct RepoV {
    /// No merge, rebase or cherry-pick is in progress.
    pub activity_clean: bool,
    /// Where HEAD points.
    pub head: HeadV,
    /// Branch name to tip commit id; names are distinct.
    pub branches: Seq<(Seq<u8>, int)>,
    /// The commit store; a commit's id is its index here.
    pub commits: Seq<CommitV>,
    /// The tree the working directory would produce if staged whole.
    pub workdir: Seq<EntryV>,
    /// The staging index.
    pub index: Seq<EntryV>,
}

/// The tip of the named branch, if the branch exists.
pub open spec fn branch_target(bs: Seq<(Seq<u8>, int)>, name: Seq<u8>) -> Option<int>
    decreases bs.len(),
{
    if bs.len() == 0 {
        None
    } else if bs[0].0 == name {
        Some(bs[0].1)
    } else {
        branch_target(bs.drop_first(), name)
    }
}

/// The branch list with the named branch retargeted, or appended when
/// it did not exist.
pub open spec fn set_branch(bs: Seq<(Seq<u8>, int)>, name: Seq<u8>, t: int) -> Seq<(Seq<u8>, int)>
    decreases bs.len(),
{
    if bs.len() == 0 {
        seq![(name, t)]
    } else if bs[0].0 == name {
        seq![(name, t)] + bs.drop_first()
    } else {
        seq![bs[0]] + set_branch(bs.drop_first(), name, t)
    }
}

/// Retargeting hits the named branch.
pub proof fn lemma_set_branch_same(bs: Seq<(Seq<u8>, int)>, name: Seq<u8>, t: int)
    ensures
        branch_target(set_branch(bs, name, t), name) == Some(t),
    decreases bs.len(),
{
    if bs.len() != 0 && bs[0].0 != name {
        lemma_set_branch_same(bs.drop_first(), name, t);
        assert(set_branch(bs, name, t).drop_first() =~= set_branch(bs.drop_first(), name, t));
    }
}

/// Retargeting one branch leaves every other branch alone.
pub proof fn lemma_set_branch_other(bs: Seq<(Seq<u8>, int)>, name: Seq<u8>, t: int, other: Seq<u8>)
    requires
        other != name,
    ensures
        branch_target(set_branch(bs, name, t), other) == branch_target(bs, other),
    decreases bs.len(),
{
    if bs.len() == 0 {
        assert(set_branch(bs, name, t).drop_first() =~= Seq::<(Seq<u8>, int)>::empty());
        assert(branch_target(Seq::<(Seq<u8>, int)>::empty(), other) is None);
    } else if bs[0].0 == name {
        assert(set_branch(bs, name, t).drop_first() =~= bs.drop_first());
    } else {
        lemma_set_branch_other(bs.drop_first(), name, t, other);
        assert(set_branch(bs, name, t).drop_first() =~= set_branch(bs.drop_first(), name, t));
    }
}

/// The commit HEAD resolves to, if any.
pub open spec fn head_tip(m: RepoV) -> Option<int> {
    match m.head {
        HeadV::Unborn => None,
        HeadV::Detached(c) => Some(c),
        HeadV::OnBranch(n) => branch_target(m.branches, n),
    }
}

/// The tree of the commit with the given id.
pub open spec fn tree_at(commits: Seq<CommitV>, cid: int) -> Seq<EntryV> {
    commits[cid].tree
}

/// Already saved: the working tree matches HEAD's tree, or the
/// tracking branch exists and the working tree matches its tip's tree.
pub open spec fn is_saved(m: RepoV, branch: Seq<u8>) -> bool {
    ||| (head_tip(m) matches Some(t) && m.workdir == tree_at(m.commits, t))
    ||| (branch_target(m.branches, branch) matches Some(bt) && m.workdir == tree_at(m.commits, bt))
}

/// The entry list with `e` staged: an entry at the same path is
/// replaced, otherwise `e` is appended.
pub open spec fn upsert(es: Seq<EntryV>, e: EntryV) -> Seq<EntryV>
    decreases es.len(),
{
    if es.len() == 0 {
        seq![e]
    } else if es[0].path == e.path {
        seq![e] + es.drop_first()
    } else {
        seq![es[0]] + upsert(es.drop_first(), e)
    }
}

/// The first `j` entries of `adds` staged onto `base`, in order.
pub open spec fn overlay(base: Seq<EntryV>, adds: Seq<EntryV>, j: int) -> Seq<EntryV>
    decreases j,
{
    if j <= 0 {
        base
    } else {
        upsert(overlay(base, adds, j - 1), adds[j - 1])
    }
}

/// Save only acts on a clean repository with a born HEAD and unsaved
/// work.
pub open spec fn save_acts(m: RepoV, branch: Seq<u8>) -> bool {
    m.activity_clean && !(m.head is Unborn) && !is_saved(m, branch)
}

/// The commit HEAD resolves to while save runs.
pub open spec fn save_hc(m: RepoV) -> int {
    match head_tip(m) {
        Some(c) => c,
        None => 0,
    }
}

/// The branch list after the tracking branch was found or created
/// from the current commit.
pub open spec fn save_bs1(m: RepoV, branch: Seq<u8>) -> Seq<(Seq<u8>, int)> {
    match branch_target(m.branches, branch) {
        Some(t) => m.branches,
        None => set_branch(m.branches, branch, save_hc(m)),
    }
}

/// The tracking branch's tip after it was found or created.
pub open spec fn save_bt(m: RepoV, branch: Seq<u8>) -> int {
    match branch_target(m.branches, branch) {
        Some(t) => t,
        None => save_hc(m),
    }
}

/// The prior branch's tip, when HEAD was on a branch.
pub open spec fn save_prior_tip(m: RepoV, branch: Seq<u8>) -> int {
    match m.head {
        HeadV::OnBranch(prior) => match branch_target(save_bs1(m, branch), prior) {
            Some(pt) => pt,
            None => 0,
        },
        _ => 0,
    }
}

/// Whether the prior branch is auto-merged: HEAD was on a branch whose
/// tree matches the tracking branch's tree, at a different tip.
pub open spec fn save_do_merge(m: RepoV, branch: Seq<u8>) -> bool {
    m.head matches HeadV::OnBranch(prior) && branch_target(save_bs1(m, branch), prior) matches Some(
        pt,
    ) && pt != save_bt(m, branch) && tree_at(m.commits, pt) == tree_at(
        m.commits,
        save_bt(m, branch),
    )
}

/// The commit store after the auto-merge, if one happened: the merge
/// commit carries the shared tree and both parents, prior first.
pub open spec fn save_commits2(m: RepoV, branch: Seq<u8>, mmsg: Seq<u8>) -> Seq<CommitV> {
    if save_do_merge(m, branch) {
        m.commits.push(
            CommitV {
                tree: tree_at(m.commits, save_bt(m, branch)),
                parents: seq![save_prior_tip(m, branch), save_bt(m, branch)],
                message: mmsg,
            },
        )
    } else {
        m.commits
    }
}

/// The tracking branch's tip after the auto-merge.
pub open spec fn save_bt2(m: RepoV, branch: Seq<u8>) -> int {
    if save_do_merge(m, branch) {
        m.commits.len() as int
    } else {
        save_bt(m, branch)
    }
}

/// The branch list after the auto-merge.
pub open spec fn save_bs2(m: RepoV, branch: Seq<u8>) -> Seq<(Seq<u8>, int)> {
    if save_do_merge(m, branch) {
        set_branch(save_bs1(m, branch), branch, m.commits.len() as int)
    } else {
        save_bs1(m, branch)
    }
}

/// The id of the snapshot commit.
pub open spec fn save_cid3(m: RepoV, branch: Seq<u8>) -> int {
    save_commits2(m, branch, Seq::empty()).len() as int
}

/// The commit store after the snapshot commit: the whole working tree,
/// with the tracking branch's tip as sole parent.
pub open spec fn save_commits3(m: RepoV, branch: Seq<u8>, cmsg: Seq<u8>, mmsg: Seq<u8>) -> Seq<
    CommitV,
> {
    save_commits2(m, branch, mmsg).push(
        CommitV { tree: m.workdir, parents: seq![save_bt2(m, branch)], message: cmsg },
    )
}

/// The branch list after the snapshot commit.
pub open spec fn save_bs3(m: RepoV, branch: Seq<u8>) -> Seq<(Seq<u8>, int)> {
    set_branch(save_bs2(m, branch), branch, save_cid3(m, branch))
}

/// The index after HEAD is restored with a mixed reset: the tree of
/// the restored HEAD's commit.
pub open spec fn save_index_base(m: RepoV, branch: Seq<u8>, cmsg: Seq<u8>, mmsg: Seq<u8>) -> Seq<
    EntryV,
> {
    match m.head {
        HeadV::Detached(c) => tree_at(save_commits3(m, branch, cmsg, mmsg), c),
        HeadV::OnBranch(p) => match branch_target(save_bs3(m, branch), p) {
            Some(t) => tree_at(save_commits3(m, branch, cmsg, mmsg), t),
            None => Seq::empty(),
        },
        HeadV::Unborn => Seq::empty(),
    }
}

/// What save does to the repository.
///
/// A repository mid-merge or mid-rebase, an unborn HEAD, and a working
/// tree already saved are left untouched. Otherwise HEAD is retargeted
/// onto the tracking branch (created from the current commit if
/// absent), the prior branch is auto-merged when its tree matches, the
/// whole working tree is committed onto the tracking branch, HEAD and
/// the index are restored, and the backed-up index entries are staged
/// back on top.
pub open spec fn spec_save(m: RepoV, branch: Seq<u8>, cmsg: Seq<u8>, mmsg: Seq<u8>) -> RepoV {
    if !save_acts(m, branch) {
        m
    } else {
        RepoV {
            activity_clean: m.activity_clean,
            head: m.head,
            branches: save_bs3(m, branch),
            commits: save_commits3(m, branch, cmsg, mmsg),
            workdir: m.workdir,
            index: overlay(
                save_index_base(m, branch, cmsg, mmsg),
                m.index,
                m.index.len() as int,
            ),
        }
    }
}

/// Mid-merge or mid-rebase, save changes nothing: no ref moves, no
/// commit is made.
pub proof fn lemma_save_dirty_state_noop(m: RepoV, branch: Seq<u8>, cmsg: Seq<u8>, mmsg: Seq<u8>)
    requires
        !m.activity_clean,
    ensures
        spec_save(m, branch, cmsg, mmsg) == m,
{
}

/// An unborn HEAD is a valid starting state: save no-ops cleanly.
pub proof fn lemma_save_unborn_noop(m: RepoV, branch: Seq<u8>, cmsg: Seq<u8>, mmsg: Seq<u8>)
    requires
        m.head is Unborn,
    ensures
        spec_save(m, branch, cmsg, mmsg) == m,
{
}

/// An already-saved tree is left alone.
pub proof fn lemma_save_saved_noop(m: RepoV, branch: Seq<u8>, cmsg: Seq<u8>, mmsg: Seq<u8>)
    requires
        is_saved(m, branch),
    ensures
        spec_save(m, branch, cmsg, mmsg) == m,
{
}

/// The tree at the tracking branch's tip, when the branch exists.
pub open spec fn tracking_tip_tree(m: RepoV, branch: Seq<u8>) -> Option<Seq<EntryV>> {
    match branch_target(m.branches, branch) {
        Some(t) => Some(tree_at(m.commits, t)),
        None => None,
    }
}

/// Advancement: when the working tree differs from both HEAD and the
/// tracking branch, save moves the tracking branch to a fresh commit
/// whose tree is exactly the working tree.
pub proof fn lemma_save_advancement(m: RepoV, branch: Seq<u8>, cmsg: Seq<u8>, mmsg: Seq<u8>)
    requires
        save_acts(m, branch),
        branch_target(m.branches, branch) matches Some(t) ==> 0 <= t < m.commits.len(),
    ensures
        ({
            let r = spec_save(m, branch, cmsg, mmsg);
            &&& branch_target(r.branches, branch) == Some(save_cid3(m, branch))
            &&& tracking_tip_tree(r, branch) == Some(m.workdir)
            &&& (match (branch_target(m.branches, branch), branch_target(r.branches, branch)) {
                (Some(t0), Some(t1)) => t0 != t1,
                _ => true,
            })
        }),
{
    let r = spec_save(m, branch, cmsg, mmsg);
    lemma_set_branch_same(save_bs2(m, branch), branch, save_cid3(m, branch));
    assert(tree_at(r.commits, save_cid3(m, branch)) == m.workdir);
}

/// Idempotence: a second save with no intervening change does nothing,
/// so no new commit appears.
pub proof fn lemma_save_idempotent(m: RepoV, branch: Seq<u8>, cmsg: Seq<u8>, mmsg: Seq<u8>)
    ensures
        spec_save(spec_save(m, branch, cmsg, mmsg), branch, cmsg, mmsg) == spec_save(
            m,
            branch,
            cmsg,
            mmsg,
        ),
{
    if save_acts(m, branch) {
        let r = spec_save(m, branch, cmsg, mmsg);
        lemma_set_branch_same(save_bs2(m, branch), branch, save_cid3(m, branch));
        assert(branch_target(r.branches, branch) == Some(save_cid3(m, branch)));
        assert(tree_at(r.commits, save_cid3(m, branch)) == m.workdir);
        assert(is_saved(r, branch));
    }
}

/// How many commits a save writes: none when it leaves the repository
/// alone, one snapshot commit otherwise, plus one merge commit when
/// the auto-merge ran.
pub proof fn lemma_save_commit_count(m: RepoV, branch: Seq<u8>, cmsg: Seq<u8>, mmsg: Seq<u8>)
    ensures
        !save_acts(m, branch) ==> spec_save(m, branch, cmsg, mmsg).commits.len() == m.commits.len(),
        save_acts(m, branch) && !save_do_merge(m, branch) ==> spec_save(
            m,
            branch,
            cmsg,
            mmsg,
        ).commits.len() == m.commits.len() + 1,
        save_acts(m, branch) && save_do_merge(m, branch) ==> spec_save(
            m,
            branch,
            cmsg,
            mmsg,
        ).commits.len() == m.commits.len() + 2,
{
}

/// A detached HEAD is a valid starting state: save never moves it, and
/// when there is work to do the tracking branch exists afterwards.
pub proof fn lemma_save_detached(m: RepoV, branch: Seq<u8>, cmsg: Seq<u8>, mmsg: Seq<u8>)
    requires
        m.head is Detached,
    ensures
        spec_save(m, branch, cmsg, mmsg).head == m.head,
        save_acts(m, branch) ==> branch_target(spec_save(m, branch, cmsg, mmsg).branches, branch)
            == Some(save_cid3(m, branch)),
{
    if save_acts(m, branch) {
        lemma_set_branch_same(save_bs2(m, branch), branch, save_cid3(m, branch));
    }
}

/// Staging an entry leaves it present.
pub proof fn lemma_upsert_contains(es: Seq<EntryV>, e: EntryV)
    ensures
        upsert(es, e).contains(e),
    decreases es.len(),
{
    if es.len() == 0 {
        assert(upsert(es, e)[0] == e);
    } else if es[0].path == e.path {
        assert(upsert(es, e)[0] == e);
    } else {
        lemma_upsert_contains(es.drop_first(), e);
        let i = choose|i: int|
            0 <= i < upsert(es.drop_first(), e).len() && upsert(es.drop_first(), e)[i] == e;
        assert(upsert(es, e)[i + 1] == e);
    }
}

/// Staging an entry keeps every entry whose path differs.
pub proof fn lemma_upsert_preserves(es: Seq<EntryV>, e: EntryV, x: EntryV)
    requires
        es.contains(x),
        x.path != e.path,
    ensures
        upsert(es, e).contains(x),
    decreases es.len(),
{
    let i = choose|i: int| 0 <= i < es.len() && es[i] == x;
    if es[0].path == e.path {
        assert(i != 0);
        assert(upsert(es, e)[i] == es.drop_first()[i - 1]);
        assert(upsert(es, e)[i] == x);
    } else {
        if i == 0 {
            assert(upsert(es, e)[0] == x);
        } else {
            assert(es.drop_first()[i - 1] == x);
            assert(es.drop_first().contains(x));
            lemma_upsert_preserves(es.drop_first(), e, x);
            let j = choose|j: int|
                0 <= j < upsert(es.drop_first(), e).len() && upsert(es.drop_first(), e)[j] == x;
            assert(upsert(es, e)[j + 1] == x);
        }
    }
}

/// Entry paths are pairwise distinct.
pub open spec fn paths_distinct(es: Seq<EntryV>) -> bool {
    forall|i: int, j: int| 0 <= i < j < es.len() ==> (#[trigger] es[i]).path != (#[trigger] es[j]).path
}

/// After staging distinct-path entries in order, each of them is
/// present in the result.
pub proof fn lemma_overlay_contains(base: Seq<EntryV>, adds: Seq<EntryV>, i: int, j: int)
    requires
        paths_distinct(adds),
        0 <= i < j <= adds.len(),
    ensures
        overlay(base, adds, j).contains(adds[i]),
    decreases j,
{
    if j == i + 1 {
        lemma_upsert_contains(overlay(base, adds, i), adds[i]);
    } else {
        lemma_overlay_contains(base, adds, i, j - 1);
        lemma_upsert_preserves(overlay(base, adds, j - 1), adds[j - 1], adds[i]);
    }
}

/// Every entry the staging leaves behind carries either the staged
/// entry's path or a path already present.
pub proof fn lemma_upsert_paths(es: Seq<EntryV>, e: EntryV, i: int)
    requires
        0 <= i < upsert(es, e).len(),
    ensures
        upsert(es, e)[i].path == e.path || exists|j: int|
            0 <= j < es.len() && (#[trigger] es[j]).path == upsert(es, e)[i].path,
    decreases es.len(),
{
    if es.len() == 0 {
    } else if es[0].path == e.path {
        if i > 0 {
            assert(upsert(es, e)[i] == es.drop_first()[i - 1]);
            assert(es[i].path == upsert(es, e)[i].path);
        }
    } else {
        if i == 0 {
            assert(es[0].path == upsert(es, e)[0].path);
        } else {
            assert(upsert(es, e)[i] == upsert(es.drop_first(), e)[i - 1]);
            lemma_upsert_paths(es.drop_first(), e, i - 1);
            if upsert(es.drop_first(), e)[i - 1].path != e.path {
                let j = choose|j: int|
                    0 <= j < es.drop_first().len() && (#[trigger] es.drop_first()[j]).path
                        == upsert(es.drop_first(), e)[i - 1].path;
                assert(es[j + 1].path == upsert(es, e)[i].path);
            }
        }
    }
}

/// Staging keeps entry paths distinct.
pub proof fn lemma_upsert_distinct(es: Seq<EntryV>, e: EntryV)
    requires
        paths_distinct(es),
    ensures
        paths_distinct(upsert(es, e)),
    decreases es.len(),
{
    let r = upsert(es, e);
    if es.len() == 0 {
    } else if es[0].path == e.path {
        assert forall|a: int, b: int| 0 <= a < b < r.len() implies (#[trigger] r[a]).path != (
        #[trigger] r[b]).path by {
            assert(r[b] == es.drop_first()[b - 1]);
            assert(r[b].path == es[b].path);
            if a == 0 {
                assert(r[0].path == es[0].path);
            } else {
                assert(r[a].path == es[a].path);
            }
        }
    } else {
        assert(paths_distinct(es.drop_first())) by {
            assert forall|a: int, b: int|
                0 <= a < b < es.drop_first().len() implies (#[trigger] es.drop_first()[a]).path != (
                #[trigger] es.drop_first()[b]).path by {
                assert(es.drop_first()[a] == es[a + 1]);
                assert(es.drop_first()[b] == es[b + 1]);
            }
        }
        lemma_upsert_distinct(es.drop_first(), e);
        assert forall|a: int, b: int| 0 <= a < b < r.len() implies (#[trigger] r[a]).path != (
        #[trigger] r[b]).path by {
            if a == 0 {
                assert(r[0] == es[0]);
                assert(r[b] == upsert(es.drop_first(), e)[b - 1]);
                lemma_upsert_paths(es.drop_first(), e, b - 1);
                if upsert(es.drop_first(), e)[b - 1].path != e.path {
                    let j = choose|j: int|
                        0 <= j < es.drop_first().len() && (#[trigger] es.drop_first()[j]).path
                            == upsert(es.drop_first(), e)[b - 1].path;
                    assert(es.drop_first()[j] == es[j + 1]);
                }
            } else {
                assert(r[a] == upsert(es.drop_first(), e)[a - 1]);
                assert(r[b] == upsert(es.drop_first(), e)[b - 1]);
            }
        }
    }
}

/// Overlaying entries onto a path-keyed list keeps it path-keyed.
pub proof fn lemma_overlay_distinct(base: Seq<EntryV>, adds: Seq<EntryV>, j: int)
    requires
        paths_distinct(base),
    ensures
        paths_distinct(overlay(base, adds, j)),
    decreases j,
{
    if j > 0 {
        lemma_overlay_distinct(base, adds, j - 1);
        lemma_upsert_distinct(overlay(base, adds, j - 1), adds[j - 1]);
    }
}

/// Save transparency: HEAD ends where it began, the working tree is
/// untouched, and every pre-call index entry (path, mode and blob id)
/// is still staged afterwards.
pub proof fn lemma_save_transparency(m: RepoV, branch: Seq<u8>, cmsg: Seq<u8>, mmsg: Seq<u8>)
    requires
        paths_distinct(m.index),
    ensures
        spec_save(m, branch, cmsg, mmsg).head == m.head,
        spec_save(m, branch, cmsg, mmsg).workdir == m.workdir,
        forall|i: int|
            0 <= i < m.index.len() ==> spec_save(m, branch, cmsg, mmsg).index.contains(
                #[trigger] m.index[i],
            ),
{
    let r = spec_save(m, branch, cmsg, mmsg);
    if !save_acts(m, branch) {
        assert forall|i: int| 0 <= i < m.index.len() implies r.index.contains(
            #[trigger] m.index[i],
        ) by {
            assert(r.index[i] == m.index[i]);
        }
    } else {
        assert forall|i: int| 0 <= i < m.index.len() implies r.index.contains(
            #[trigger] m.index[i],
        ) by {
            lemma_overlay_contains(
                save_index_base(m, branch, cmsg, mmsg),
                m.index,
                i,
                m.index.len() as int,
            );
        }
    }
}

//
// The executable model, whose save is proved to do exactly what
// `spec_save` says.
//

/// One staged entry.
pub struct TreeEntry {
    /// The entry's path.
    pub path: Vec<u8>,
    /// The entry's file mode.
    pub mode: u32,
    /// The entry's blob id.
    pub oid: u64,
}

impl View for TreeEntry {
    type V = EntryV;

    open spec fn view(&self) -> EntryV {
        EntryV { path: self.path@, mode: self.mode, oid: self.oid }
    }
}

/// Where HEAD points.
pub enum HeadRef {
    /// No commit yet.
    Unborn,
    /// Directly at a commit.
    Detached(usize),
    /// Symbolically at a branch.
    OnBranch(Vec<u8>),
}

impl View for HeadRef {
    type V = HeadV;

    open spec fn view(&self) -> HeadV {
        match self {
            HeadRef::Unborn => HeadV::Unborn,
            HeadRef::Detached(c) => HeadV::Detached(*c as int),
            HeadRef::OnBranch(n) => HeadV::OnBranch(n@),
        }
    }
}

/// One commit.
pub struct CommitRec {
    /// The committed tree.
    pub tree: Vec<TreeEntry>,
    /// Parent commit ids.
    pub parents: Vec<usize>,
    /// The commit message.
    pub message: Vec<u8>,
}

/// The views of an entry list.
pub open spec fn entries_view(s: Seq<TreeEntry>) -> Seq<EntryV> {
    Seq::new(s.len(), |i: int| s[i]@)
}

/// The views of a branch list.
pub open spec fn branches_view(s: Seq<(Vec<u8>, usize)>) -> Seq<(Seq<u8>, int)> {
    Seq::new(s.len(), |i: int| ((s[i].0)@, s[i].1 as int))
}

/// The views of a commit store.
pub open spec fn commits_view(s: Seq<CommitRec>) -> Seq<CommitV> {
    Seq::new(s.len(), |i: int| s[i]@)
}

impl View for CommitRec {
    type V = CommitV;

    open spec fn view(&self) -> CommitV {
        CommitV {
            tree: entries_view(self.tree@),
            parents: Seq::new(self.parents@.len(), |i: int| self.parents@[i] as int),
            message: self.message@,
        }
    }
}

/// The repository model.
pub struct RepoModel {
    /// No merge, rebase or cherry-pick is in progress.
    pub activity_clean: bool,
    /// Where HEAD points.
    pub head: HeadRef,
    /// Branch name to tip commit id.
    pub branches: Vec<(Vec<u8>, usize)>,
    /// The commit store.
    pub commits: Vec<CommitRec>,
    /// The tree the working directory would produce if staged whole.
    pub workdir: Vec<TreeEntry>,
    /// The staging index.
    pub index: Vec<TreeEntry>,
}

impl View for RepoModel {
    type V = RepoV;

    open spec fn view(&self) -> RepoV {
        RepoV {
            activity_clean: self.activity_clean,
            head: self.head@,
            branches: branches_view(self.branches@),
            commits: commits_view(self.commits@),
            workdir: entries_view(self.workdir@),
            index: entries_view(self.index@),
        }
    }
}

/// Structural soundness of the model: every branch tip and the
/// detached commit, if any, name commits in the store, a branch HEAD
/// names an existing branch, and every entry list — the index, the
/// working tree and each commit's tree — keys its entries by path.
pub open spec fn repo_wf(m: RepoV) -> bool {
    &&& forall|i: int|
        0 <= i < m.branches.len() ==> 0 <= (#[trigger] m.branches[i]).1 < m.commits.len()
    &&& (m.head matches HeadV::Detached(c) ==> 0 <= c < m.commits.len())
    &&& (m.head matches HeadV::OnBranch(n) ==> branch_target(m.branches, n) is Some)
    &&& paths_distinct(m.index)
    &&& paths_distinct(m.workdir)
    &&& forall|i: int| 0 <= i < m.commits.len() ==> paths_distinct((#[trigger] m.commits[i]).tree)
}

/// A found branch tip is one of the listed tips.
pub proof fn lemma_branch_target_bound(bs: Seq<(Seq<u8>, int)>, name: Seq<u8>, bound: int)
    requires
        forall|i: int| 0 <= i < bs.len() ==> 0 <= (#[trigger] bs[i]).1 < bound,
    ensures
        branch_target(bs, name) matches Some(t) ==> 0 <= t < bound,
    decreases bs.len(),
{
    if bs.len() > 0 && bs[0].0 != name {
        assert forall|i: int| 0 <= i < bs.drop_first().len() implies 0 <= (#[trigger] bs.drop_first()[i]).1
            < bound by {
            assert(bs.drop_first()[i] == bs[i + 1]);
        }
        lemma_branch_target_bound(bs.drop_first(), name, bound);
    }
}

/// Retargeting keeps every tip inside the bound, the new one included.
pub proof fn lemma_set_branch_bound(bs: Seq<(Seq<u8>, int)>, name: Seq<u8>, t: int, bound: int)
    requires
        forall|i: int| 0 <= i < bs.len() ==> 0 <= (#[trigger] bs[i]).1 < bound,
        0 <= t < bound,
    ensures
        forall|i: int|
            0 <= i < set_branch(bs, name, t).len() ==> 0 <= (#[trigger] set_branch(bs, name, t)[i]).1
                < bound,
    decreases bs.len(),
{
    if bs.len() == 0 {
    } else if bs[0].0 == name {
        assert forall|i: int| 0 <= i < set_branch(bs, name, t).len() implies 0 <= (#[trigger] set_branch(
            bs,
            name,
            t,
        )[i]).1 < bound by {
            if i > 0 {
                assert(set_branch(bs, name, t)[i] == bs[i]);
            }
        }
    } else {
        assert forall|i: int| 0 <= i < bs.drop_first().len() implies 0 <= (#[trigger] bs.drop_first()[i]).1
            < bound by {
            assert(bs.drop_first()[i] == bs[i + 1]);
        }
        lemma_set_branch_bound(bs.drop_first(), name, t, bound);
        assert forall|i: int| 0 <= i < set_branch(bs, name, t).len() implies 0 <= (#[trigger] set_branch(
            bs,
            name,
            t,
        )[i]).1 < bound by {
            if i > 0 {
                assert(set_branch(bs, name, t)[i] == set_branch(bs.drop_first(), name, t)[i - 1]);
            }
        }
    }
}

/// Searching from index `i` on, after the first `i` names missed.
pub proof fn lemma_branch_target_skip(bs: Seq<(Seq<u8>, int)>, name: Seq<u8>, i: int)
    requires
        0 <= i <= bs.len(),
        forall|j: int| 0 <= j < i ==> (#[trigger] bs[j]).0 != name,
    ensures
        branch_target(bs, name) == branch_target(bs.skip(i), name),
    decreases i,
{
    if i == 0 {
        assert(bs.skip(0) =~= bs);
    } else {
        assert forall|j: int| 0 <= j < i - 1 implies (#[trigger] bs.drop_first()[j]).0 != name by {
            assert(bs.drop_first()[j] == bs[j + 1]);
        }
        lemma_branch_target_skip(bs.drop_first(), name, i - 1);
        assert(bs.drop_first().skip(i - 1) =~= bs.skip(i));
    }
}

/// Retargeting an existing branch, first found at `i`, is updating the
/// pair there.
pub proof fn lemma_set_branch_update(bs: Seq<(Seq<u8>, int)>, name: Seq<u8>, t: int, i: int)
    requires
        0 <= i < bs.len(),
        bs[i].0 == name,
        forall|j: int| 0 <= j < i ==> (#[trigger] bs[j]).0 != name,
    ensures
        set_branch(bs, name, t) == bs.update(i, (name, t)),
    decreases i,
{
    if i == 0 {
        assert(set_branch(bs, name, t) =~= bs.update(0, (name, t)));
    } else {
        assert forall|j: int| 0 <= j < i - 1 implies (#[trigger] bs.drop_first()[j]).0 != name by {
            assert(bs.drop_first()[j] == bs[j + 1]);
        }
        assert(bs.drop_first()[i - 1] == bs[i]);
        lemma_set_branch_update(bs.drop_first(), name, t, i - 1);
        assert(set_branch(bs, name, t) =~= bs.update(i, (name, t)));
    }
}

/// Retargeting a branch that is absent appends it.
pub proof fn lemma_set_branch_append(bs: Seq<(Seq<u8>, int)>, name: Seq<u8>, t: int)
    requires
        forall|j: int| 0 <= j < bs.len() ==> (#[trigger] bs[j]).0 != name,
    ensures
        set_branch(bs, name, t) == bs.push((name, t)),
    decreases bs.len(),
{
    if bs.len() == 0 {
        assert(set_branch(bs, name, t) =~= bs.push((name, t)));
    } else {
        assert forall|j: int| 0 <= j < bs.drop_first().len() implies (#[trigger] bs.drop_first()[j]).0
            != name by {
            assert(bs.drop_first()[j] == bs[j + 1]);
        }
        lemma_set_branch_append(bs.drop_first(), name, t);
        assert(set_branch(bs, name, t) =~= bs.push((name, t)));
    }
}

/// Staging an entry over one already present at `i`, the first at its
/// path, is updating the list there.
pub proof fn lemma_upsert_update(es: Seq<EntryV>, e: EntryV, i: int)
    requires
        0 <= i < es.len(),
        es[i].path == e.path,
        forall|j: int| 0 <= j < i ==> (#[trigger] es[j]).path != e.path,
    ensures
        upsert(es, e) == es.update(i, e),
    decreases i,
{
    if i == 0 {
        assert(upsert(es, e) =~= es.update(0, e));
    } else {
        assert forall|j: int| 0 <= j < i - 1 implies (#[trigger] es.drop_first()[j]).path
            != e.path by {
            assert(es.drop_first()[j] == es[j + 1]);
        }
        assert(es.drop_first()[i - 1] == es[i]);
        lemma_upsert_update(es.drop_first(), e, i - 1);
        assert(upsert(es, e) =~= es.update(i, e));
    }
}

/// Staging an entry at a fresh path appends it.
pub proof fn lemma_upsert_append(es: Seq<EntryV>, e: EntryV)
    requires
        forall|j: int| 0 <= j < es.len() ==> (#[trigger] es[j]).path != e.path,
    ensures
        upsert(es, e) == es.push(e),
    decreases es.len(),
{
    if es.len() == 0 {
        assert(upsert(es, e) =~= es.push(e));
    } else {
        assert forall|j: int| 0 <= j < es.drop_first().len() implies (#[trigger] es.drop_first()[j]).path
            != e.path by {
            assert(es.drop_first()[j] == es[j + 1]);
        }
        lemma_upsert_append(es.drop_first(), e);
        assert(upsert(es, e) =~= es.push(e));
    }
}

/// Copy one entry.
pub fn clone_entry(e: &TreeEntry) -> (r: TreeEntry)
    ensures
        r@ == e@,
{
    TreeEntry { path: clone_bytes(&e.path), mode: e.mode, oid: e.oid }
}

/// Copy an entry list.
pub fn clone_entries(v: &Vec<TreeEntry>) -> (r: Vec<TreeEntry>)
    ensures
        entries_view(r@) == entries_view(v@),
{
    let mut r: Vec<TreeEntry> = Vec::new();
    let mut i: usize = 0;
    while i < v.len()
        invariant
            i <= v.len(),
            entries_view(r@) == entries_view(v@).take(i as int),
        decreases v.len() - i,
    {
        let ghost old_r = r@;
        r.push(clone_entry(&v[i]));
        i += 1;
        proof {
            assert(entries_view(r@) =~= entries_view(old_r).push(v@[i - 1]@));
            assert(entries_view(r@) =~= entries_view(v@).take(i as int));
        }
    }
    proof {
        assert(entries_view(r@) =~= entries_view(v@));
    }
    r
}

/// Whether two entry lists are the same tree.
pub fn entries_eq(a: &Vec<TreeEntry>, b: &Vec<TreeEntry>) -> (r: bool)
    ensures
        r == (entries_view(a@) == entries_view(b@)),
{
    if a.len() != b.len() {
        proof {
            assert(entries_view(a@).len() != entries_view(b@).len());
        }
        return false;
    }
    let mut i: usize = 0;
    while i < a.len()
        invariant
            i <= a.len(),
            a@.len() == b@.len(),
            forall|j: int| 0 <= j < i ==> (#[trigger] a@[j])@ == b@[j]@,
        decreases a.len() - i,
    {
        let same = bytes_eq(&a[i].path, &b[i].path) && a[i].mode == b[i].mode && a[i].oid
            == b[i].oid;
        if !same {
            proof {
                assert(entries_view(a@)[i as int] != entries_view(b@)[i as int]);
            }
            return false;
        }
        i += 1;
    }
    proof {
        assert(entries_view(a@) =~= entries_view(b@));
    }
    true
}

/// The tip of the named branch, if it exists.
pub fn find_branch_vec(bs: &Vec<(Vec<u8>, usize)>, name: &Vec<u8>) -> (r: Option<usize>)
    ensures
        match r {
            Some(t) => branch_target(branches_view(bs@), name@) == Some(t as int),
            None => branch_target(branches_view(bs@), name@) is None,
        },
{
    let ghost bsv = branches_view(bs@);
    let mut i: usize = 0;
    while i < bs.len()
        invariant
            i <= bs.len(),
            bsv == branches_view(bs@),
            forall|j: int| 0 <= j < i ==> (#[trigger] bsv[j]).0 != name@,
        decreases bs.len() - i,
    {
        if bytes_eq(&bs[i].0, name) {
            proof {
                lemma_branch_target_skip(bsv, name@, i as int);
                assert(bsv.skip(i as int)[0] == bsv[i as int]);
            }
            return Some(bs[i].1);
        }
        i += 1;
    }
    proof {
        lemma_branch_target_skip(bsv, name@, i as int);
        assert(bsv.skip(i as int) =~= Seq::<(Seq<u8>, int)>::empty());
    }
    None
}

/// Retarget the named branch, appending it when absent.
pub fn set_branch_vec(bs: &mut Vec<(Vec<u8>, usize)>, name: Vec<u8>, t: usize)
    ensures
        branches_view(final(bs)@) == set_branch(branches_view(old(bs)@), name@, t as int),
{
    let ghost bsv = branches_view(bs@);
    let mut i: usize = 0;
    while i < bs.len()
        invariant
            i <= bs.len(),
            bs@ == old(bs)@,
            bsv == branches_view(bs@),
            forall|j: int| 0 <= j < i ==> (#[trigger] bsv[j]).0 != name@,
        decreases bs.len() - i,
    {
        if bytes_eq(&bs[i].0, &name) {
            proof {
                lemma_set_branch_update(bsv, name@, t as int, i as int);
            }
            bs.set(i, (name, t));
            proof {
                assert(branches_view(bs@) =~= bsv.update(i as int, (name@, t as int)));
            }
            return ;
        }
        i += 1;
    }
    proof {
        lemma_set_branch_append(bsv, name@, t as int);
    }
    bs.push((name, t));
    proof {
        assert(branches_view(bs@) =~= bsv.push((name@, t as int)));
    }
}

/// Stage one entry into an entry list, replacing the entry at its path
/// when one exists.
pub fn upsert_entry_vec(es: &mut Vec<TreeEntry>, e: TreeEntry)
    ensures
        entries_view(final(es)@) == upsert(entries_view(old(es)@), e@),
{
    let ghost esv = entries_view(es@);
    let mut i: usize = 0;
    while i < es.len()
        invariant
            i <= es.len(),
            es@ == old(es)@,
            esv == entries_view(es@),
            forall|j: int| 0 <= j < i ==> (#[trigger] esv[j]).path != e@.path,
        decreases es.len() - i,
    {
        if bytes_eq(&es[i].path, &e.path) {
            proof {
                lemma_upsert_update(esv, e@, i as int);
            }
            es.set(i, e);
            proof {
                assert(entries_view(es@) =~= esv.update(i as int, es@[i as int]@));
            }
            return ;
        }
        i += 1;
    }
    proof {
        lemma_upsert_append(esv, e@);
    }
    es.push(e);
    proof {
        assert(entries_view(es@) =~= esv.push(es@[es@.len() - 1]@));
    }
}

/// Copy a HEAD reference.
pub fn clone_head(h: &HeadRef) -> (r: HeadRef)
    ensures
        r@ == h@,
{
    match h {
        HeadRef::Unborn => HeadRef::Unborn,
        HeadRef::Detached(c) => HeadRef::Detached(*c),
        HeadRef::OnBranch(n) => HeadRef::OnBranch(clone_bytes(n)),
    }
}

/// Whether the model is already saved for `branch`.
pub fn model_is_saved(m: &RepoModel, branch: &Vec<u8>) -> (r: bool)
    requires
        repo_wf(m@),
    ensures
        r == is_saved(m@, branch@),
{
    let tip: Option<usize> = match &m.head {
        HeadRef::Unborn => None,
        HeadRef::Detached(c) => Some(*c),
        HeadRef::OnBranch(n) => find_branch_vec(&m.branches, n),
    };
    let head_match = match tip {
        Some(t) => {
            proof {
                lemma_branch_target_bound(
                    branches_view(m.branches@),
                    match m@.head {
                        HeadV::OnBranch(n) => n,
                        _ => Seq::empty(),
                    },
                    m.commits@.len() as int,
                );
            }
            entries_eq(&m.workdir, &m.commits[t].tree)
        },
        None => false,
    };
    if head_match {
        return true;
    }
    proof {
        lemma_branch_target_bound(branches_view(m.branches@), branch@, m.commits@.len() as int);
    }
    match find_branch_vec(&m.branches, branch) {
        Some(bt) => entries_eq(&m.workdir, &m.commits[bt].tree),
        None => false,
    }
}

impl RepoModel {
    /// Save the working tree onto the tracking branch: the executable
    /// form of the save algorithm, doing exactly what `spec_save`
    /// says.
    pub fn save(&mut self, branch: &Vec<u8>, commit_message: &Vec<u8>, merge_message: &Vec<u8>)
        requires
            repo_wf(old(self)@),
        ensures
            final(self)@ == spec_save(old(self)@, branch@, commit_message@, merge_message@),
            repo_wf(final(self)@),
    {
        let ghost m0 = self@;
        proof {
            lemma_save_preserves_wf(m0, branch@, commit_message@, merge_message@);
        }
        if !self.activity_clean {
            return ;
        }
        let unborn = match &self.head {
            HeadRef::Unborn => true,
            _ => false,
        };
        if unborn {
            return ;
        }
        if model_is_saved(self, branch) {
            return ;
        }
        proof {
            assert(save_acts(m0, branch@));
        }

        // Snapshot HEAD and the index.
        let head0 = clone_head(&self.head);
        let index0 = clone_entries(&self.index);

        // The commit HEAD resolves to.
        let hc: usize = match &self.head {
            HeadRef::Detached(c) => *c,
            HeadRef::OnBranch(n) => {
                match find_branch_vec(&self.branches, n) {
                    Some(t) => t,
                    None => {
                        proof {
                            assert(false);
                        }
                        0
                    },
                }
            },
            HeadRef::Unborn => {
                proof {
                    assert(false);
                }
                0
            },
        };
        proof {
            assert(hc as int == save_hc(m0));
            assert(0 <= save_hc(m0) < m0.commits.len()) by {
                match m0.head {
                    HeadV::Detached(_) => {},
                    HeadV::OnBranch(n) => {
                        lemma_branch_target_bound(m0.branches, n, m0.commits.len() as int);
                    },
                    HeadV::Unborn => {},
                }
            }
        }

        // Retarget HEAD onto the tracking branch, creating it from the
        // current commit when absent; reset the index to its tree.
        let bt: usize = match find_branch_vec(&self.branches, branch) {
            Some(t) => t,
            None => {
                set_branch_vec(&mut self.branches, clone_bytes(branch), hc);
                hc
            },
        };
        proof {
            assert(branches_view(self.branches@) == save_bs1(m0, branch@));
            assert(bt as int == save_bt(m0, branch@));
            assert(0 <= save_bt(m0, branch@) < m0.commits.len()) by {
                lemma_branch_target_bound(m0.branches, branch@, m0.commits.len() as int);
            }
        }
        self.head = HeadRef::OnBranch(clone_bytes(branch));
        let reset_tree = clone_entries(&self.commits[bt].tree);
        self.index = reset_tree;

        // Auto-merge the prior branch when its tree matches.
        let mut do_merge = false;
        let mut pt: usize = 0;
        match &head0 {
            HeadRef::OnBranch(prior) => {
                match find_branch_vec(&self.branches, prior) {
                    Some(p) => {
                        proof {
                            assert(forall|i: int|
                                0 <= i < save_bs1(m0, branch@).len() ==> 0 <= (
                                #[trigger] save_bs1(m0, branch@)[i]).1 < m0.commits.len()) by {
                                lemma_set_branch_bound(
                                    m0.branches,
                                    branch@,
                                    save_hc(m0),
                                    m0.commits.len() as int,
                                );
                            }
                            lemma_branch_target_bound(
                                save_bs1(m0, branch@),
                                m0.head->OnBranch_0,
                                m0.commits.len() as int,
                            );
                        }
                        if p != bt {
                            if entries_eq(&self.commits[p].tree, &self.commits[bt].tree) {
                                do_merge = true;
                                pt = p;
                            }
                        }
                    },
                    None => {},
                }
            },
            _ => {},
        }
        proof {
            assert(do_merge == save_do_merge(m0, branch@));
            assert(do_merge ==> pt as int == save_prior_tip(m0, branch@));
        }
        let mut bt2: usize = bt;
        if do_merge {
            let newid = self.commits.len();
            let tree = clone_entries(&self.commits[bt].tree);
            let mut parents: Vec<usize> = Vec::new();
            parents.push(pt);
            parents.push(bt);
            let ghost old_commits = self.commits@;
            self.commits.push(CommitRec { tree, parents, message: clone_bytes(merge_message) });
            set_branch_vec(&mut self.branches, clone_bytes(branch), newid);
            bt2 = newid;
            proof {
                assert(self.commits@.last()@ =~= CommitV {
                    tree: tree_at(m0.commits, save_bt(m0, branch@)),
                    parents: seq![save_prior_tip(m0, branch@), save_bt(m0, branch@)],
                    message: merge_message@,
                });
                assert(commits_view(self.commits@) =~= save_commits2(m0, branch@, merge_message@));
            }
        }
        proof {
            assert(commits_view(self.commits@) =~= save_commits2(m0, branch@, merge_message@));
            assert(bt2 as int == save_bt2(m0, branch@));
            assert(branches_view(self.branches@) == save_bs2(m0, branch@));
        }

        // Stage the whole working tree and commit it onto the branch.
        let cid3 = self.commits.len();
        let wtree = clone_entries(&self.workdir);
        let mut parents3: Vec<usize> = Vec::new();
        parents3.push(bt2);
        self.commits.push(CommitRec { tree: wtree, parents: parents3, message: clone_bytes(commit_message) });
        set_branch_vec(&mut self.branches, clone_bytes(branch), cid3);
        proof {
            assert(self.commits@.last()@ =~= CommitV {
                tree: m0.workdir,
                parents: seq![save_bt2(m0, branch@)],
                message: commit_message@,
            });
            assert(commits_view(self.commits@) =~= save_commits3(
                m0,
                branch@,
                commit_message@,
                merge_message@,
            ));
            assert(branches_view(self.branches@) == save_bs3(m0, branch@));
        }

        // Restore HEAD with a mixed reset.
        let base: Vec<TreeEntry> = match &head0 {
            HeadRef::Detached(c) => {
                proof {
                    assert((*c as int) < self.commits@.len());
                }
                clone_entries(&self.commits[*c].tree)
            },
            HeadRef::OnBranch(p) => {
                match find_branch_vec(&self.branches, p) {
                    Some(t) => {
                        proof {
                            lemma_bs3_bound(m0, branch@);
                            lemma_branch_target_bound(
                                save_bs3(m0, branch@),
                                head0@->OnBranch_0,
                                self.commits@.len() as int,
                            );
                        }
                        clone_entries(&self.commits[t].tree)
                    },
                    None => Vec::new(),
                }
            },
            HeadRef::Unborn => Vec::new(),
        };
        proof {
            assert(entries_view(base@) =~= save_index_base(
                m0,
                branch@,
                commit_message@,
                merge_message@,
            ));
        }
        self.head = head0;
        self.index = base;

        // Stage the backed-up index entries on top.
        let ghost ib = save_index_base(m0, branch@, commit_message@, merge_message@);
        let mut k: usize = 0;
        while k < index0.len()
            invariant
                k <= index0@.len(),
                entries_view(index0@) == m0.index,
                self.activity_clean == m0.activity_clean,
                self.head@ == m0.head,
                branches_view(self.branches@) == save_bs3(m0, branch@),
                commits_view(self.commits@) == save_commits3(
                    m0,
                    branch@,
                    commit_message@,
                    merge_message@,
                ),
                entries_view(self.workdir@) == m0.workdir,
                entries_view(self.index@) == overlay(ib, m0.index, k as int),
            decreases index0@.len() - k,
        {
            upsert_entry_vec(&mut self.index, clone_entry(&index0[k]));
            k += 1;
        }
        proof {
            assert(self@ =~= spec_save(m0, branch@, commit_message@, merge_message@));
        }
    }
}

/// Every tip of the final branch list names a commit in the final
/// store.
pub proof fn lemma_bs3_bound(m: RepoV, branch: Seq<u8>)
    requires
        repo_wf(m),
        !(m.head is Unborn),
    ensures
        forall|i: int|
            0 <= i < save_bs3(m, branch).len() ==> 0 <= (#[trigger] save_bs3(m, branch)[i]).1
                < save_commits3(m, branch, Seq::empty(), Seq::empty()).len(),
        save_commits3(m, branch, Seq::empty(), Seq::empty()).len() == save_commits2(
            m,
            branch,
            Seq::empty(),
        ).len() + 1,
{
    let n2 = save_commits2(m, branch, Seq::empty()).len() as int;
    let n3 = n2 + 1;
    assert(0 <= save_hc(m) < m.commits.len()) by {
        match m.head {
            HeadV::Detached(_) => {},
            HeadV::OnBranch(n) => {
                lemma_branch_target_bound(m.branches, n, m.commits.len() as int);
            },
            HeadV::Unborn => {},
        }
    }
    assert(forall|i: int|
        0 <= i < save_bs1(m, branch).len() ==> 0 <= (#[trigger] save_bs1(m, branch)[i]).1
            < m.commits.len()) by {
        lemma_set_branch_bound(m.branches, branch, save_hc(m), m.commits.len() as int);
    }
    assert(forall|i: int|
        0 <= i < save_bs2(m, branch).len() ==> 0 <= (#[trigger] save_bs2(m, branch)[i]).1 < n2) by {
        if save_do_merge(m, branch) {
            assert(forall|i: int|
                0 <= i < save_bs1(m, branch).len() ==> 0 <= (#[trigger] save_bs1(m, branch)[i]).1
                    < n2);
            lemma_set_branch_bound(save_bs1(m, branch), branch, m.commits.len() as int, n2);
        }
    }
    assert(forall|i: int|
        0 <= i < save_bs2(m, branch).len() ==> 0 <= (#[trigger] save_bs2(m, branch)[i]).1 < n3);
    lemma_set_branch_bound(save_bs2(m, branch), branch, save_cid3(m, branch), n3);
}

/// Save keeps the model structurally sound: the new tips name commits
/// in the grown store, and HEAD still names an existing branch or
/// commit.
pub proof fn lemma_save_preserves_wf(m: RepoV, branch: Seq<u8>, cmsg: Seq<u8>, mmsg: Seq<u8>)
    requires
        repo_wf(m),
    ensures
        repo_wf(spec_save(m, branch, cmsg, mmsg)),
{
    if save_acts(m, branch) {
        let r = spec_save(m, branch, cmsg, mmsg);
        lemma_bs3_bound(m, branch);
        assert(r.commits.len() == save_commits3(m, branch, Seq::empty(), Seq::empty()).len());
        match m.head {
            HeadV::Detached(c) => {
                assert(0 <= c < r.commits.len());
            },
            HeadV::OnBranch(n) => {
                if n == branch {
                    lemma_set_branch_same(save_bs2(m, branch), branch, save_cid3(m, branch));
                } else {
                    lemma_set_branch_other(save_bs2(m, branch), branch, save_cid3(m, branch), n);
                    if save_do_merge(m, branch) {
                        lemma_set_branch_other(
                            save_bs1(m, branch),
                            branch,
                            m.commits.len() as int,
                            n,
                        );
                    }
                    if branch_target(m.branches, branch) is None {
                        lemma_set_branch_other(m.branches, branch, save_hc(m), n);
                    }
                }
            },
            HeadV::Unborn => {},
        }
        // The grown store stays path-keyed: the merge commit reuses an
        // existing tree, the snapshot commit the working tree.
        assert(0 <= save_hc(m) < m.commits.len()) by {
            match m.head {
                HeadV::Detached(_) => {},
                HeadV::OnBranch(n) => {
                    lemma_branch_target_bound(m.branches, n, m.commits.len() as int);
                },
                HeadV::Unborn => {},
            }
        }
        assert(0 <= save_bt(m, branch) < m.commits.len()) by {
            lemma_branch_target_bound(m.branches, branch, m.commits.len() as int);
        }
        assert forall|i: int| 0 <= i < r.commits.len() implies paths_distinct(
            (#[trigger] r.commits[i]).tree,
        ) by {
            if i < m.commits.len() {
                assert(r.commits[i] == m.commits[i]);
            } else if save_do_merge(m, branch) && i == m.commits.len() {
                assert(r.commits[i].tree == tree_at(m.commits, save_bt(m, branch)));
            } else {
                assert(r.commits[i].tree == m.workdir);
            }
        }
        // The restored index stays path-keyed: a commit tree, or
        // nothing, with the backed-up entries staged on top.
        let ib = save_index_base(m, branch, cmsg, mmsg);
        assert(paths_distinct(ib)) by {
            match m.head {
                HeadV::Detached(c) => {
                    assert(ib == r.commits[c].tree);
                },
                HeadV::OnBranch(p) => {
                    match branch_target(save_bs3(m, branch), p) {
                        Some(t) => {
                            lemma_branch_target_bound(
                                save_bs3(m, branch),
                                p,
                                r.commits.len() as int,
                            );
                            assert(ib == r.commits[t].tree);
                        },
                        None => {},
                    }
                },
                HeadV::Unborn => {},
            }
        }
        lemma_overlay_distinct(ib, m.index, m.index.len() as int);
    }
}

} // verus!
