//! Lexical path manipulation.
//!
//! Paths are byte strings, as the operating system hands them over.
//! Normalisation is purely lexical: it joins a relative path onto the
//! current directory, then resolves `.` and `..` components without
//! touching the filesystem, so that a path naming a file that does not
//! exist yet can still be normalised.

use vstd::prelude::*;

verus! {

/// Path separator byte, `/`.
pub const SLASH: u8 = 47;

/// The byte `.`.
pub const DOT: u8 = 46;

/// The byte `%`, the joiner of the worktree directory rule.
pub const PERCENT: u8 = 37;

/// A path is absolute when it starts with a separator.
pub open spec fn is_abs(p: Seq<u8>) -> bool {
    p.len() > 0 && p[0] == SLASH
}

/// The views of a sequence of byte vectors.
pub open spec fn views(ps: Seq<Vec<u8>>) -> Seq<Seq<u8>> {
    Seq::new(ps.len(), |i: int| ps[i]@)
}

/// The pieces of `s` from index `i` on, split at every separator, with
/// `cur` the piece accumulated so far. Splitting keeps empty pieces:
/// `"/a//b"` yields `["", "a", "", "b"]`.
pub open spec fn split_acc(s: Seq<u8>, i: int, cur: Seq<u8>) -> Seq<Seq<u8>>
    decreases s.len() - i,
{
    if i < 0 || i >= s.len() {
        seq![cur]
    } else if s[i] == SLASH {
        seq![cur] + split_acc(s, i + 1, Seq::empty())
    } else {
        split_acc(s, i + 1, cur.push(s[i]))
    }
}

/// All pieces of `s`, split at every separator.
pub open spec fn split_all(s: Seq<u8>) -> Seq<Seq<u8>> {
    split_acc(s, 0, Seq::empty())
}

/// One step of normalisation: empty pieces and `.` are skipped, `..`
/// discards the last component kept so far (staying put at the root),
/// and any other piece is kept.
pub open spec fn norm_step(stack: Seq<Seq<u8>>, comp: Seq<u8>) -> Seq<Seq<u8>> {
    if comp.len() == 0 || comp == seq![DOT] {
        stack
    } else if comp == seq![DOT, DOT] {
        if stack.len() > 0 {
            stack.drop_last()
        } else {
            stack
        }
    } else {
        stack.push(comp)
    }
}

/// The components kept after normalising the first `j` pieces.
pub open spec fn norm_pre(ps: Seq<Seq<u8>>, j: int) -> Seq<Seq<u8>>
    decreases j,
{
    if j <= 0 {
        Seq::empty()
    } else {
        norm_step(norm_pre(ps, j - 1), ps[j - 1])
    }
}

/// The normalised components of a path given as a byte string.
pub open spec fn components_of(s: Seq<u8>) -> Seq<Seq<u8>> {
    norm_pre(split_all(s), split_all(s).len() as int)
}

/// The first `j` components rendered as an absolute path: a separator
/// before each component.
pub open spec fn join_pre(cs: Seq<Seq<u8>>, j: int) -> Seq<u8>
    decreases j,
{
    if j <= 0 {
        Seq::empty()
    } else {
        join_pre(cs, j - 1) + seq![SLASH] + cs[j - 1]
    }
}

/// Components rendered as an absolute path; no components is the root.
pub open spec fn join_abs(cs: Seq<Seq<u8>>) -> Seq<u8> {
    if cs.len() == 0 {
        seq![SLASH]
    } else {
        join_pre(cs, cs.len() as int)
    }
}

/// `p` if absolute, else `p` appended onto `cwd`.
pub open spec fn rooted(cwd: Seq<u8>, p: Seq<u8>) -> Seq<u8> {
    if is_abs(p) {
        p
    } else {
        cwd + seq![SLASH] + p
    }
}

/// Lexical normalisation: root the path at `cwd` when relative, then
/// resolve `.` and `..` and collapse repeated separators.
pub open spec fn spec_normalize(cwd: Seq<u8>, p: Seq<u8>) -> Seq<u8> {
    join_abs(components_of(rooted(cwd, p)))
}

/// Rendering any component stack gives an absolute path.
pub proof fn lemma_join_pre_absolute(cs: Seq<Seq<u8>>, j: int)
    requires
        j >= 1,
    ensures
        is_abs(join_pre(cs, j)),
    decreases j,
{
    if j == 1 {
        assert(join_pre(cs, 1) == join_pre(cs, 0) + seq![SLASH] + cs[0]);
        assert(join_pre(cs, 1)[0] == SLASH);
    } else {
        lemma_join_pre_absolute(cs, j - 1);
        assert(join_pre(cs, j)[0] == join_pre(cs, j - 1)[0]);
    }
}

/// Normalisation always yields an absolute path, whatever was handed
/// in.
pub proof fn lemma_normalize_is_absolute(cwd: Seq<u8>, p: Seq<u8>)
    ensures
        is_abs(spec_normalize(cwd, p)),
{
    let cs = components_of(rooted(cwd, p));
    if cs.len() == 0 {
        assert(join_abs(cs)[0] == SLASH);
    } else {
        lemma_join_pre_absolute(cs, cs.len() as int);
    }
}

/// Append every byte of `src` onto `dst`.
pub fn append_bytes(dst: &mut Vec<u8>, src: &Vec<u8>)
    ensures
        final(dst)@ == old(dst)@ + src@,
{
    let mut k: usize = 0;
    while k < src.len()
        invariant
            k <= src.len(),
            dst@ == old(dst)@ + src@.take(k as int),
        decreases src.len() - k,
    {
        dst.push(src[k]);
        k += 1;
        proof {
            assert(dst@ =~= old(dst)@ + src@.take(k as int));
        }
    }
    proof {
        assert(dst@ =~= old(dst)@ + src@);
    }
}

/// Normalise `path` lexically: join it onto `cwd` when it is relative,
/// then resolve `.` and `..` components and collapse separators. The
/// filesystem is never consulted, so the path need not exist.
pub fn normalize_path(cwd: &Vec<u8>, path: &Vec<u8>) -> (r: Vec<u8>)
    ensures
        r@ == spec_normalize(cwd@, path@),
{
    let mut full: Vec<u8> = Vec::new();
    if path.len() > 0 && path[0] == SLASH {
        append_bytes(&mut full, path);
        proof {
            assert(full@ =~= rooted(cwd@, path@));
        }
    } else {
        append_bytes(&mut full, cwd);
        full.push(SLASH);
        append_bytes(&mut full, path);
        proof {
            assert(full@ =~= rooted(cwd@, path@));
        }
    }

    let stack = components_vec(&full);
    join_components(&stack)
}

/// Split `full` at separators and normalise the pieces, returning the
/// component stack.
fn components_vec(full: &Vec<u8>) -> (stack: Vec<Vec<u8>>)
    ensures
        views(stack@) == components_of(full@),
{
    let ghost s = full@;

    // Split into pieces.
    let mut pieces: Vec<Vec<u8>> = Vec::new();
    let mut cur: Vec<u8> = Vec::new();
    let mut i: usize = 0;
    while i < full.len()
        invariant
            i <= full.len(),
            s == full@,
            split_all(s) == views(pieces@) + split_acc(s, i as int, cur@),
        decreases full.len() - i,
    {
        if full[i] == SLASH {
            proof {
                assert(split_acc(s, i as int, cur@) == seq![cur@] + split_acc(
                    s,
                    i as int + 1,
                    Seq::empty(),
                ));
            }
            let ghost old_pieces = pieces@;
            pieces.push(cur);
            proof {
                assert(views(pieces@) =~= views(old_pieces).push(cur@));
                assert(views(old_pieces) + split_acc(s, i as int, cur@) =~= views(pieces@)
                    + split_acc(s, i as int + 1, Seq::empty()));
            }
            cur = Vec::new();
        } else {
            proof {
                assert(split_acc(s, i as int, cur@) == split_acc(
                    s,
                    i as int + 1,
                    cur@.push(s[i as int]),
                ));
            }
            cur.push(full[i]);
        }
        i += 1;
    }
    proof {
        assert(split_acc(s, i as int, cur@) == seq![cur@]);
    }
    let ghost old_pieces = pieces@;
    pieces.push(cur);
    proof {
        assert(views(pieces@) =~= views(old_pieces).push(cur@));
        assert(views(pieces@) =~= split_all(s));
    }

    // Normalise the pieces.
    let ghost ps = views(pieces@);
    let mut stack: Vec<Vec<u8>> = Vec::new();
    let mut j: usize = 0;
    while j < pieces.len()
        invariant
            j <= pieces.len(),
            ps == views(pieces@),
            views(stack@) == norm_pre(ps, j as int),
        decreases pieces.len() - j,
    {
        let piece = &pieces[j];
        proof {
            assert(ps[j as int] == piece@);
            assert(norm_pre(ps, j as int + 1) == norm_step(norm_pre(ps, j as int), ps[j as int]));
        }
        if piece.len() == 0 || (piece.len() == 1 && piece[0] == DOT) {
            proof {
                if piece.len() == 1 && piece[0] == DOT {
                    assert(piece@ =~= seq![DOT]);
                }
            }
        } else if piece.len() == 2 && piece[0] == DOT && piece[1] == DOT {
            proof {
                assert(piece@ =~= seq![DOT, DOT]);
            }
            if stack.len() > 0 {
                let ghost old_stack = stack@;
                stack.pop();
                proof {
                    assert(views(stack@) =~= views(old_stack).drop_last());
                }
            }
        } else {
            proof {
                assert(piece@ != seq![DOT] && piece@ != seq![DOT, DOT]) by {
                    if piece@ == seq![DOT] {
                        assert(piece@.len() == 1 && piece@[0] == DOT);
                    }
                    if piece@ == seq![DOT, DOT] {
                        assert(piece@.len() == 2 && piece@[0] == DOT && piece@[1] == DOT);
                    }
                }
            }
            let ghost old_stack = stack@;
            let comp = clone_bytes(piece);
            stack.push(comp);
            proof {
                assert(views(stack@) =~= views(old_stack).push(piece@));
            }
        }
        j += 1;
    }
    stack
}

/// Render a component stack as an absolute path.
fn join_components(stack: &Vec<Vec<u8>>) -> (r: Vec<u8>)
    ensures
        r@ == join_abs(views(stack@)),
{
    let ghost cs = views(stack@);
    let mut out: Vec<u8> = Vec::new();
    if stack.len() == 0 {
        out.push(SLASH);
        proof {
            assert(out@ =~= join_abs(cs));
        }
        return out;
    }
    let mut j: usize = 0;
    while j < stack.len()
        invariant
            j <= stack.len(),
            cs == views(stack@),
            out@ == join_pre(cs, j as int),
        decreases stack.len() - j,
    {
        out.push(SLASH);
        append_bytes(&mut out, &stack[j]);
        j += 1;
        proof {
            assert(out@ =~= join_pre(cs, j as int));
        }
    }
    out
}

/// Copy a byte vector.
pub fn clone_bytes(v: &Vec<u8>) -> (r: Vec<u8>)
    ensures
        r@ == v@,
{
    let mut r: Vec<u8> = Vec::new();
    append_bytes(&mut r, v);
    r
}

/// The bytes of `worktrees`, the cache subdirectory holding throwaway
/// worktrees.
pub open spec fn worktrees_name() -> Seq<u8> {
    seq![119u8, 111u8, 114u8, 107u8, 116u8, 114u8, 101u8, 101u8, 115u8]
}

/// The first `j` components joined with `%` between them.
pub open spec fn percent_join_pre(cs: Seq<Seq<u8>>, j: int) -> Seq<u8>
    decreases j,
{
    if j <= 0 {
        Seq::empty()
    } else if j == 1 {
        cs[0]
    } else {
        percent_join_pre(cs, j - 1) + seq![PERCENT] + cs[j - 1]
    }
}

/// Components joined with `%` between them.
pub open spec fn percent_join(cs: Seq<Seq<u8>>) -> Seq<u8> {
    percent_join_pre(cs, cs.len() as int)
}

/// Every separator replaced by `%`.
pub open spec fn slashes_percented(b: Seq<u8>) -> Seq<u8> {
    Seq::new(b.len(), |i: int| if b[i] == SLASH { PERCENT } else { b[i] })
}

/// Where `run` places the throwaway worktree for `branch` of the
/// repository rooted at `repo_root`.
pub open spec fn spec_worktree_path(cache_dir: Seq<u8>, repo_root: Seq<u8>, branch: Seq<u8>) -> Seq<
    u8,
> {
    cache_dir + seq![SLASH] + worktrees_name() + seq![SLASH] + percent_join(
        components_of(repo_root),
    ) + seq![SLASH] + slashes_percented(branch)
}

/// Get Git worktree path
///
/// The repository root's components are joined with `%` into one
/// directory name, and the branch name's separators become `%`, so
/// each (root, branch) pair gets its own directory under
/// `<cache_dir>/worktrees/`. The joiner only ever stands for a
/// separator, so names that differ in their separators never collide:
/// a branch `x/y` and a branch `x-y` land in different directories.
pub fn worktree_path(cache_dir: &Vec<u8>, repo_root: &Vec<u8>, branch: &Vec<u8>) -> (r: Vec<u8>)
    ensures
        r@ == spec_worktree_path(cache_dir@, repo_root@, branch@),
{
    let mut out = clone_bytes(cache_dir);
    out.push(SLASH);
    out.push(119);
    out.push(111);
    out.push(114);
    out.push(107);
    out.push(116);
    out.push(114);
    out.push(101);
    out.push(101);
    out.push(115);
    out.push(SLASH);
    proof {
        assert(out@ =~= cache_dir@ + seq![SLASH] + worktrees_name() + seq![SLASH]);
    }
    let ghost base = out@;

    let comps = components_vec(repo_root);
    let ghost cs = views(comps@);
    let mut j: usize = 0;
    while j < comps.len()
        invariant
            j <= comps.len(),
            cs == views(comps@),
            out@ == base + percent_join_pre(cs, j as int),
        decreases comps.len() - j,
    {
        if j > 0 {
            out.push(PERCENT);
        }
        append_bytes(&mut out, &comps[j]);
        j += 1;
        proof {
            assert(out@ =~= base + percent_join_pre(cs, j as int));
        }
    }

    out.push(SLASH);
    let ghost mid = out@;
    proof {
        assert(mid =~= base + percent_join(cs) + seq![SLASH]);
    }
    let mut k: usize = 0;
    while k < branch.len()
        invariant
            k <= branch.len(),
            mid == base + percent_join(cs) + seq![SLASH],
            out@ == mid + slashes_percented(branch@).take(k as int),
        decreases branch.len() - k,
    {
        let b = branch[k];
        if b == SLASH {
            out.push(PERCENT);
        } else {
            out.push(b);
        }
        k += 1;
        proof {
            assert(out@ =~= mid + slashes_percented(branch@).take(k as int));
        }
    }
    proof {
        assert(slashes_percented(branch@).take(branch@.len() as int) =~= slashes_percented(branch@));
        assert(out@ =~= spec_worktree_path(cache_dir@, repo_root@, branch@));
    }
    out
}

} // verus!
