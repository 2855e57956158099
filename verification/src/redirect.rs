//! Path redirection rules for the preload layer.
//!
//! A child process runs with a `from`/`to` prefix pair in its
//! environment. Every intercepted libc entry point normalises the path
//! it was handed and asks [`redirect_decide`] whether to substitute the
//! prefix. Git metadata under `from/.git` and (optionally) ignored
//! paths are exempt, so Git keeps reading the original repository and
//! build artifacts stay out of the throwaway worktree.

use vstd::prelude::*;
use crate::paths::{SLASH, DOT, is_abs, clone_bytes, append_bytes, normalize_path, spec_normalize};

verus! {

/// `s` begins with `prefix`.
pub open spec fn starts_with(s: Seq<u8>, prefix: Seq<u8>) -> bool {
    s.len() >= prefix.len() && s.subrange(0, prefix.len() as int) == prefix
}

/// The bytes of `/.git`.
pub open spec fn git_dir_suffix() -> Seq<u8> {
    seq![SLASH, DOT, 103u8, 105u8, 116u8]
}

/// The normalised path `n` names the Git metadata directory of the tree
/// rooted at `from`, or something inside it.
pub open spec fn in_git_dir(n: Seq<u8>, from: Seq<u8>) -> bool {
    n == from + git_dir_suffix() || starts_with(n, from + git_dir_suffix() + seq![SLASH])
}

/// The prefix substitution alone: `from` itself maps to `to`, a path
/// under `from/` keeps its suffix, anything else is untouched.
pub open spec fn spec_redirect(n: Seq<u8>, from: Seq<u8>, to: Seq<u8>) -> Option<Seq<u8>> {
    if n == from {
        Some(to)
    } else if starts_with(n, from + seq![SLASH]) {
        Some(to + n.skip(from.len() as int))
    } else {
        None
    }
}

/// The full redirection decision for a normalised path: Git metadata
/// and ignored paths are exempt, everything else goes through the
/// prefix substitution.
pub open spec fn spec_decide(n: Seq<u8>, from: Seq<u8>, to: Seq<u8>, ignored: bool) -> Option<
    Seq<u8>,
> {
    if in_git_dir(n, from) || ignored {
        None
    } else {
        spec_redirect(n, from, to)
    }
}

/// Byte-string equality.
pub fn bytes_eq(a: &Vec<u8>, b: &Vec<u8>) -> (r: bool)
    ensures
        r == (a@ == b@),
{
    if a.len() != b.len() {
        proof {
            assert(a@ != b@) by {
                if a@ == b@ {
                    assert(a@.len() == b@.len());
                }
            }
        }
        return false;
    }
    let mut k: usize = 0;
    while k < a.len()
        invariant
            k <= a.len(),
            a.len() == b.len(),
            forall|m: int| 0 <= m < k ==> a@[m] == b@[m],
        decreases a.len() - k,
    {
        if a[k] != b[k] {
            return false;
        }
        k += 1;
    }
    proof {
        assert(a@ =~= b@);
    }
    true
}

/// Whether `s` begins with `prefix`.
pub fn starts_with_bytes(s: &Vec<u8>, prefix: &Vec<u8>) -> (r: bool)
    ensures
        r == starts_with(s@, prefix@),
{
    if s.len() < prefix.len() {
        return false;
    }
    let mut k: usize = 0;
    while k < prefix.len()
        invariant
            k <= prefix.len(),
            prefix.len() <= s.len(),
            forall|m: int| 0 <= m < k ==> s@[m] == prefix@[m],
        decreases prefix.len() - k,
    {
        if s[k] != prefix[k] {
            proof {
                assert(!starts_with(s@, prefix@)) by {
                    if starts_with(s@, prefix@) {
                        assert(s@.subrange(0, prefix@.len() as int)[k as int] == prefix@[k as int]);
                    }
                }
            }
            return false;
        }
        k += 1;
    }
    proof {
        assert(s@.subrange(0, prefix@.len() as int) =~= prefix@);
    }
    true
}

/// `from` with `/.git` appended.
fn git_dir_of(from: &Vec<u8>) -> (r: Vec<u8>)
    ensures
        r@ == from@ + git_dir_suffix(),
{
    let mut r = clone_bytes(from);
    r.push(SLASH);
    r.push(DOT);
    r.push(103);
    r.push(105);
    r.push(116);
    proof {
        assert(r@ =~= from@ + git_dir_suffix());
    }
    r
}

/// Decide redirection for a normalised absolute path `norm`.
///
/// Returns the redirected path exactly when `norm` equals `from` or
/// lies under `from/`, is not the Git metadata directory `from/.git`
/// nor inside it, and was not classified as ignored; otherwise `None`,
/// and the caller uses the path unchanged.
pub fn redirect_decide(norm: &Vec<u8>, from: &Vec<u8>, to: &Vec<u8>, ignored: bool) -> (r: Option<
    Vec<u8>,
>)
    ensures
        r matches Some(v) ==> Some(v@) == spec_decide(norm@, from@, to@, ignored),
        r is None ==> spec_decide(norm@, from@, to@, ignored) is None,
{
    let git_dir = git_dir_of(from);
    let mut git_dir_slash = clone_bytes(&git_dir);
    git_dir_slash.push(SLASH);
    proof {
        assert(git_dir_slash@ =~= from@ + git_dir_suffix() + seq![SLASH]);
    }
    if bytes_eq(norm, &git_dir) || starts_with_bytes(norm, &git_dir_slash) {
        return None;
    }
    if ignored {
        return None;
    }
    if bytes_eq(norm, from) {
        return Some(clone_bytes(to));
    }
    let mut from_slash = clone_bytes(from);
    from_slash.push(SLASH);
    proof {
        assert(from_slash@ =~= from@ + seq![SLASH]);
    }
    if starts_with_bytes(norm, &from_slash) {
        let mut out = clone_bytes(to);
        let mut k: usize = from.len();
        while k < norm.len()
            invariant
                from.len() <= k <= norm.len(),
                out@ == to@ + norm@.subrange(from@.len() as int, k as int),
            decreases norm.len() - k,
        {
            out.push(norm[k]);
            k += 1;
            proof {
                assert(out@ =~= to@ + norm@.subrange(from@.len() as int, k as int));
            }
        }
        proof {
            assert(norm@.subrange(from@.len() as int, norm@.len() as int) =~= norm@.skip(
                from@.len() as int,
            ));
        }
        return Some(out);
    }
    None
}

/// The redirection decision for a raw path: normalise it against the
/// working directory, then decide. `ignored` is the ignore-rule
/// classification of the normalised path, consulted only when
/// redirection of ignored paths is switched off.
pub fn redirect_path_str(
    path: &Vec<u8>,
    cwd: &Vec<u8>,
    from: &Vec<u8>,
    to: &Vec<u8>,
    ignored: bool,
) -> (r: Option<Vec<u8>>)
    ensures
        r matches Some(v) ==> Some(v@) == spec_decide(
            spec_normalize(cwd@, path@),
            from@,
            to@,
            ignored,
        ),
        r is None ==> spec_decide(spec_normalize(cwd@, path@), from@, to@, ignored) is None,
{
    let norm = normalize_path(cwd, path);
    redirect_decide(&norm, from, to, ignored)
}

/// The absolute path an `openat`-style call names, before normalisation:
/// an absolute path stands alone; a relative path with the caller's
/// working directory as base is normalised against it later; a relative
/// path under some other directory descriptor needs that directory's
/// path, and when it cannot be recovered the call is not redirected.
pub open spec fn spec_at_full(path: Seq<u8>, dirfd_is_cwd: bool, fd_dir: Option<Seq<u8>>) -> Option<
    Seq<u8>,
> {
    if is_abs(path) {
        Some(path)
    } else if dirfd_is_cwd {
        Some(path)
    } else {
        match fd_dir {
            Some(d) => Some(d + seq![SLASH] + path),
            None => None,
        }
    }
}

/// Resolve the path of an `openat`-style call against its directory
/// descriptor. `fd_dir` is the descriptor's directory as recovered by
/// the caller, or `None` when it could not be recovered.
pub fn at_full_path(path: &Vec<u8>, dirfd_is_cwd: bool, fd_dir: Option<&Vec<u8>>) -> (r: Option<
    Vec<u8>,
>)
    ensures
        r matches Some(v) ==> Some(v@) == spec_at_full(
            path@,
            dirfd_is_cwd,
            match fd_dir {
                Some(d) => Some(d@),
                None => None,
            },
        ),
        r is None ==> spec_at_full(
            path@,
            dirfd_is_cwd,
            match fd_dir {
                Some(d) => Some(d@),
                None => None,
            },
        ) is None,
{
    if path.len() > 0 && path[0] == SLASH {
        return Some(clone_bytes(path));
    }
    if dirfd_is_cwd {
        return Some(clone_bytes(path));
    }
    match fd_dir {
        Some(d) => {
            let mut out = clone_bytes(d);
            out.push(SLASH);
            append_bytes(&mut out, path);
            proof {
                assert(out@ =~= d@ + seq![SLASH] + path@);
            }
            Some(out)
        },
        None => None,
    }
}

/// An upper-case ASCII letter lowered; any other byte unchanged.
pub open spec fn ascii_lower(b: u8) -> u8 {
    if 65 <= b <= 90 {
        (b + 32) as u8
    } else {
        b
    }
}

/// Every byte lowered.
pub open spec fn lower_bytes(s: Seq<u8>) -> Seq<u8> {
    Seq::new(s.len(), |i: int| ascii_lower(s[i]))
}

/// The bytes of `false`.
pub open spec fn false_bytes() -> Seq<u8> {
    seq![102u8, 97u8, 108u8, 115u8, 101u8]
}

/// Whether the skip-ignored switch is on: its variable is set and its
/// value is neither `0` nor `false` in any letter case.
pub open spec fn spec_skip_gitignore(value: Option<Seq<u8>>) -> bool {
    match value {
        None => false,
        Some(v) => !(v == seq![48u8] || lower_bytes(v) == false_bytes()),
    }
}

/// Lower a byte.
fn to_lower_byte(b: u8) -> (r: u8)
    ensures
        r == ascii_lower(b),
{
    if 65 <= b && b <= 90 {
        b + 32
    } else {
        b
    }
}

/// Read the skip-ignored switch from its variable's value: off when
/// the variable is unset, and off when its value is `0` or `false` in
/// any letter case; on for every other value.
pub fn skip_gitignore_enabled(value: Option<&Vec<u8>>) -> (r: bool)
    ensures
        r == spec_skip_gitignore(
            match value {
                Some(v) => Some(v@),
                None => None,
            },
        ),
{
    match value {
        None => false,
        Some(v) => {
            let zero = v.len() == 1 && v[0] == 48;
            proof {
                assert(zero == (v@ == seq![48u8])) by {
                    if v@ == seq![48u8] {
                        assert(v@.len() == 1 && v@[0] == 48u8);
                    }
                    if zero {
                        assert(v@ =~= seq![48u8]);
                    }
                }
            }
            if zero {
                return false;
            }
            if v.len() != 5 {
                proof {
                    assert(lower_bytes(v@).len() != false_bytes().len());
                }
                return true;
            }
            let is_false = to_lower_byte(v[0]) == 102 && to_lower_byte(v[1]) == 97 && to_lower_byte(
                v[2],
            ) == 108 && to_lower_byte(v[3]) == 115 && to_lower_byte(v[4]) == 101;
            proof {
                assert(is_false == (lower_bytes(v@) == false_bytes())) by {
                    if is_false {
                        assert(lower_bytes(v@) =~= false_bytes());
                    }
                    if lower_bytes(v@) == false_bytes() {
                        assert(lower_bytes(v@)[0] == 102u8);
                        assert(lower_bytes(v@)[1] == 97u8);
                        assert(lower_bytes(v@)[2] == 108u8);
                        assert(lower_bytes(v@)[3] == 115u8);
                        assert(lower_bytes(v@)[4] == 101u8);
                    }
                }
            }
            !is_false
        },
    }
}

/// Per-thread reentrancy flag of the preload layer. The first
/// interception on a thread raises it; redirection logic that itself
/// calls intercepted libc functions then finds it raised and falls
/// through to the original function untouched.
pub struct RecursionGuard {
    /// A hooked call on this thread is in progress.
    pub in_hook: bool,
}

/// Whether an interception may redirect, given the flag's state.
pub open spec fn enter_grants(in_hook: bool) -> bool {
    !in_hook
}

impl RecursionGuard {
    /// A fresh thread starts outside any hook.
    pub fn new() -> (r: RecursionGuard)
        ensures
            !r.in_hook,
    {
        RecursionGuard { in_hook: false }
    }

    /// Attempt to begin an interception. Grants entry exactly when no
    /// hooked call is in progress on this thread; the flag is raised in
    /// either case (it was already raised when entry is refused).
    pub fn try_enter(&mut self) -> (granted: bool)
        ensures
            granted == enter_grants(old(self).in_hook),
            final(self).in_hook,
    {
        if self.in_hook {
            false
        } else {
            self.in_hook = true;
            true
        }
    }

    /// End the interception that was granted entry.
    pub fn exit(&mut self)
        ensures
            !final(self).in_hook,
    {
        self.in_hook = false;
    }
}

/// During a single hooked call on one thread, the flag is raised, so
/// any nested interception attempt on that thread is refused and
/// bypasses redirection.
pub proof fn lemma_nested_interception_bypasses()
    ensures
        forall|raised: bool| raised ==> !enter_grants(raised),
        enter_grants(false),
{
}

} // verus!
