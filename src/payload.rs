//! Payloads that tasks hand to their libraries, with the environment
//! substituted into their string fields before the call.
use vstd::prelude::*;

use crate::error::TaskError;
use crate::expand::{expand, substitute};

verus! {

/// Payload of the symlink library.
#[derive(Debug)]
pub struct LinkOptions {
    /// Directory holding the files to link.
    pub from_dir: String,
    /// Directory to create the links in.
    pub to_dir: String,
}

impl LinkOptions {
    /// Substitutes the environment into both directories, `from_dir`
    /// first; stops at the first undefined variable.
    pub fn resolve_env(&mut self, env: &Vec<(String, String)>) -> (r: Result<(), TaskError>)
        ensures
            match expand(old(self).from_dir@, env@) {
                Err(var) => (r matches Err(TaskError::ResolveEnv { var: v }) && v@ == var) && *final(self)
                    == *old(self),
                Ok(from) => {
                    &&& final(self).from_dir@ == from
                    &&& match expand(old(self).to_dir@, env@) {
                        Err(var) => (r matches Err(TaskError::ResolveEnv { var: v }) && v@ == var)
                            && final(self).to_dir == old(self).to_dir,
                        Ok(to) => r is Ok && final(self).to_dir@ == to,
                    }
                },
            },
    {
        match substitute(&self.from_dir, env) {
            Ok(f) => {
                self.from_dir = f;
            },
            Err(var) => {
                return Err(TaskError::ResolveEnv { var });
            },
        }
        match substitute(&self.to_dir, env) {
            Ok(t) => {
                self.to_dir = t;
                Ok(())
            },
            Err(var) => Err(TaskError::ResolveEnv { var }),
        }
    }
}

/// `s` with every leading copy of `p` removed.
pub open spec fn strip_all(s: Seq<char>, p: Seq<char>) -> Seq<char>
    decreases s.len(),
{
    if p.len() > 0 && p.len() <= s.len() && s.subrange(0, p.len() as int) == p {
        strip_all(s.subrange(p.len() as int, s.len() as int), p)
    } else {
        s
    }
}

/// Whether `p` occurs in `s` at position `i`.
fn prefix_at(s: &str, i: usize, p: &str) -> (r: bool)
    requires
        i <= s@.len(),
    ensures
        r == (i + p@.len() <= s@.len() && s@.subrange(i as int, i + p@.len()) == p@),
{
    let slen = s.unicode_len();
    let plen = p.unicode_len();
    if plen > slen - i {
        return false;
    }
    let mut k: usize = 0;
    while k < plen
        invariant
            slen == s@.len(),
            plen == p@.len(),
            i + plen <= slen,
            k <= plen,
            forall|j: int| 0 <= j < k ==> s@[i + j] == p@[j],
        decreases plen - k,
    {
        if s.get_char(i + k) != p.get_char(k) {
            assert(s@.subrange(i as int, i + p@.len())[k as int] != p@[k as int]);
            return false;
        }
        k += 1;
    }
    assert(s@.subrange(i as int, i + p@.len()) =~= p@);
    true
}

/// Position in `s` after every leading copy of `p` from `from` on.
fn skip_all(s: &str, from: usize, p: &str) -> (r: usize)
    requires
        from <= s@.len(),
    ensures
        from <= r <= s@.len(),
        s@.subrange(r as int, s@.len() as int) == strip_all(s@.subrange(from as int, s@.len() as int), p@),
{
    let plen = p.unicode_len();
    let slen = s.unicode_len();
    let mut i = from;
    while plen > 0 && prefix_at(s, i, p)
        invariant
            from <= i <= s@.len(),
            slen == s@.len(),
            plen == p@.len(),
            strip_all(s@.subrange(i as int, s@.len() as int), p@) == strip_all(s@.subrange(from as int, s@.len() as int), p@),
        decreases s@.len() - i,
    {
        let ghost rest = s@.subrange(i as int, s@.len() as int);
        assert(rest.subrange(0, p@.len() as int) =~= s@.subrange(i as int, i + p@.len()));
        assert(rest.subrange(p@.len() as int, rest.len() as int) =~= s@.subrange(i + p@.len(), s@.len() as int));
        i = i + plen;
    }
    proof {
        let rest = s@.subrange(i as int, s@.len() as int);
        if p@.len() > 0 && p@.len() <= rest.len() {
            assert(rest.subrange(0, p@.len() as int) =~= s@.subrange(i as int, i + p@.len()));
        }
    }
    i
}

/// Removes the leading `refs/heads/`, then the leading `refs/remotes/`,
/// from a branch reference: `refs/heads/master` becomes `master`.
pub fn shorten_branch_ref(branch: &str) -> (r: String)
    ensures
        r@ == strip_all(strip_all(branch@, "refs/heads/"@), "refs/remotes/"@),
{
    let len = branch.unicode_len();
    assert(branch@.subrange(0, len as int) =~= branch@);
    let i = skip_all(branch, 0, "refs/heads/");
    let j = skip_all(branch, i, "refs/remotes/");
    branch.substring_char(j, len).to_owned()
}

} // verus!
