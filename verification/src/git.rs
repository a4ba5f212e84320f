//! The release branch: read from the environment's overrides or from what
//! `git rev-parse --abbrev-ref HEAD` printed.
use crate::errors::SampoError;
use crate::text::{chars_of, owned, starts_with, starts_with_exec, slice, string_of, trim, trim_chars};
use vstd::prelude::*;

verus! {

/// `s` without all its leading `refs/heads/` prefixes.
pub open spec fn strip_heads(s: Seq<char>) -> Seq<char>
    decreases s.len(),
{
    if s.len() >= 11 && starts_with(s, "refs/heads/"@) {
        strip_heads(s.skip(11))
    } else {
        s
    }
}

/// An environment value that names a branch: trimmed, not blank.
pub open spec fn env_branch(v: Option<Seq<char>>) -> Option<Seq<char>> {
    match v {
        Some(t) => if trim(t).len() > 0 {
            Some(trim(t))
        } else {
            None
        },
        None => None,
    }
}

/// The current branch: `SAMPO_RELEASE_BRANCH`, else `GITHUB_REF_NAME`, else
/// what git printed (trimmed, without `refs/heads/`); git's failure, an
/// empty name and a detached `HEAD` are errors.
pub open spec fn branch_outcome(
    release_branch: Option<Seq<char>>,
    github_ref: Option<Seq<char>>,
    rev_parse: Option<Seq<char>>,
) -> Result<Seq<char>, Seq<char>> {
    match env_branch(release_branch) {
        Some(b) => Ok(b),
        None => match env_branch(github_ref) {
            Some(b) => Ok(b),
            None => match rev_parse {
                None => Err("Unable to determine current git branch (git rev-parse failed)"@),
                Some(out) => {
                    let b = strip_heads(trim(out));
                    if b.len() == 0 || b == "HEAD"@ {
                        Err("Unable to determine current git branch (detached HEAD)"@)
                    } else {
                        Ok(b)
                    }
                },
            },
        },
    }
}

fn env_branch_of(v: Option<&str>) -> (r: Option<String>)
    ensures
        crate::manifest::opt_text(r) == env_branch(crate::cargo::opt_chars(v)),
{
    match v {
        Some(t) => {
            let b = trim_chars(&chars_of(t));
            if b.len() > 0 {
                Some(string_of(&b))
            } else {
                None
            }
        },
        None => None,
    }
}

/// The current branch from the environment's `SAMPO_RELEASE_BRANCH` and
/// `GITHUB_REF_NAME` values and the output of `git rev-parse --abbrev-ref
/// HEAD` (`None` when git failed).
pub fn resolve_branch(release_branch: Option<&str>, github_ref: Option<&str>, rev_parse: Option<&str>) -> (r: Result<
    String,
    SampoError,
>)
    ensures
        match branch_outcome(
            crate::cargo::opt_chars(release_branch),
            crate::cargo::opt_chars(github_ref),
            crate::cargo::opt_chars(rev_parse),
        ) {
            Ok(b) => r matches Ok(x) && x@ == b,
            Err(m) => r matches Err(SampoError::Release(x)) && x@ == m,
        },
{
    if let Some(b) = env_branch_of(release_branch) {
        return Ok(b);
    }
    if let Some(b) = env_branch_of(github_ref) {
        return Ok(b);
    }
    let out = match rev_parse {
        Some(o) => o,
        None => return Err(SampoError::Release(owned("Unable to determine current git branch (git rev-parse failed)"))),
    };
    let mut b = trim_chars(&chars_of(out));
    let prefix = chars_of("refs/heads/");
    proof {
        reveal_strlit("refs/heads/");
    }
    while b.len() >= 11 && starts_with_exec(&b, &prefix)
        invariant
            prefix@ == "refs/heads/"@,
            strip_heads(b@) == strip_heads(trim(out@)),
        decreases b.len(),
    {
        let rest = slice(&b, 11, b.len());
        assert(rest@ =~= b@.skip(11));
        b = rest;
    }
    if b.len() == 0 || crate::text::chars_eq(&b, &chars_of("HEAD")) {
        return Err(SampoError::Release(owned("Unable to determine current git branch (detached HEAD)")));
    }
    Ok(string_of(&b))
}

} // verus!
