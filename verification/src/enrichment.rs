//! Changeset messages enriched with commit links and author acknowledgments.
use crate::text::{ends_with, starts_with, chars_of, join2, join3, owned, split, split_exec, starts_with_exec, string_of, strip_prefix, strip_suffix, strip_suffix_exec, trim, trim_chars, views};
use vstd::prelude::*;
use vstd::string::StringExecFns;

verus! {

/// A commit: full hash, abbreviated hash and author name.
#[derive(Debug)]
pub struct CommitInfo {
    pub sha: String,
    pub short_sha: String,
    pub author_name: String,
}

/// A GitHub account linked to a commit.
#[derive(Debug)]
pub struct GitHubUserInfo {
    pub login: String,
    pub is_first_contribution: bool,
}

/// The `owner/repo` slug after `prefix`, without a final `.git`, when it has
/// at least two `/`-separated pieces.
pub open spec fn slug_after(url: Seq<char>, prefix: Seq<char>) -> Option<Seq<char>> {
    match strip_prefix(url, prefix) {
        Some(rest) => {
            let s = match strip_suffix(rest, ".git"@) {
                Some(x) => x,
                None => rest,
            };
            if split(s, seq!['/']).len() >= 2 {
                Some(s)
            } else {
                None
            }
        },
        None => None,
    }
}

/// The repository slug of an HTTPS or SSH GitHub remote URL.
pub open spec fn github_slug(url: Seq<char>) -> Option<Seq<char>> {
    match slug_after(url, "https://github.com/"@) {
        Some(s) => Some(s),
        None => slug_after(url, "git@github.com:"@),
    }
}

pub open spec fn opt_str(o: Option<String>) -> Option<Seq<char>> {
    match o {
        Some(s) => Some(s@),
        None => None,
    }
}

pub open spec fn opt_str_ref(o: Option<&str>) -> Option<Seq<char>> {
    match o {
        Some(s) => Some(s@),
        None => None,
    }
}

fn slug_after_exec(url: &Vec<char>, prefix: &str) -> (r: Option<String>)
    ensures
        opt_str(r) == slug_after(url@, prefix@),
{
    let p = chars_of(prefix);
    if !starts_with_exec(url, &p) {
        return None;
    }
    let rest = crate::text::slice(url, p.len(), url.len());
    assert(rest@ =~= url@.skip(p@.len() as int));
    let git = chars_of(".git");
    let s = match strip_suffix_exec(&rest, &git) {
        Some(x) => x,
        None => rest,
    };
    let slash = vec!['/'];
    assert(slash@ =~= seq!['/']);
    let pieces = split_exec(&s, &slash);
    if pieces.len() >= 2 {
        Some(string_of(&s))
    } else {
        None
    }
}

/// The `owner/repo` slug of a GitHub remote URL (HTTPS or SSH form).
pub fn parse_github_url(url: &str) -> (r: Option<String>)
    ensures
        opt_str(r) == github_slug(url@),
{
    let u = chars_of(url);
    match slug_after_exec(&u, "https://github.com/") {
        Some(s) => Some(s),
        None => slug_after_exec(&u, "git@github.com:"),
    }
}

/// The repository slug: the configured one when given, else read from the
/// output of `git remote get-url origin` (absent when that command failed).
pub fn detect_github_repo_slug_with_config(config_repo: Option<&str>, remote_url: Option<&str>) -> (r:
    Option<String>)
    ensures
        opt_str(r) == match config_repo {
            Some(c) => Some(c@),
            None => match remote_url {
                Some(u) => github_slug(trim(u@)),
                None => None,
            },
        },
{
    match config_repo {
        Some(c) => Some(owned(c)),
        None => detect_github_repo_slug(remote_url),
    }
}

/// The repository slug read from the output of `git remote get-url origin`
/// (absent when that command failed).
pub fn detect_github_repo_slug(remote_url: Option<&str>) -> (r: Option<String>)
    ensures
        opt_str(r) == match remote_url {
            Some(u) => github_slug(trim(u@)),
            None => None,
        },
{
    match remote_url {
        Some(u) => {
            let t = string_of(&trim_chars(&chars_of(u)));
            parse_github_url(t.as_str())
        },
        None => None,
    }
}

/// The commit described by `git show --format=%H<US>%h<US>%an`: exactly three
/// fields separated by the unit separator.
pub open spec fn commit_fields(out: Seq<char>) -> Option<(Seq<char>, Seq<char>, Seq<char>)> {
    let parts = split(trim(out), seq!['\u{1f}']);
    if parts.len() == 3 {
        Some((parts[0], parts[1], parts[2]))
    } else {
        None
    }
}

/// Read the commit that `git show --no-patch --format=%H<US>%h<US>%an` printed.
pub fn parse_commit_info(output: &str) -> (r: Option<CommitInfo>)
    ensures
        match commit_fields(output@) {
            Some((a, b, c)) => r matches Some(ci) && ci.sha@ == a && ci.short_sha@ == b
                && ci.author_name@ == c,
            None => r is None,
        },
{
    let t = trim_chars(&chars_of(output));
    let us = vec!['\u{1f}'];
    assert(us@ =~= seq!['\u{1f}']);
    let parts = split_exec(&t, &us);
    let ghost p = views(parts@);
    if parts.len() != 3 {
        return None;
    }
    assert(p[0] == parts@[0]@ && p[1] == parts@[1]@ && p[2] == parts@[2]@);
    Some(
        CommitInfo {
            sha: string_of(&parts[0]),
            short_sha: string_of(&parts[1]),
            author_name: string_of(&parts[2]),
        },
    )
}

/// The commit prefix: a link to the commit when the repository is known,
/// else the short hash; nothing without a commit.
pub open spec fn commit_prefix(commit: Option<CommitInfo>, repo_slug: Option<Seq<char>>) -> Seq<
    char,
> {
    match commit {
        Some(c) => match repo_slug {
            Some(slug) => "["@ + c.short_sha@ + "](https://github.com/"@ + slug + "/commit/"@
                + c.sha@ + ") "@,
            None => c.short_sha@ + " "@,
        },
        None => seq![],
    }
}

/// Build the commit prefix for an enriched message.
pub fn build_commit_prefix(commit: &Option<CommitInfo>, repo_slug: Option<&str>) -> (r: String)
    ensures
        r@ == commit_prefix(*commit, opt_str_ref(repo_slug)),
{
    match commit {
        Some(c) => match repo_slug {
            Some(slug) => {
                let mut out = join3("[", c.short_sha.as_str(), "](https://github.com/");
                out.append(slug);
                out.append("/commit/");
                out.append(c.sha.as_str());
                out.append(") ");
                out
            },
            None => join2(c.short_sha.as_str(), " "),
        },
        None => String::new(),
    }
}

/// The acknowledgment: thanks to the GitHub account when one is known (with
/// a note on a first contribution), else to the git author; nothing without a commit.
pub open spec fn acknowledgment(commit: Option<CommitInfo>, user: Option<GitHubUserInfo>) -> Seq<
    char,
> {
    match commit {
        Some(c) => match user {
            Some(u) => if u.is_first_contribution {
                " — Thanks @"@ + u.login@ + " for your first contribution 🎉!"@
            } else {
                " — Thanks @"@ + u.login@ + "!"@
            },
            None => " — Thanks "@ + c.author_name@ + "!"@,
        },
        None => seq![],
    }
}

/// Build the acknowledgment suffix from the commit and the GitHub account
/// found for it, if any.
pub fn build_acknowledgment_suffix(commit: &Option<CommitInfo>, github_user: &Option<
    GitHubUserInfo,
>) -> (r: String)
    ensures
        r@ == acknowledgment(*commit, *github_user),
{
    match commit {
        Some(c) => match github_user {
            Some(u) => if u.is_first_contribution {
                join3(" — Thanks @", u.login.as_str(), " for your first contribution 🎉!")
            } else {
                join3(" — Thanks @", u.login.as_str(), "!")
            },
            None => join3(" — Thanks ", c.author_name.as_str(), "!"),
        },
        None => String::new(),
    }
}

/// The enriched message: prefix, message, suffix.
pub fn format_enriched_message(message: &str, commit_prefix: &str, acknowledgment_suffix: &str) -> (r:
    String)
    ensures
        r@ == commit_prefix@ + message@ + acknowledgment_suffix@,
{
    join3(commit_prefix, message, acknowledgment_suffix)
}

/// Enrich a changeset message with the commit link and the acknowledgment,
/// each only when enabled.
pub fn enrich_message(
    message: &str,
    commit: &Option<CommitInfo>,
    repo_slug: Option<&str>,
    github_user: &Option<GitHubUserInfo>,
    show_commit_hash: bool,
    show_acknowledgments: bool,
) -> (r: String)
    ensures
        r@ == (if show_commit_hash {
            commit_prefix(*commit, opt_str_ref(repo_slug))
        } else {
            seq![]
        }) + message@ + (if show_acknowledgments {
            acknowledgment(*commit, *github_user)
        } else {
            seq![]
        }),
{
    let prefix = if show_commit_hash {
        build_commit_prefix(commit, repo_slug)
    } else {
        String::new()
    };
    let suffix = if show_acknowledgments {
        build_acknowledgment_suffix(commit, github_user)
    } else {
        String::new()
    };
    format_enriched_message(message, prefix.as_str(), suffix.as_str())
}

proof fn lemma_split_nonempty(s: Seq<char>)
    ensures
        split(s, seq!['/']).len() >= 1,
    decreases s.len(),
{
    if s.len() > 0 && !starts_with(s, seq!['/']) {
        lemma_split_nonempty(s.drop_first());
    } else if s.len() > 0 {
        lemma_split_nonempty(s.skip(1));
    }
}

/// A text holding a `/` splits into at least two pieces at `/`.
proof fn lemma_split_at_slash(s: Seq<char>)
    requires
        s.contains('/'),
    ensures
        split(s, seq!['/']).len() >= 2,
    decreases s.len(),
{
    if starts_with(s, seq!['/']) {
        lemma_split_nonempty(s.skip(1));
    } else {
        assert(s[0] != '/') by {
            if s[0] == '/' {
                assert(s.take(1) =~= seq!['/']);
            }
        }
        let i = choose|i: int| 0 <= i < s.len() && s[i] == '/';
        assert(s.drop_first()[i - 1] == '/');
        lemma_split_at_slash(s.drop_first());
    }
}

/// `owner/repo` with `repo` not ending in `.git` does not end in `.git`.
proof fn lemma_slug_no_git(owner: Seq<char>, repo: Seq<char>)
    requires
        !repo.contains('/'),
        !ends_with(repo, ".git"@),
    ensures
        !ends_with(owner + seq!['/'] + repo, ".git"@),
        strip_suffix(owner + seq!['/'] + repo, ".git"@) is None,
{
    reveal_strlit(".git");
    let s = owner + seq!['/'] + repo;
    if ends_with(s, ".git"@) {
        if repo.len() >= 4 {
            assert(repo.skip(repo.len() - 4) =~= s.skip(s.len() - 4));
        } else {
            let j = owner.len() - (s.len() - 4);
            assert(s[owner.len() as int] == '/');
            assert(s.skip(s.len() - 4)[j] == '/');
        }
    }
}

/// The slug after `prefix` in `prefix + owner/repo`, with or without a final
/// `.git`.
proof fn lemma_slug_after_prefix(prefix: Seq<char>, owner: Seq<char>, repo: Seq<char>, git: bool)
    requires
        !repo.contains('/'),
        !ends_with(repo, ".git"@),
    ensures
        slug_after(
            prefix + (owner + seq!['/'] + repo) + (if git {
                ".git"@
            } else {
                seq![]
            }),
            prefix,
        ) == Some(owner + seq!['/'] + repo),
{
    reveal_strlit(".git");
    let s = owner + seq!['/'] + repo;
    let tail = if git {
        ".git"@
    } else {
        seq![]
    };
    let url = prefix + s + tail;
    assert(url.take(prefix.len() as int) =~= prefix);
    assert(url.skip(prefix.len() as int) =~= s + tail);
    lemma_slug_no_git(owner, repo);
    if git {
        assert((s + tail).skip((s + tail).len() - 4) =~= ".git"@);
        assert((s + tail).take((s + tail).len() - 4) =~= s);
    } else {
        assert(s + tail =~= s);
    }
    assert(s[owner.len() as int] == '/');
    lemma_split_at_slash(s);
}

/// Every GitHub remote of the repository `owner/repo` (`owner` and `repo`
/// without `/`, `repo` not ending in `.git`), in HTTPS or SSH form, with or
/// without a final `.git`, gives the slug `owner/repo`.
pub proof fn law_github_remote_forms(owner: Seq<char>, repo: Seq<char>)
    requires
        !owner.contains('/'),
        !repo.contains('/'),
        !ends_with(repo, ".git"@),
    ensures
        ({
            let s = owner + "/"@ + repo;
            &&& github_slug("https://github.com/"@ + s) == Some(s)
            &&& github_slug("https://github.com/"@ + s + ".git"@) == Some(s)
            &&& github_slug("git@github.com:"@ + s) == Some(s)
            &&& github_slug("git@github.com:"@ + s + ".git"@) == Some(s)
        }),
{
    reveal_strlit("/");
    reveal_strlit("https://github.com/");
    reveal_strlit("git@github.com:");
    let s = owner + seq!['/'] + repo;
    assert("/"@ =~= seq!['/']);
    let h = "https://github.com/"@;
    let g = "git@github.com:"@;
    lemma_slug_after_prefix(h, owner, repo, false);
    lemma_slug_after_prefix(h, owner, repo, true);
    lemma_slug_after_prefix(g, owner, repo, false);
    lemma_slug_after_prefix(g, owner, repo, true);
    assert(h + s + seq![] =~= h + s);
    assert(g + s + seq![] =~= g + s);
    assert(!starts_with(g + s, h)) by {
        if starts_with(g + s, h) {
            assert((g + s).take(h.len() as int)[0] == (g + s)[0]);
        }
    }
    assert(!starts_with(g + s + ".git"@, h)) by {
        if starts_with(g + s + ".git"@, h) {
            assert((g + s + ".git"@).take(h.len() as int)[0] == (g + s + ".git"@)[0]);
        }
    }
}

/// A remote that starts neither with `https://github.com/` nor with
/// `git@github.com:` gives no slug.
pub proof fn law_other_remotes_give_no_slug(url: Seq<char>)
    requires
        !starts_with(url, "https://github.com/"@),
        !starts_with(url, "git@github.com:"@),
    ensures
        github_slug(url) is None,
{
}

} // verus!
