//! Workspace configuration: release branches and git tag names.
use crate::semantic::{parse_semver, semver_version};
use crate::sorted::{insert_sorted, strictly_sorted, strs};
use crate::text::{
    chars_eq, chars_of, contains, join2, join3, occurs_at, occurs_at_exec, owned, slice, string_of,
};
use vstd::prelude::*;

verus! {

/// Configuration for release management.
#[derive(Debug)]
pub struct Config {
    pub version: u64,
    pub github_repository: Option<String>,
    pub changelog_show_commit_hash: bool,
    pub changelog_show_acknowledgments: bool,
    pub changelog_show_release_date: bool,
    pub changelog_release_date_format: String,
    pub changelog_release_date_timezone: Option<String>,
    /// Custom tags for changelog categorization (e.g. "Added", "Fixed").
    pub changesets_tags: Vec<String>,
    pub fixed_dependencies: Vec<Vec<String>>,
    pub linked_dependencies: Vec<Vec<String>>,
    pub ignore_unpublished: bool,
    pub ignore: Vec<String>,
    pub git_default_branch: Option<String>,
    pub git_release_branches: Vec<String>,
    /// The package that uses short tags (`v{version}`).
    pub git_short_tags: Option<String>,
}

impl Default for Config {
    fn default() -> (r: Self)
        ensures
            r.version == 1,
            r.github_repository is None,
            r.changelog_show_commit_hash,
            r.changelog_show_acknowledgments,
            r.changelog_show_release_date,
            r.changelog_release_date_format@ == "%Y-%m-%d"@,
            r.changelog_release_date_timezone is None,
            r.changesets_tags@.len() == 0,
            r.fixed_dependencies@.len() == 0,
            r.linked_dependencies@.len() == 0,
            !r.ignore_unpublished,
            r.ignore@.len() == 0,
            r.git_default_branch is None,
            r.git_release_branches@.len() == 0,
            r.git_short_tags is None,
    {
        Config {
            version: 1,
            github_repository: None,
            changelog_show_commit_hash: true,
            changelog_show_acknowledgments: true,
            changelog_show_release_date: true,
            changelog_release_date_format: owned("%Y-%m-%d"),
            changelog_release_date_timezone: None,
            changesets_tags: Vec::new(),
            fixed_dependencies: Vec::new(),
            linked_dependencies: Vec::new(),
            ignore_unpublished: false,
            ignore: Vec::new(),
            git_default_branch: None,
            git_release_branches: Vec::new(),
            git_short_tags: None,
        }
    }
}

/// The default branch: the configured one, else `main`.
pub open spec fn default_branch_of(c: Config) -> Seq<char> {
    match c.git_default_branch {
        Some(b) => b@,
        None => "main"@,
    }
}

/// The release branches: the default branch and every non-empty configured one.
pub open spec fn release_branch_set(c: Config) -> Set<Seq<char>> {
    strs(c.git_release_branches@).to_set().filter(|b: Seq<char>| b.len() > 0).insert(
        default_branch_of(c),
    )
}

/// `s` without all its leading `c`s.
pub open spec fn strip_leading(s: Seq<char>, c: char) -> Seq<char>
    decreases s.len(),
{
    if s.len() > 0 && s[0] == c {
        strip_leading(s.drop_first(), c)
    } else {
        s
    }
}

/// The first split at a `-v` at or after `i` with a non-empty name before it
/// and a semantic version after it.
pub open spec fn split_tag_from(tag: Seq<char>, i: int) -> Option<(Seq<char>, Seq<char>)>
    decreases tag.len() - i,
{
    if i < 0 || i + 2 > tag.len() {
        None
    } else if occurs_at(tag, seq!['-', 'v'], i) && i > 0 && i + 2 < tag.len() && semver_version(
        tag.skip(i + 2),
    ) is Ok {
        Some((tag.take(i), tag.skip(i + 2)))
    } else {
        split_tag_from(tag, i + 1)
    }
}

/// What a tag names: `(package, version)`.
pub open spec fn parsed_tag(short: Option<String>, tag: Seq<char>) -> Option<(Seq<char>, Seq<char>)> {
    let v = strip_leading(tag, 'v');
    match short {
        Some(p) if tag.len() > 0 && tag[0] == 'v' && semver_version(v) is Ok => Some((p@, v)),
        _ => split_tag_from(tag, 0),
    }
}

/// The tag of `version` of `package`: `v{version}` for the short-tag
/// package, `{package}-v{version}` otherwise.
pub open spec fn tag_name(short: Option<String>, package: Seq<char>, version: Seq<char>) -> Seq<
    char,
> {
    if short matches Some(p) && p@ == package {
        "v"@ + version
    } else {
        package + "-v"@ + version
    }
}

pub open spec fn opt_pair_view(o: Option<(String, String)>) -> Option<(Seq<char>, Seq<char>)> {
    match o {
        Some(p) => Some((p.0@, p.1@)),
        None => None,
    }
}

impl Config {
    /// The default branch: the configured one, else `main`.
    pub fn default_branch(&self) -> (r: &str)
        ensures
            r@ == default_branch_of(*self),
    {
        match &self.git_default_branch {
            Some(b) => b.as_str(),
            None => "main",
        }
    }

    /// The release branches, sorted and without duplicates.
    pub fn release_branches(&self) -> (r: Vec<String>)
        ensures
            strictly_sorted(strs(r@)),
            strs(r@).to_set() == release_branch_set(*self),
    {
        let mut branches: Vec<String> = Vec::new();
        assert(strs(branches@).to_set() =~= Set::empty());
        insert_sorted(&mut branches, owned(self.default_branch()));
        let ghost d = default_branch_of(*self);
        let ghost names = strs(self.git_release_branches@);
        let mut i: usize = 0;
        while i < self.git_release_branches.len()
            invariant
                i <= self.git_release_branches.len(),
                names == strs(self.git_release_branches@),
                d == default_branch_of(*self),
                strictly_sorted(strs(branches@)),
                strs(branches@).to_set() == names.take(i as int).to_set().filter(
                    |b: Seq<char>| b.len() > 0,
                ).insert(d),
            decreases self.git_release_branches.len() - i,
        {
            let name = &self.git_release_branches[i];
            let ghost before = strs(branches@).to_set();
            assert(names.take(i + 1) =~= names.take(i as int).push(name@));
            assert(names.take(i + 1).to_set() =~= names.take(i as int).to_set().insert(name@)) by {
                names.take(i as int).lemma_push_to_set_commute(name@);
            }
            if chars_of(name.as_str()).len() > 0 {
                insert_sorted(&mut branches, owned(name.as_str()));
                assert(strs(branches@).to_set() =~= names.take(i + 1).to_set().filter(
                    |b: Seq<char>| b.len() > 0,
                ).insert(d));
            } else {
                assert(name@.len() == 0);
                assert(names.take(i + 1).to_set().filter(|b: Seq<char>| b.len() > 0) =~= names.take(
                    i as int,
                ).to_set().filter(|b: Seq<char>| b.len() > 0));
            }
            i += 1;
        }
        assert(names.take(i as int) =~= names);
        branches
    }

    /// Whether `branch` is one of the release branches.
    pub fn is_release_branch(&self, branch: &str) -> (r: bool)
        ensures
            r == release_branch_set(*self).contains(branch@),
    {
        let branches = self.release_branches();
        let b = chars_of(branch);
        let mut i: usize = 0;
        while i < branches.len()
            invariant
                i <= branches.len(),
                b@ == branch@,
                strs(branches@).to_set() == release_branch_set(*self),
                forall|j: int| 0 <= j < i ==> strs(branches@)[j] != branch@,
            decreases branches.len() - i,
        {
            if chars_eq(&chars_of(branches[i].as_str()), &b) {
                assert(strs(branches@)[i as int] == branch@);
                assert(strs(branches@).contains(branch@));
                return true;
            }
            i += 1;
        }
        assert(!strs(branches@).contains(branch@));
        false
    }

    /// Whether `package_name` uses the short tag format (`v{version}`).
    pub fn uses_short_tags(&self, package_name: &str) -> (r: bool)
        ensures
            r == (self.git_short_tags matches Some(p) && p@ == package_name@),
    {
        match &self.git_short_tags {
            Some(p) => chars_eq(&chars_of(p.as_str()), &chars_of(package_name)),
            None => false,
        }
    }

    /// The git tag name for `version` of `package_name`.
    pub fn build_tag_name(&self, package_name: &str, version: &str) -> (r: String)
        ensures
            r@ == tag_name(self.git_short_tags, package_name@, version@),
    {
        if self.uses_short_tags(package_name) {
            join2("v", version)
        } else {
            join3(package_name, "-v", version)
        }
    }

    /// Read a tag as `(package, version)`.
    pub fn parse_tag(&self, tag: &str) -> (r: Option<(String, String)>)
        ensures
            opt_pair_view(r) == parsed_tag(self.git_short_tags, tag@),
    {
        let t = chars_of(tag);
        if let Some(p) = &self.git_short_tags {
            if t.len() > 0 && t[0] == 'v' {
                let mut k: usize = 0;
                assert(t@.skip(0) =~= t@);
                while k < t.len() && t[k] == 'v'
                    invariant
                        k <= t.len(),
                        strip_leading(t@, 'v') == strip_leading(t@.skip(k as int), 'v'),
                    decreases t.len() - k,
                {
                    assert(t@.skip(k as int).drop_first() =~= t@.skip(k + 1));
                    k += 1;
                }
                let rest = slice(&t, k, t.len());
                assert(rest@ =~= t@.skip(k as int));
                assert(strip_leading(t@.skip(k as int), 'v') == t@.skip(k as int));
                let vs = string_of(&rest);
                if parse_semver(vs.as_str()).is_ok() {
                    return Some((owned(p.as_str()), vs));
                }
            }
        }
        let dash_v = vec!['-', 'v'];
        assert(dash_v@ =~= seq!['-', 'v']);
        let mut i: usize = 0;
        while i < t.len() && t.len() - i >= 2
            invariant
                t@ == tag@,
                dash_v@ == seq!['-', 'v'],
                parsed_tag(self.git_short_tags, tag@) == split_tag_from(t@, i as int),
            decreases t.len() - i,
        {
            if occurs_at_exec(&t, &dash_v, i) && i > 0 && i + 2 < t.len() {
                let rest = slice(&t, i + 2, t.len());
                assert(rest@ =~= t@.skip(i + 2));
                let vs = string_of(&rest);
                if parse_semver(vs.as_str()).is_ok() {
                    let head = slice(&t, 0, i);
                    assert(head@ =~= t@.take(i as int));
                    return Some((string_of(&head), vs));
                }
            }
            i += 1;
        }
        None
    }
}

proof fn lemma_no_split_before(tag: Seq<char>, i: int, n: int)
    requires
        0 <= i <= n,
        n + 2 <= tag.len(),
        forall|j: int| i <= j < n ==> !occurs_at(tag, seq!['-', 'v'], j),
    ensures
        split_tag_from(tag, i) == split_tag_from(tag, n),
    decreases n - i,
{
    if i < n {
        lemma_no_split_before(tag, i + 1, n);
    }
}

/// The tag of any version of the short-tag package reads back as that package
/// and version (a version `semver` accepts begins with a digit).
pub proof fn law_short_tag_roundtrip(cfg: Config, version: Seq<char>)
    requires
        cfg.git_short_tags is Some,
        semver_version(version) is Ok,
        version.len() > 0,
        '0' <= version[0] <= '9',
    ensures
        ({
            let p = cfg.git_short_tags->0@;
            parsed_tag(cfg.git_short_tags, tag_name(cfg.git_short_tags, p, version)) == Some(
                (p, version),
            )
        }),
{
    let p = cfg.git_short_tags->0@;
    reveal_strlit("v");
    let tag = "v"@ + version;
    assert(tag_name(cfg.git_short_tags, p, version) == tag);
    assert(tag.drop_first() =~= version);
    assert(strip_leading(tag, 'v') == strip_leading(version, 'v'));
    assert(strip_leading(version, 'v') == version);
}

/// Without short tags, the tag of a version of a package whose name holds no
/// `-v` reads back as that package and version.
pub proof fn law_tag_roundtrip(cfg: Config, package: Seq<char>, version: Seq<char>)
    requires
        cfg.git_short_tags is None,
        package.len() > 0,
        !contains(package, seq!['-', 'v']),
        semver_version(version) is Ok,
        version.len() > 0,
    ensures
        parsed_tag(cfg.git_short_tags, tag_name(cfg.git_short_tags, package, version)) == Some(
            (package, version),
        ),
{
    reveal_strlit("-v");
    let tag = package + "-v"@ + version;
    let n = package.len() as int;
    assert(tag_name(cfg.git_short_tags, package, version) == tag);
    assert forall|j: int| 0 <= j < n implies !occurs_at(tag, seq!['-', 'v'], j) by {
        if occurs_at(tag, seq!['-', 'v'], j) {
            if j + 2 <= n {
                assert(package.subrange(j, j + 2) =~= tag.subrange(j, j + 2));
                assert(occurs_at(package, seq!['-', 'v'], j));
            } else {
                assert(tag[j + 1] == '-');
                assert(tag.subrange(j, j + 2)[1] == 'v');
            }
        }
    }
    lemma_no_split_before(tag, 0, n);
    assert(tag.subrange(n, n + 2) =~= seq!['-', 'v']);
    assert(tag.skip(n + 2) =~= version);
    assert(tag.take(n) =~= package);
}

} // verus!
