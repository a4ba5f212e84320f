//! Maven coordinates, registry locations, publishing arguments and
//! dependency references.
use crate::npm::{flag_given, has_flag};
use crate::publish::arg_views;
use crate::errors::SampoError;
use crate::text::{
    chars_of, contains, contains_exec, find, find_exec, join3, owned, slice, starts_with,
    starts_with_exec, string_of, trim, trim_chars,
};
use crate::types::{identifier_of, CheckOutcome, ConstraintCheckResult, PackageInfo, PackageKind};
use crate::text::{chars_eq, ends_with, ends_with_exec, join2, trimmed};
use vstd::prelude::*;
use vstd::string::StringExecFns;

verus! {

/// The coordinates in `groupId/artifactId`, split at the first `/`, when
/// both parts are non-empty.
pub open spec fn coordinates(name: Seq<char>) -> Option<(Seq<char>, Seq<char>)> {
    match find(name, seq!['/']) {
        Some(i) => if i > 0 && i + 1 < name.len() {
            Some((name.take(i), name.skip(i + 1)))
        } else {
            None
        },
        None => None,
    }
}

/// Split a Maven package name (`groupId/artifactId`) into its coordinates.
pub fn split_coordinates(name: &str) -> (r: Result<(String, String), SampoError>)
    ensures
        match coordinates(name@) {
            Some((g, a)) => r matches Ok(p) && p.0@ == g && p.1@ == a,
            None => r matches Err(SampoError::Publish(m)) && m@ == "Invalid Maven package name '"@
                + name@ + "': expected 'groupId/artifactId'"@,
        },
{
    let n = chars_of(name);
    let slash = vec!['/'];
    assert(slash@ =~= seq!['/']);
    match find_exec(&n, &slash) {
        Some(i) => {
            proof {
                crate::text::lemma_find(n@, slash@);
            }
            if i > 0 && i < n.len() - 1 {
                let g = slice(&n, 0, i);
                let a = slice(&n, i + 1, n.len());
                assert(g@ =~= n@.take(i as int) && a@ =~= n@.skip(i + 1));
                return Ok((string_of(&g), string_of(&a)));
            }
        },
        None => {},
    }
    Err(
        SampoError::Publish(
            join3("Invalid Maven package name '", name, "': expected 'groupId/artifactId'"),
        ),
    )
}

/// `s` with every `.` written as `/`.
pub open spec fn dots_to_slashes(s: Seq<char>) -> Seq<char> {
    s.map_values(|c: char| if c == '.' { '/' } else { c })
}

/// The URL of a release's POM on Maven Central.
pub open spec fn pom_url(group: Seq<char>, artifact: Seq<char>, version: Seq<char>) -> Seq<char> {
    "https://repo1.maven.org/maven2/"@ + dots_to_slashes(group) + "/"@ + artifact + "/"@ + version
        + "/"@ + artifact + "-"@ + version + ".pom"@
}

/// The public URL of a release's POM on Maven Central.
pub fn registry_url(group_id: &str, artifact_id: &str, version: &str) -> (r: String)
    ensures
        r@ == pom_url(group_id@, artifact_id@, version@),
{
    let g = chars_of(group_id);
    let mut path: Vec<char> = Vec::new();
    let mut i: usize = 0;
    while i < g.len()
        invariant
            i <= g.len(),
            path@ == dots_to_slashes(g@.take(i as int)),
        decreases g.len() - i,
    {
        assert(g@.take(i + 1) =~= g@.take(i as int).push(g@[i as int]));
        path.push(if g[i] == '.' {
            '/'
        } else {
            g[i]
        });
        assert(dots_to_slashes(g@.take(i + 1)) =~= dots_to_slashes(g@.take(i as int)).push(
            if g@[i as int] == '.' {
                '/'
            } else {
                g@[i as int]
            },
        ));
        i += 1;
    }
    assert(g@.take(g.len() as int) =~= g@);
    let p = string_of(&path);
    let mut out = join3("https://repo1.maven.org/maven2/", p.as_str(), "/");
    out.append(artifact_id);
    out.append("/");
    out.append(version);
    out.append("/");
    out.append(artifact_id);
    out.append("-");
    out.append(version);
    out.append(".pom");
    out
}

/// Whether a repository URL points at Maven Central.
pub open spec fn central_url(url: Seq<char>) -> bool {
    let t = trim(url);
    contains(t, "sonatype."@) || contains(t, "repo.maven.apache.org"@) || contains(
        t,
        "repo1.maven.org"@,
    )
}

pub fn is_central_url(url: &str) -> (r: bool)
    ensures
        r == central_url(url@),
{
    let t = trim_chars(&chars_of(url));
    contains_exec(&t, &chars_of("sonatype.")) || contains_exec(&t, &chars_of("repo.maven.apache.org"))
        || contains_exec(&t, &chars_of("repo1.maven.org"))
}

/// The arguments of `mvn` to publish: batch and non-recursive modes unless
/// the user set them, `verify` for a dry run and `deploy` otherwise, then the
/// user's arguments.
pub open spec fn maven_publish_args(dry_run: bool, extra: Seq<String>) -> Seq<Seq<char>> {
    (if !flag_given(extra, "--batch-mode"@) && !flag_given(extra, "-B"@) {
        seq!["--batch-mode"@]
    } else {
        seq![]
    }) + (if !flag_given(extra, "--non-recursive"@) && !flag_given(extra, "-N"@) {
        seq!["--non-recursive"@]
    } else {
        seq![]
    }) + seq![
        if dry_run {
            "verify"@
        } else {
            "deploy"@
        },
    ] + arg_views(extra)
}

/// The arguments to run `mvn` with to publish a package.
pub fn publish_args(dry_run: bool, extra_args: &[String]) -> (r: Vec<String>)
    ensures
        arg_views(r@) == maven_publish_args(dry_run, extra_args@),
{
    let mut args: Vec<String> = Vec::new();
    if !has_flag(extra_args, "--batch-mode") && !has_flag(extra_args, "-B") {
        args.push(owned("--batch-mode"));
    }
    let ghost a = (if !flag_given(extra_args@, "--batch-mode"@) && !flag_given(
        extra_args@,
        "-B"@,
    ) {
        seq!["--batch-mode"@]
    } else {
        seq![]
    });
    assert(arg_views(args@) =~= a);
    if !has_flag(extra_args, "--non-recursive") && !has_flag(extra_args, "-N") {
        args.push(owned("--non-recursive"));
    }
    let ghost b = a + (if !flag_given(extra_args@, "--non-recursive"@) && !flag_given(
        extra_args@,
        "-N"@,
    ) {
        seq!["--non-recursive"@]
    } else {
        seq![]
    });
    assert(arg_views(args@) =~= b);
    args.push(
        if dry_run {
            owned("verify")
        } else {
            owned("deploy")
        },
    );
    let ghost c = b + seq![
        if dry_run {
            "verify"@
        } else {
            "deploy"@
        },
    ];
    assert(arg_views(args@) =~= c);
    let mut i: usize = 0;
    while i < extra_args.len()
        invariant
            i <= extra_args.len(),
            arg_views(args@) == c + arg_views(extra_args@.take(i as int)),
        decreases extra_args.len() - i,
    {
        let ghost before = args@;
        args.push(owned(extra_args[i].as_str()));
        assert(arg_views(extra_args@.take(i + 1)) =~= arg_views(extra_args@.take(i as int)).push(
            extra_args@[i as int]@,
        ));
        assert(arg_views(args@) =~= arg_views(before).push(extra_args@[i as int]@));
        i += 1;
    }
    assert(extra_args@.take(extra_args.len() as int) =~= extra_args@);
    args
}

/// How a dependency's `<version>` in a POM is treated: other properties are
/// left for review, the project-version properties track the dependent, ranges
/// and plain versions are left alone.
pub open spec fn maven_check(dep_name: Seq<char>, value: Option<Seq<char>>) -> CheckOutcome {
    match value {
        None => CheckOutcome::Skipped {
            reason: "dependency '"@ + dep_name + "' not found in manifest"@,
        },
        Some(v) => {
            let t = trim(v);
            let tracks = t == "${project.version}"@ || t == "${pom.version}"@ || t == "${version}"@;
            if contains(t, "${"@) && !tracks {
                CheckOutcome::Unverifiable { constraint: t }
            } else if contains(t, "${"@) {
                CheckOutcome::Skipped { reason: "tracks the project version"@ }
            } else if starts_with(t, "["@) || starts_with(t, "("@) {
                CheckOutcome::Skipped { reason: "version range"@ }
            } else {
                CheckOutcome::Skipped { reason: "pinned version"@ }
            }
        },
    }
}

/// Check a dependency's `<version>` value (absent when the POM does not name
/// the dependency).
pub fn check_dependency_constraint(dep_name: &str, value: Option<&str>) -> (r: ConstraintCheckResult)
    ensures
        r@ == maven_check(dep_name@, crate::hex::opt_view(value)),
{
    let v = match value {
        Some(v) => v,
        None => {
            return ConstraintCheckResult::Skipped {
                reason: join3("dependency '", dep_name, "' not found in manifest"),
            };
        },
    };
    let t = trim_chars(&chars_of(v));
    let tracks = crate::text::chars_eq(&t, &chars_of("${project.version}"))
        || crate::text::chars_eq(&t, &chars_of("${pom.version}"))
        || crate::text::chars_eq(&t, &chars_of("${version}"));
    let has_property = contains_exec(&t, &chars_of("${"));
    if has_property && !tracks {
        return ConstraintCheckResult::Unverifiable { constraint: string_of(&t) };
    }
    if has_property {
        return ConstraintCheckResult::Skipped { reason: owned("tracks the project version") };
    }
    if starts_with_exec(&t, &chars_of("[")) || starts_with_exec(&t, &chars_of("(")) {
        return ConstraintCheckResult::Skipped { reason: owned("version range") };
    }
    ConstraintCheckResult::Skipped { reason: owned("pinned version") }
}

/// How a module's `<version>` relates to its `<parent>`: whether it
/// inherits the parent's version, and the parent's `group/artifact` key when
/// both of its coordinates are written out.
#[derive(Debug, Clone)]
pub struct VersionLink {
    pub inherits: bool,
    pub parent_key: Option<String>,
}

/// A version whose trimmed text ends in `-SNAPSHOT`.
pub open spec fn is_snapshot(v: Seq<char>) -> bool {
    ends_with(trim(v), "-SNAPSHOT"@)
}

/// Whether `version` is a Maven snapshot.
pub fn is_snapshot_version(version: &str) -> (r: bool)
    ensures
        r == is_snapshot(version@),
{
    ends_with_exec(&trimmed(version), &chars_of("-SNAPSHOT"))
}

/// What a `<version>` text says about managing a module's version.
#[derive(Debug, Clone, PartialEq, Eq)]
pub enum EffectiveVersion {
    /// No version is written.
    Absent,
    /// A version Sampo cannot manage, with the reason.
    Unmanageable(String, String),
    /// A literal version.
    Static(String),
}

/// The classification of a `<version>` text: absent when blank, unmanageable
/// when it holds a property reference or is a snapshot, else static.
pub open spec fn version_class(raw: Seq<char>) -> (u8, Seq<char>, Seq<char>) {
    let t = trim(raw);
    if t.len() == 0 {
        (0, seq![], seq![])
    } else if contains(t, "${"@) {
        (1, t, "is resolved at build time; pin a static <version> for Sampo to manage it"@)
    } else if ends_with(t, "-SNAPSHOT"@) {
        (1, t, "is a -SNAPSHOT; Sampo manages static release versions, remove the suffix for Sampo to manage it"@)
    } else {
        (2, t, seq![])
    }
}

/// An effective version as the triple `version_class` gives.
pub open spec fn class_view(e: EffectiveVersion) -> (u8, Seq<char>, Seq<char>) {
    match e {
        EffectiveVersion::Absent => (0, seq![], seq![]),
        EffectiveVersion::Unmanageable(v, why) => (1, v@, why@),
        EffectiveVersion::Static(v) => (2, v@, seq![]),
    }
}

/// Classify a `<version>` text.
pub fn classify_version(raw: &str) -> (r: EffectiveVersion)
    ensures
        class_view(r) == version_class(raw@),
{
    let t = trimmed(raw);
    if t.len() == 0 {
        return EffectiveVersion::Absent;
    }
    if contains_exec(&t, &chars_of("${")) {
        return EffectiveVersion::Unmanageable(
            string_of(&t),
            owned("is resolved at build time; pin a static <version> for Sampo to manage it"),
        );
    }
    if ends_with_exec(&t, &chars_of("-SNAPSHOT")) {
        return EffectiveVersion::Unmanageable(
            string_of(&t),
            owned("is a -SNAPSHOT; Sampo manages static release versions, remove the suffix for Sampo to manage it"),
        );
    }
    EffectiveVersion::Static(string_of(&t))
}

/// A value Sampo can write over: not blank, no property reference, no version range.
pub open spec fn static_version(value: Seq<char>) -> bool {
    let t = trim(value);
    t.len() > 0 && !contains(t, "${"@) && !starts_with(t, "["@) && !starts_with(t, "("@)
}

/// Whether a dependency version is a literal Sampo can rewrite.
pub fn is_static_version(value: &str) -> (r: bool)
    ensures
        r == static_version(value@),
{
    let t = trimmed(value);
    t.len() > 0 && !contains_exec(&t, &chars_of("${")) && !starts_with_exec(&t, &chars_of("["))
        && !starts_with_exec(&t, &chars_of("("))
}

/// The first entry of the plan keyed `id`, from position `i` on.
pub open spec fn planned_from(plan: Seq<(Seq<char>, Seq<char>)>, id: Seq<char>, i: int) -> Option<Seq<char>>
    decreases plan.len() - i,
{
    if i < 0 || i >= plan.len() {
        None
    } else if plan[i].0 == id {
        Some(plan[i].1)
    } else {
        planned_from(plan, id, i + 1)
    }
}

/// The version planned for `id`.
pub open spec fn planned(plan: Seq<(Seq<char>, Seq<char>)>, id: Seq<char>) -> Option<Seq<char>> {
    planned_from(plan, id, 0)
}

fn planned_version(plan: &[(String, String)], id: &str) -> (r: Option<String>)
    ensures
        match planned(crate::pip::entry_views(plan@), id@) {
            Some(v) => r matches Some(x) && x@ == v,
            None => r is None,
        },
{
    let ghost pv = crate::pip::entry_views(plan@);
    let key = chars_of(id);
    let mut i: usize = 0;
    while i < plan.len()
        invariant
            i <= plan.len(),
            pv == crate::pip::entry_views(plan@),
            key@ == id@,
            planned(pv, id@) == planned_from(pv, id@, i as int),
        decreases plan.len() - i,
    {
        assert(pv[i as int] == (plan@[i as int].0@, plan@[i as int].1@));
        if chars_eq(&chars_of(plan[i].0.as_str()), &key) {
            return Some(owned(plan[i].1.as_str()));
        }
        i += 1;
    }
    None
}

/// The snapshot message for member `name` planned at `target`.
pub open spec fn snapshot_message(name: Seq<char>, target: Seq<char>) -> Seq<char> {
    "'"@ + name + "' would be versioned "@ + target
        + "; Sampo manages static release versions and has no snapshot cycle, use a pre-release identifier like alpha, beta or rc instead of SNAPSHOT"@
}

/// The first Maven member, from position `i` on, planned at a snapshot version.
pub open spec fn first_snapshot(members: Seq<PackageInfo>, plan: Seq<(Seq<char>, Seq<char>)>, i: int) -> Option<int>
    decreases members.len() - i,
{
    if i < 0 || i >= members.len() {
        None
    } else if members[i].kind == PackageKind::Maven && (planned(plan, members[i].identifier@) matches Some(
        t,
    ) && is_snapshot(t)) {
        Some(i)
    } else {
        first_snapshot(members, plan, i + 1)
    }
}

/// The position of the first Maven member named `name`, from position `i` on.
pub open spec fn maven_member_from(members: Seq<PackageInfo>, name: Seq<char>, i: int) -> Option<int>
    decreases members.len() - i,
{
    if i < 0 || i >= members.len() {
        None
    } else if members[i].kind == PackageKind::Maven && members[i].name@ == name {
        Some(i)
    } else {
        maven_member_from(members, name, i + 1)
    }
}

/// What is wrong with the plan for the member at `i` given how its version
/// links to its parent, if anything.
pub open spec fn link_problem(
    members: Seq<PackageInfo>,
    links: Seq<Option<VersionLink>>,
    plan: Seq<(Seq<char>, Seq<char>)>,
    i: int,
) -> Option<Seq<char>> {
    let m = members[i];
    if m.kind != PackageKind::Maven {
        None
    } else {
        match planned(plan, m.identifier@) {
            None => None,
            Some(target) => match links[i] {
                None => None,
                Some(link) => if !link.inherits {
                    None
                } else {
                    match link.parent_key {
                        Some(pk) if maven_member_from(members, pk@, 0) is Some => {
                            let parent = pk@;
                            match planned(plan, identifier_of(PackageKind::Maven, parent)) {
                                Some(pv) => if pv == target {
                                    None
                                } else {
                                    let same = members[maven_member_from(members, parent, 0)->0].version@
                                        == m.version@;
                                    Some(
                                        "'"@ + m.name@ + "' inherits its version from '"@ + parent
                                            + "', but is planned for "@ + target
                                            + " while the parent releases "@ + pv + "; "@ + if same {
                                            "both sit at the same version, so only their planned bumps diverged; declare an explicit <version> to release it independently"@
                                        } else {
                                            "its <parent><version> is out of date, sync it with the parent POM or declare an explicit <version>"@
                                        },
                                    )
                                },
                                None => Some(
                                    "'"@ + m.name@ + "' inherits its version from '"@ + parent
                                        + "', which is not part of this release (unchanged or ignored); release the parent together with it or declare an explicit <version>"@,
                                ),
                            }
                        },
                        _ => Some(
                            "'"@ + m.name@
                                + "' inherits its version from a parent POM outside this workspace; declare an explicit <version> to release it independently"@,
                        ),
                    }
                },
            },
        }
    }
}

/// The first member, from position `i` on, whose plan has a link problem.
pub open spec fn first_link_problem(
    members: Seq<PackageInfo>,
    links: Seq<Option<VersionLink>>,
    plan: Seq<(Seq<char>, Seq<char>)>,
    i: int,
) -> Option<Seq<char>>
    decreases members.len() - i,
{
    if i < 0 || i >= members.len() {
        None
    } else {
        match link_problem(members, links, plan, i) {
            Some(p) => Some(p),
            None => first_link_problem(members, links, plan, i + 1),
        }
    }
}

proof fn lemma_maven_member_range(members: Seq<PackageInfo>, name: Seq<char>, i: int)
    requires
        0 <= i,
    ensures
        maven_member_from(members, name, i) matches Some(k) ==> i <= k < members.len()
            && members[k].kind == PackageKind::Maven && members[k].name@ == name,
    decreases members.len() - i,
{
    if i < members.len() && !(members[i].kind == PackageKind::Maven && members[i].name@ == name) {
        lemma_maven_member_range(members, name, i + 1);
    }
}

fn find_maven_member(members: &[PackageInfo], name: &str) -> (r: Option<usize>)
    ensures
        match maven_member_from(members@, name@, 0) {
            Some(k) => r matches Some(j) && j == k,
            None => r is None,
        },
{
    proof {
        lemma_maven_member_range(members@, name@, 0);
    }
    let key = chars_of(name);
    let mut i: usize = 0;
    while i < members.len()
        invariant
            i <= members.len(),
            key@ == name@,
            maven_member_from(members@, name@, 0) == maven_member_from(members@, name@, i as int),
        decreases members.len() - i,
    {
        if members[i].kind == PackageKind::Maven && chars_eq(&chars_of(members[i].name.as_str()), &key) {
            return Some(i);
        }
        i += 1;
    }
    None
}

fn check_link(
    members: &[PackageInfo],
    links: &[Option<VersionLink>],
    plan: &[(String, String)],
    i: usize,
) -> (r: Option<String>)
    requires
        i < members.len(),
        links.len() == members.len(),
    ensures
        match link_problem(members@, links@, crate::pip::entry_views(plan@), i as int) {
            Some(p) => r matches Some(x) && x@ == p,
            None => r is None,
        },
{
    let m = &members[i];
    if m.kind != PackageKind::Maven {
        return None;
    }
    let target = match planned_version(plan, m.identifier.as_str()) {
        None => {
            return None;
        },
        Some(t) => t,
    };
    let link = match &links[i] {
        None => {
            return None;
        },
        Some(l) => l,
    };
    if !link.inherits {
        return None;
    }
    let parent = match &link.parent_key {
        Some(pk) => match find_maven_member(members, pk.as_str()) {
            Some(_) => pk,
            None => {
                return Some(join3(
                    "'",
                    m.name.as_str(),
                    "' inherits its version from a parent POM outside this workspace; declare an explicit <version> to release it independently",
                ));
            },
        },
        None => {
            return Some(join3(
                "'",
                m.name.as_str(),
                "' inherits its version from a parent POM outside this workspace; declare an explicit <version> to release it independently",
            ));
        },
    };
    let parent_id = PackageInfo::dependency_identifier(PackageKind::Maven, parent.as_str());
    match planned_version(plan, parent_id.as_str()) {
        Some(pv) => {
            if chars_eq(&chars_of(pv.as_str()), &chars_of(target.as_str())) {
                None
            } else {
                proof {
                    lemma_maven_member_range(members@, parent@, 0);
                }
                let k = match find_maven_member(members, parent.as_str()) {
                    Some(k) => k,
                    None => {
                        return None;
                    },
                };
                let same = chars_eq(
                    &chars_of(members[k].version.as_str()),
                    &chars_of(m.version.as_str()),
                );
                let a = join3("'", m.name.as_str(), "' inherits its version from '");
                let b = join3(a.as_str(), parent.as_str(), "', but is planned for ");
                let c = join3(b.as_str(), target.as_str(), " while the parent releases ");
                let d = join3(c.as_str(), pv.as_str(), "; ");
                let tail = if same {
                    "both sit at the same version, so only their planned bumps diverged; declare an explicit <version> to release it independently"
                } else {
                    "its <parent><version> is out of date, sync it with the parent POM or declare an explicit <version>"
                };
                Some(join2(d.as_str(), tail))
            }
        },
        None => {
            let a = join3("'", m.name.as_str(), "' inherits its version from '");
            Some(join3(
                a.as_str(),
                parent.as_str(),
                "', which is not part of this release (unchanged or ignored); release the parent together with it or declare an explicit <version>",
            ))
        },
    }
}

/// Refuse a release plan (identifier, new version) before any manifest is
/// written: when it gives a Maven module a snapshot version, or when a module
/// inheriting its version from its parent would drift from it. `links[i]` is
/// how the version of member `i` links to its parent, when its POM says.
pub fn validate_release_plan(
    members: &[PackageInfo],
    links: &[Option<VersionLink>],
    new_version_by_id: &[(String, String)],
) -> (r: Result<(), SampoError>)
    requires
        links.len() == members.len(),
    ensures
        ({
            let plan = crate::pip::entry_views(new_version_by_id@);
            match first_snapshot(members@, plan, 0) {
                Some(i) => r matches Err(SampoError::Release(m)) && m@ == snapshot_message(
                    members@[i].name@,
                    planned(plan, members@[i].identifier@)->0,
                ),
                None => match first_link_problem(members@, links@, plan, 0) {
                    Some(p) => r matches Err(SampoError::Release(m)) && m@ == p,
                    None => r is Ok,
                },
            }
        }),
{
    let ghost plan = crate::pip::entry_views(new_version_by_id@);
    let mut i: usize = 0;
    while i < members.len()
        invariant
            i <= members.len(),
            plan == crate::pip::entry_views(new_version_by_id@),
            first_snapshot(members@, plan, 0) == first_snapshot(members@, plan, i as int),
        decreases members.len() - i,
    {
        let m = &members[i];
        if m.kind == PackageKind::Maven {
            if let Some(target) = planned_version(new_version_by_id, m.identifier.as_str()) {
                if is_snapshot_version(target.as_str()) {
                    let a = join3("'", m.name.as_str(), "' would be versioned ");
                    return Err(SampoError::Release(join3(
                        a.as_str(),
                        target.as_str(),
                        "; Sampo manages static release versions and has no snapshot cycle, use a pre-release identifier like alpha, beta or rc instead of SNAPSHOT",
                    )));
                }
            }
        }
        i += 1;
    }
    let mut i: usize = 0;
    while i < members.len()
        invariant
            i <= members.len(),
            links.len() == members.len(),
            plan == crate::pip::entry_views(new_version_by_id@),
            first_snapshot(members@, plan, 0) is None,
            first_link_problem(members@, links@, plan, 0) == first_link_problem(members@, links@, plan, i as int),
        decreases members.len() - i,
    {
        if let Some(p) = check_link(members, links, new_version_by_id, i) {
            return Err(SampoError::Release(p));
        }
        i += 1;
    }
    Ok(())
}

/// The `[child, parent]` identifier pairs that must release together: a
/// member inheriting its version from a parent among the members.
pub open spec fn fixed_pairs(members: Seq<PackageInfo>, links: Seq<Option<VersionLink>>, n: int) -> Seq<
    Seq<Seq<char>>,
>
    decreases n,
{
    if n <= 0 || n > members.len() {
        seq![]
    } else {
        let rest = fixed_pairs(members, links, n - 1);
        let m = members[n - 1];
        match links[n - 1] {
            Some(link) => if link.inherits && (link.parent_key matches Some(pk) && exists|j: int|
                0 <= j < members.len() && #[trigger] members[j].name@ == pk@) {
                rest.push(seq![m.identifier@, identifier_of(PackageKind::Maven, link.parent_key->0@)])
            } else {
                rest
            },
            None => rest,
        }
    }
}

fn has_member_named(members: &[PackageInfo], name: &str) -> (r: bool)
    ensures
        r == exists|j: int| 0 <= j < members.len() && #[trigger] members@[j].name@ == name@,
{
    let key = chars_of(name);
    let mut i: usize = 0;
    while i < members.len()
        invariant
            i <= members.len(),
            key@ == name@,
            forall|j: int| 0 <= j < i ==> #[trigger] members@[j].name@ != name@,
        decreases members.len() - i,
    {
        if chars_eq(&chars_of(members[i].name.as_str()), &key) {
            return true;
        }
        i += 1;
    }
    false
}

/// The version-coupling pairs among the members: a module that inherits its
/// `<version>` from a parent among them must release with that parent.
pub fn implicit_fixed_groups(members: &[PackageInfo], links: &[Option<VersionLink>]) -> (r: Vec<Vec<String>>)
    requires
        links.len() == members.len(),
    ensures
        r.len() == fixed_pairs(members@, links@, members.len() as int).len(),
        forall|g: int| 0 <= g < r.len() ==> crate::sorted::strs(#[trigger] r@[g]@) == fixed_pairs(
            members@,
            links@,
            members.len() as int,
        )[g],
{
    let mut groups: Vec<Vec<String>> = Vec::new();
    let mut i: usize = 0;
    while i < members.len()
        invariant
            i <= members.len(),
            links.len() == members.len(),
            groups.len() == fixed_pairs(members@, links@, i as int).len(),
            forall|g: int| 0 <= g < groups.len() ==> crate::sorted::strs(#[trigger] groups@[g]@)
                == fixed_pairs(members@, links@, i as int)[g],
        decreases members.len() - i,
    {
        let ghost before = groups@;
        let ghost prev = fixed_pairs(members@, links@, i as int);
        match &links[i] {
            Some(link) => {
                if link.inherits {
                    if let Some(pk) = &link.parent_key {
                        if has_member_named(members, pk.as_str()) {
                            let pair = vec![
                                owned(members[i].identifier.as_str()),
                                PackageInfo::dependency_identifier(PackageKind::Maven, pk.as_str()),
                            ];
                            let ghost pv = pair@;
                            groups.push(pair);
                            assert(crate::sorted::strs(pv) =~= seq![members@[i as int].identifier@, identifier_of(PackageKind::Maven, pk@)]);
                            assert forall|g: int| 0 <= g < groups.len() implies crate::sorted::strs(
                                #[trigger] groups@[g]@,
                            ) == fixed_pairs(members@, links@, i + 1)[g] by {
                                if g < before.len() {
                                    assert(groups@[g] == before[g]);
                                }
                            }
                        }
                    }
                }
            },
            None => {},
        }
        i += 1;
    }
    groups
}

/// Whether some Maven member is named `name`.
pub open spec fn is_maven_member(members: Seq<PackageInfo>, name: Seq<char>) -> bool {
    exists|j: int| 0 <= j < members.len() && (#[trigger] members[j]).kind == PackageKind::Maven && members[j].name@ == name
}

/// The planned versions, among the first `n`, of Maven members, in order.
pub open spec fn maven_planned(members: Seq<PackageInfo>, plan: Seq<(Seq<char>, Seq<char>)>, n: int) -> Seq<(Seq<char>, Seq<char>)>
    decreases n,
{
    if n <= 0 {
        seq![]
    } else {
        maven_planned(members, plan, n - 1) + if is_maven_member(members, plan[n - 1].0) {
            seq![plan[n - 1]]
        } else {
            Seq::empty()
        }
    }
}

/// The names that have a settled version.
pub open spec fn settled_names(settled: Seq<(Seq<char>, Seq<char>)>) -> Set<Seq<char>> {
    Set::new(|n: Seq<char>| exists|q: int| 0 <= q < settled.len() && (#[trigger] settled[q]).0 == n)
}

/// The version Maven member `i`, not yet settled, takes from its parent:
/// it inherits its version and its parent's is settled.
pub open spec fn inherited_settled(
    members: Seq<PackageInfo>,
    links: Seq<Option<VersionLink>>,
    settled: Seq<(Seq<char>, Seq<char>)>,
    i: int,
) -> Option<Seq<char>> {
    if members[i].kind == PackageKind::Maven && !settled_names(settled).contains(members[i].name@) {
        match links[i] {
            Some(l) => if l.inherits {
                match l.parent_key {
                    Some(k) => planned(settled, k@),
                    None => None,
                }
            } else {
                None
            },
            None => None,
        }
    } else {
        None
    }
}

/// The number of Maven members, among the first `n`, without a settled version.
pub open spec fn unsettled(members: Seq<PackageInfo>, names: Set<Seq<char>>, n: int) -> nat
    decreases n,
{
    if n <= 0 {
        0
    } else {
        unsettled(members, names, n - 1) + if members[n - 1].kind == PackageKind::Maven && !names.contains(
            members[n - 1].name@,
        ) {
            1nat
        } else {
            0nat
        }
    }
}

proof fn lemma_unsettled_insert(members: Seq<PackageInfo>, names: Set<Seq<char>>, x: Seq<char>, i: int, n: int)
    requires
        0 <= i < n <= members.len(),
        members[i].kind == PackageKind::Maven,
        members[i].name@ == x,
        !names.contains(x),
    ensures
        unsettled(members, names.insert(x), n) < unsettled(members, names, n),
    decreases n,
{
    if i < n - 1 {
        lemma_unsettled_insert(members, names, x, i, n - 1);
    } else {
        lemma_unsettled_mono(members, names, x, n - 1);
    }
}

proof fn lemma_unsettled_mono(members: Seq<PackageInfo>, names: Set<Seq<char>>, x: Seq<char>, n: int)
    ensures
        unsettled(members, names.insert(x), n) <= unsettled(members, names, n),
    decreases n,
{
    if n > 0 {
        lemma_unsettled_mono(members, names, x, n - 1);
    }
}

proof fn lemma_settled_push(s: Seq<(Seq<char>, Seq<char>)>, e: (Seq<char>, Seq<char>))
    ensures
        settled_names(s.push(e)) == settled_names(s).insert(e.0),
{
    assert(settled_names(s.push(e)) =~= settled_names(s).insert(e.0)) by {
        assert forall|n: Seq<char>| settled_names(s.push(e)).contains(n) implies settled_names(s).insert(e.0).contains(n) by {
            let q = choose|q: int| 0 <= q < s.push(e).len() && (#[trigger] s.push(e)[q]).0 == n;
            if q < s.len() {
                assert(s[q].0 == n);
            }
        }
        assert forall|n: Seq<char>| settled_names(s).insert(e.0).contains(n) implies settled_names(s.push(e)).contains(n) by {
            if n == e.0 {
                assert(s.push(e)[s.len() as int].0 == n);
            } else {
                let q = choose|q: int| 0 <= q < s.len() && (#[trigger] s[q]).0 == n;
                assert(s.push(e)[q].0 == n);
            }
        }
    }
}

fn name_settled(settled: &Vec<(String, String)>, name: &str) -> (r: bool)
    ensures
        r == settled_names(crate::pip::entry_views(settled@)).contains(name@),
{
    let ghost s = crate::pip::entry_views(settled@);
    let key = chars_of(name);
    let mut q: usize = 0;
    while q < settled.len()
        invariant
            q <= settled.len(),
            s == crate::pip::entry_views(settled@),
            key@ == name@,
            forall|j: int| 0 <= j < q ==> (#[trigger] s[j]).0 != name@,
        decreases settled.len() - q,
    {
        assert(s[q as int] == (settled@[q as int].0@, settled@[q as int].1@));
        if chars_eq(&chars_of(settled[q].0.as_str()), &key) {
            assert(s[q as int].0 == name@);
            return true;
        }
        q += 1;
    }
    false
}

/// The planned versions of Maven members, completed with the members that
/// are left out of the plan but inherit their version from a parent whose
/// version is settled (taking that version, until no more can), and the
/// positions of those members in the order they were settled. `links[i]`
/// is how member `i`'s version links to its parent, when its POM says.
pub fn settle_inherited_versions(
    members: &[PackageInfo],
    links: &[Option<VersionLink>],
    plan: &[(String, String)],
) -> (r: (Vec<(String, String)>, Vec<usize>))
    requires
        links.len() == members.len(),
    ensures
        ({
            let s = crate::pip::entry_views(r.0@);
            let p = maven_planned(members@, crate::pip::entry_views(plan@), plan.len() as int);
            &&& s.len() == p.len() + r.1.len()
            &&& s.take(p.len() as int) == p
            &&& forall|q: int|
                0 <= q < r.1.len() ==> #[trigger] r.1@[q] < members.len() && s[p.len() + q].0 == members@[r.1@[q] as int].name@
                    && inherited_settled(members@, links@, s.take(p.len() + q), r.1@[q] as int) == Some(s[p.len() + q].1)
            &&& forall|i: int| 0 <= i < members.len() ==> inherited_settled(members@, links@, s, i) is None
        }),
{
    let ghost pv = crate::pip::entry_views(plan@);
    let mut settled: Vec<(String, String)> = Vec::new();
    let mut k: usize = 0;
    while k < plan.len()
        invariant
            k <= plan.len(),
            pv == crate::pip::entry_views(plan@),
            crate::pip::entry_views(settled@) == maven_planned(members@, pv, k as int),
        decreases plan.len() - k,
    {
        assert(pv[k as int] == (plan@[k as int].0@, plan@[k as int].1@));
        let key = chars_of(plan[k].0.as_str());
        let mut found = false;
        let mut j: usize = 0;
        while j < members.len()
            invariant
                j <= members.len(),
                key@ == plan@[k as int].0@,
                found == exists|m: int| 0 <= m < j && (#[trigger] members@[m]).kind == PackageKind::Maven && members@[m].name@ == key@,
            decreases members.len() - j,
        {
            if members[j].kind == PackageKind::Maven && chars_eq(&chars_of(members[j].name.as_str()), &key) {
                found = true;
            }
            j += 1;
        }
        let ghost before = settled@;
        if found {
            let pair = (owned(plan[k].0.as_str()), owned(plan[k].1.as_str()));
            settled.push(pair);
            assert(settled@ =~= before.push(pair));
            assert(crate::pip::entry_views(settled@) =~= crate::pip::entry_views(before).push((pair.0@, pair.1@)));
        }
        assert(crate::pip::entry_views(settled@) =~= maven_planned(members@, pv, k + 1));
        k += 1;
    }
    let ghost p = crate::pip::entry_views(settled@);
    let mut excluded: Vec<usize> = Vec::new();
    assert(p.take(p.len() as int) =~= p);
    loop
        invariant
            links.len() == members.len(),
            p == maven_planned(members@, pv, plan.len() as int),
            pv == crate::pip::entry_views(plan@),
            crate::pip::entry_views(settled@).len() == p.len() + excluded.len(),
            crate::pip::entry_views(settled@).take(p.len() as int) == p,
            forall|q: int|
                0 <= q < excluded.len() ==> #[trigger] excluded@[q] < members.len() && crate::pip::entry_views(settled@)[p.len() + q].0
                    == members@[excluded@[q] as int].name@ && inherited_settled(
                    members@,
                    links@,
                    crate::pip::entry_views(settled@).take(p.len() + q),
                    excluded@[q] as int,
                ) == Some(crate::pip::entry_views(settled@)[p.len() + q].1),
        ensures
            forall|i: int| 0 <= i < members.len() ==> inherited_settled(members@, links@, crate::pip::entry_views(settled@), i) is None,
        decreases unsettled(members@, settled_names(crate::pip::entry_views(settled@)), members.len() as int),
    {
        let ghost start = crate::pip::entry_views(settled@);
        let mut changed = false;
        let mut i: usize = 0;
        while i < members.len()
            invariant
                i <= members.len(),
                links.len() == members.len(),
                p == maven_planned(members@, pv, plan.len() as int),
                crate::pip::entry_views(settled@).len() == p.len() + excluded.len(),
                crate::pip::entry_views(settled@).take(p.len() as int) == p,
                forall|q: int|
                    0 <= q < excluded.len() ==> #[trigger] excluded@[q] < members.len() && crate::pip::entry_views(settled@)[p.len()
                        + q].0 == members@[excluded@[q] as int].name@ && inherited_settled(
                        members@,
                        links@,
                        crate::pip::entry_views(settled@).take(p.len() + q),
                        excluded@[q] as int,
                    ) == Some(crate::pip::entry_views(settled@)[p.len() + q].1),
                changed ==> unsettled(members@, settled_names(crate::pip::entry_views(settled@)), members.len() as int)
                    < unsettled(members@, settled_names(start), members.len() as int),
                !changed ==> crate::pip::entry_views(settled@) == start,
                !changed ==> forall|j: int| 0 <= j < i ==> inherited_settled(members@, links@, start, j) is None,
            decreases members.len() - i,
        {
            let ghost s = crate::pip::entry_views(settled@);
            let mut value: Option<String> = None;
            if members[i].kind == PackageKind::Maven && !name_settled(&settled, members[i].name.as_str()) {
                match &links[i] {
                    Some(l) => {
                        if l.inherits {
                            match &l.parent_key {
                                Some(key) => {
                                    value = planned_version(&settled, key.as_str());
                                },
                                None => {},
                            }
                        }
                    },
                    None => {},
                }
            }
            assert(crate::manifest::opt_text(value) == inherited_settled(members@, links@, s, i as int));
            match value {
                Some(v) => {
                    let ghost before = settled@;
                    let ghost xb = excluded@;
                    let pair = (owned(members[i].name.as_str()), v);
                    let ghost e = (pair.0@, pair.1@);
                    settled.push(pair);
                    excluded.push(i);
                    assert(settled@ =~= before.push(pair));
                    assert(crate::pip::entry_views(settled@) =~= s.push(e));
                    proof {
                        lemma_settled_push(s, e);
                        lemma_unsettled_insert(members@, settled_names(s), e.0, i as int, members.len() as int);
                        if changed {
                        } else {
                            assert(s == start);
                        }
                    }
                    assert(s.push(e).take(p.len() as int) =~= s.take(p.len() as int));
                    assert forall|q: int|
                        0 <= q < excluded.len() implies #[trigger] excluded@[q] < members.len() && crate::pip::entry_views(
                            settled@,
                        )[p.len() + q].0 == members@[excluded@[q] as int].name@ && inherited_settled(
                            members@,
                            links@,
                            crate::pip::entry_views(settled@).take(p.len() + q),
                            excluded@[q] as int,
                        ) == Some(crate::pip::entry_views(settled@)[p.len() + q].1) by {
                        if q < xb.len() {
                            assert(excluded@[q] == xb[q]);
                            assert(s.push(e).take(p.len() + q) =~= s.take(p.len() + q));
                            assert(s.push(e)[p.len() + q] == s[p.len() + q]);
                        } else {
                            assert(s.push(e).take(p.len() + q) =~= s);
                        }
                    }
                    changed = true;
                },
                None => {},
            }
            i += 1;
        }
        if !changed {
            break;
        }
    }
    (settled, excluded)
}

} // verus!
