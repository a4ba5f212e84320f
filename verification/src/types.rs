//! Shared types: ecosystems, bumps, package references and check outcomes.
use crate::text::{chars_eq, chars_of, find, find_exec, join3, lower, lower_chars, slice, string_of, trim, trim_chars};
use crate::sorted::strs;
use vstd::prelude::*;

verus! {

/// Outcome of checking a dependency's version requirement against a planned version.
#[derive(Debug, PartialEq, Eq)]
pub enum ConstraintCheckResult {
    /// The planned version satisfies the requirement.
    Satisfied,
    /// The planned version falls outside the requirement.
    NotSatisfied { constraint: String, new_version: String },
    /// The requirement could not be evaluated; `reason` says why.
    Skipped { reason: String },
    /// The requirement cannot be checked and should be reviewed by hand.
    Unverifiable { constraint: String },
}

/// The mathematical form of a [`ConstraintCheckResult`].
pub enum CheckOutcome {
    Satisfied,
    NotSatisfied { constraint: Seq<char>, new_version: Seq<char> },
    Skipped { reason: Seq<char> },
    Unverifiable { constraint: Seq<char> },
}

impl View for ConstraintCheckResult {
    type V = CheckOutcome;

    open spec fn view(&self) -> CheckOutcome {
        match self {
            ConstraintCheckResult::Satisfied => CheckOutcome::Satisfied,
            ConstraintCheckResult::NotSatisfied { constraint, new_version } => CheckOutcome::NotSatisfied {
                constraint: constraint@,
                new_version: new_version@,
            },
            ConstraintCheckResult::Skipped { reason } => CheckOutcome::Skipped { reason: reason@ },
            ConstraintCheckResult::Unverifiable { constraint } => CheckOutcome::Unverifiable {
                constraint: constraint@,
            },
        }
    }
}

/// A package ecosystem.
#[derive(Debug, Clone, Copy, PartialEq, Eq, Structural, Hash, PartialOrd, Ord)]
pub enum PackageKind {
    Cargo,
    Npm,
    Hex,
    PyPI,
    Packagist,
    Maven,
}

/// The lower-case name of an ecosystem, as it prefixes package identifiers.
pub open spec fn kind_text(k: PackageKind) -> Seq<char> {
    match k {
        PackageKind::Cargo => "cargo"@,
        PackageKind::Npm => "npm"@,
        PackageKind::Hex => "hex"@,
        PackageKind::PyPI => "pypi"@,
        PackageKind::Packagist => "packagist"@,
        PackageKind::Maven => "maven"@,
    }
}

/// The ecosystem whose name is `s` in any ASCII letter case.
pub open spec fn kind_named(s: Seq<char>) -> Option<PackageKind> {
    let l = lower(s);
    if l == "cargo"@ {
        Some(PackageKind::Cargo)
    } else if l == "npm"@ {
        Some(PackageKind::Npm)
    } else if l == "hex"@ {
        Some(PackageKind::Hex)
    } else if l == "pypi"@ {
        Some(PackageKind::PyPI)
    } else if l == "packagist"@ {
        Some(PackageKind::Packagist)
    } else if l == "maven"@ {
        Some(PackageKind::Maven)
    } else {
        None
    }
}

impl PackageKind {
    /// The lower-case name of the ecosystem.
    pub fn as_str(&self) -> (r: &'static str)
        ensures
            r@ == kind_text(*self),
    {
        match self {
            PackageKind::Cargo => "cargo",
            PackageKind::Npm => "npm",
            PackageKind::Hex => "hex",
            PackageKind::PyPI => "pypi",
            PackageKind::Packagist => "packagist",
            PackageKind::Maven => "maven",
        }
    }

    /// The ecosystem named `s` (ASCII case-insensitive).
    pub fn parse(s: &str) -> (r: Option<PackageKind>)
        ensures
            r == kind_named(s@),
    {
        let l = lower_chars(&chars_of(s));
        if chars_eq(&l, &chars_of("cargo")) {
            Some(PackageKind::Cargo)
        } else if chars_eq(&l, &chars_of("npm")) {
            Some(PackageKind::Npm)
        } else if chars_eq(&l, &chars_of("hex")) {
            Some(PackageKind::Hex)
        } else if chars_eq(&l, &chars_of("pypi")) {
            Some(PackageKind::PyPI)
        } else if chars_eq(&l, &chars_of("packagist")) {
            Some(PackageKind::Packagist)
        } else if chars_eq(&l, &chars_of("maven")) {
            Some(PackageKind::Maven)
        } else {
            None
        }
    }
}

/// The identifier of package `name` in ecosystem `kind`: `kind/name`.
pub open spec fn identifier_of(kind: PackageKind, name: Seq<char>) -> Seq<char> {
    kind_text(kind) + "/"@ + name
}

/// A semantic-version bump level.
#[derive(Debug, Clone, Copy, PartialEq, Eq, Hash, PartialOrd, Ord)]
pub enum Bump {
    Patch,
    Minor,
    Major,
}

pub open spec fn bump_text(b: Bump) -> Seq<char> {
    match b {
        Bump::Patch => "patch"@,
        Bump::Minor => "minor"@,
        Bump::Major => "major"@,
    }
}

impl Bump {
    /// How the bump is written in a changeset.
    pub fn as_str(&self) -> (r: &'static str)
        ensures
            r@ == bump_text(*self),
    {
        match self {
            Bump::Patch => "patch",
            Bump::Minor => "minor",
            Bump::Major => "major",
        }
    }

    /// The text this bump displays.
    pub fn to_string(&self) -> (r: String)
        ensures
            r@ == bump_text(*self),
    {
        crate::text::owned(self.as_str())
    }
}

/// The bump a change type names exactly (`patch`, `minor` or `major`).
pub open spec fn bump_named(s: Seq<char>) -> Option<Bump> {
    if s == "patch"@ {
        Some(Bump::Patch)
    } else if s == "minor"@ {
        Some(Bump::Minor)
    } else if s == "major"@ {
        Some(Bump::Major)
    } else {
        None
    }
}

/// The position of the first configured tag equal to `t` when ASCII case is ignored.
pub open spec fn tag_position(tags: Seq<Seq<char>>, t: Seq<char>, i: int) -> Option<int>
    decreases tags.len() - i,
{
    if i < 0 || i >= tags.len() {
        None
    } else if lower(tags[i]) == lower(t) {
        Some(i)
    } else {
        tag_position(tags, t, i + 1)
    }
}

proof fn lemma_tag_position_range(tags: Seq<Seq<char>>, t: Seq<char>, i: int)
    requires
        0 <= i,
    ensures
        tag_position(tags, t, i) matches Some(k) ==> i <= k < tags.len(),
    decreases tags.len() - i,
{
    if i < tags.len() && lower(tags[i]) != lower(t) {
        lemma_tag_position_range(tags, t, i + 1);
    }
}

/// The message for a change type that does not read as `bump (Tag)`.
pub open spec fn tag_format_message() -> Seq<char> {
    "expected a bump level (patch, minor or major), optionally followed by a tag in parentheses"@
}

/// What a change type such as `minor (Added)` reads as: the bump and the
/// configured spelling of the tag, or why it is refused.
pub open spec fn change_type_parts(input: Seq<char>, tags: Seq<Seq<char>>) -> Result<(Bump, Option<Seq<char>>), Seq<char>> {
    let t = trim(input);
    match bump_named(t) {
        Some(b) => Ok((b, None)),
        None => match find(t, seq!['(']) {
            None => Err(tag_format_message()),
            Some(i) => {
                let head = trim(t.take(i));
                let rest = t.skip(i + 1);
                if rest.len() == 0 || rest.last() != ')' {
                    Err(tag_format_message())
                } else {
                    let tag = trim(rest.drop_last());
                    match bump_named(head) {
                        None => Err("unknown bump level '"@ + head + "'"@),
                        Some(b) => if tag.len() == 0 {
                            Err("tag must not be empty"@)
                        } else {
                            match tag_position(tags, tag, 0) {
                                Some(k) => Ok((b, Some(tags[k]))),
                                None => Err("tag '"@ + tag
                                    + "' is not in the configured changesets.tags list"@),
                            }
                        },
                    }
                }
            },
        },
    }
}

/// A change type: its bump and, when one is given, its changelog tag.
#[derive(Debug, Clone, PartialEq, Eq)]
pub struct ParsedChangeType {
    pub bump: Bump,
    pub tag: Option<String>,
}

fn bump_of(s: &Vec<char>) -> (r: Option<Bump>)
    ensures
        r == bump_named(s@),
{
    if chars_eq(s, &chars_of("patch")) {
        Some(Bump::Patch)
    } else if chars_eq(s, &chars_of("minor")) {
        Some(Bump::Minor)
    } else if chars_eq(s, &chars_of("major")) {
        Some(Bump::Major)
    } else {
        None
    }
}

fn tag_position_of(tags: &[String], t: &Vec<char>) -> (r: Option<usize>)
    ensures
        match tag_position(strs(tags@), t@, 0) {
            Some(k) => r matches Some(j) && j == k,
            None => r is None,
        },
        r matches Some(k) ==> k < tags.len(),
{
    let ghost tv = strs(tags@);
    proof {
        lemma_tag_position_range(tv, t@, 0);
    }
    let lt = lower_chars(t);
    let mut i: usize = 0;
    while i < tags.len()
        invariant
            i <= tags.len(),
            tv == strs(tags@),
            lt@ == lower(t@),
            tag_position(tv, t@, 0) == tag_position(tv, t@, i as int),
        decreases tags.len() - i,
    {
        assert(tv[i as int] == tags@[i as int]@);
        if chars_eq(&lower_chars(&chars_of(tags[i].as_str())), &lt) {
            return Some(i);
        }
        i += 1;
    }
    None
}

impl ParsedChangeType {
    /// Read a change type such as `minor` or `minor (Added)`; the tag must be
    /// one of `allowed_tags`, whose spelling it takes.
    pub fn parse(input: &str, allowed_tags: &[String]) -> (r: Result<ParsedChangeType, String>)
        ensures
            match change_type_parts(input@, strs(allowed_tags@)) {
                Ok((b, tag)) => r matches Ok(p) && p.bump == b && match tag {
                    Some(x) => p.tag matches Some(y) && y@ == x,
                    None => p.tag is None,
                },
                Err(e) => r matches Err(m) && m@ == e,
            },
    {
        let ghost tv = strs(allowed_tags@);
        let t = trim_chars(&chars_of(input));
        if let Some(b) = bump_of(&t) {
            return Ok(ParsedChangeType { bump: b, tag: None });
        }
        let open = vec!['('];
        assert(open@ =~= seq!['(']);
        let i = match find_exec(&t, &open) {
            None => {
                return Err(crate::text::owned(
                    "expected a bump level (patch, minor or major), optionally followed by a tag in parentheses",
                ));
            },
            Some(i) => i,
        };
        proof {
            crate::text::lemma_find(t@, open@);
        }
        let head_raw = slice(&t, 0, i);
        assert(head_raw@ =~= t@.take(i as int));
        let head = trim_chars(&head_raw);
        let rest = slice(&t, i + 1, t.len());
        assert(rest@ =~= t@.skip(i + 1));
        if rest.len() == 0 || rest[rest.len() - 1] != ')' {
            return Err(crate::text::owned(
                "expected a bump level (patch, minor or major), optionally followed by a tag in parentheses",
            ));
        }
        let inner = slice(&rest, 0, rest.len() - 1);
        assert(inner@ =~= rest@.drop_last());
        let tag = trim_chars(&inner);
        match bump_of(&head) {
            None => Err(join3("unknown bump level '", string_of(&head).as_str(), "'")),
            Some(b) => {
                if tag.len() == 0 {
                    return Err(crate::text::owned("tag must not be empty"));
                }
                match tag_position_of(allowed_tags, &tag) {
                    Some(k) => {
                        assert(tv[k as int] == allowed_tags@[k as int]@);
                        Ok(ParsedChangeType { bump: b, tag: Some(crate::text::owned(allowed_tags[k].as_str())) })
                    },
                    None => Err(join3("tag '", string_of(&tag).as_str(), "' is not in the configured changesets.tags list")),
                }
            },
        }
    }
}

/// A reference to a package in a changeset: a plain name, or `kind/name`.
#[derive(Debug, Clone, PartialEq, Eq)]
pub struct PackageSpecifier {
    pub kind: Option<PackageKind>,
    pub name: String,
}

/// `s` without one pair of matching wrapping quotes (`"…"` or `'…'`).
pub open spec fn unquoted(s: Seq<char>) -> Seq<char> {
    if s.len() >= 2 && ((s[0] == '"' && s.last() == '"') || (s[0] == '\'' && s.last() == '\'')) {
        s.subrange(1, s.len() - 1)
    } else {
        s
    }
}

/// What a package reference reads as: `(kind, name)`, or the reason it is refused.
pub open spec fn specifier_parts(input: Seq<char>) -> Result<(Option<PackageKind>, Seq<char>), Seq<char>> {
    let t = trim(unquoted(trim(input)));
    if t.len() == 0 {
        Err("package reference cannot be empty"@)
    } else {
        match find(t, seq!['/']) {
            Some(i) => match kind_named(t.take(i)) {
                Some(k) => if t.skip(i + 1).len() == 0 {
                    Err("missing package name after ecosystem prefix"@)
                } else {
                    Ok((Some(k), t.skip(i + 1)))
                },
                None => Ok((None, t)),
            },
            None => Ok((None, t)),
        }
    }
}

/// The canonical text of a reference: `kind/name`, or the bare name.
pub open spec fn canonical_text(kind: Option<PackageKind>, name: Seq<char>) -> Seq<char> {
    match kind {
        Some(k) => identifier_of(k, name),
        None => name,
    }
}

fn unquoted_chars(s: &Vec<char>) -> (r: Vec<char>)
    ensures
        r@ == unquoted(s@),
{
    let n = s.len();
    if n >= 2 && ((s[0] == '"' && s[n - 1] == '"') || (s[0] == '\'' && s[n - 1] == '\'')) {
        slice(s, 1, n - 1)
    } else {
        crate::text::copy_chars(s)
    }
}

impl PackageSpecifier {
    /// Read a package reference such as `my-crate`, `"my-crate"` or `cargo/my-crate`.
    pub fn parse(input: &str) -> (r: Result<PackageSpecifier, String>)
        ensures
            match specifier_parts(input@) {
                Ok((k, n)) => r matches Ok(p) && p.kind == k && p.name@ == n,
                Err(e) => r matches Err(m) && m@ == e,
            },
    {
        let t = trim_chars(&unquoted_chars(&trim_chars(&chars_of(input))));
        if t.len() == 0 {
            return Err(crate::text::owned("package reference cannot be empty"));
        }
        let slash = vec!['/'];
        assert(slash@ =~= seq!['/']);
        match find_exec(&t, &slash) {
            Some(i) => {
                proof {
                    crate::text::lemma_find(t@, slash@);
                }
                let head = slice(&t, 0, i);
                assert(head@ =~= t@.take(i as int));
                let prefix = string_of(&head);
                match PackageKind::parse(prefix.as_str()) {
                    Some(k) => {
                        let rest = slice(&t, i + 1, t.len());
                        assert(rest@ =~= t@.skip(i + 1));
                        if rest.len() == 0 {
                            Err(crate::text::owned("missing package name after ecosystem prefix"))
                        } else {
                            Ok(PackageSpecifier { kind: Some(k), name: string_of(&rest) })
                        }
                    },
                    None => Ok(PackageSpecifier { kind: None, name: string_of(&t) }),
                }
            },
            None => Ok(PackageSpecifier { kind: None, name: string_of(&t) }),
        }
    }

    /// `kind/name` when the ecosystem is given, else the bare name.
    pub fn to_canonical_string(&self) -> (r: String)
        ensures
            r@ == canonical_text(self.kind, self.name@),
    {
        match self.kind {
            Some(k) => join3(k.as_str(), "/", self.name.as_str()),
            None => crate::text::owned(self.name.as_str()),
        }
    }
}

/// A package found in the workspace.
#[derive(Debug, Clone)]
pub struct PackageInfo {
    pub name: String,
    /// `kind/name`.
    pub identifier: String,
    pub version: String,
    /// The package directory.
    pub path: String,
    /// Identifiers of the workspace packages this one depends on.
    pub internal_deps: Vec<String>,
    /// Identifiers of the workspace packages this one refers to without
    /// being ordered by them at publish time (development dependencies,
    /// declarative pins); their versions are still kept up to date.
    pub internal_dev_deps: Vec<String>,
    pub kind: PackageKind,
}

impl PackageInfo {
    /// The identifier of package `name` in ecosystem `kind`.
    pub fn dependency_identifier(kind: PackageKind, name: &str) -> (r: String)
        ensures
            r@ == identifier_of(kind, name@),
    {
        join3(kind.as_str(), "/", name)
    }
}

/// A workspace: its root directory and its packages.
#[derive(Debug, Clone)]
pub struct Workspace {
    pub root: String,
    pub members: Vec<PackageInfo>,
}

/// A bump word written as itself: `patch`, `minor` or `major`.
proof fn lemma_bump_word(w: Seq<char>)
    requires
        w == "patch"@ || w == "minor"@ || w == "major"@,
    ensures
        w.len() == 5,
        forall|i: int| 0 <= i < 5 ==> 'a' <= #[trigger] w[i] <= 'z',
{
    reveal_strlit("patch");
    reveal_strlit("minor");
    reveal_strlit("major");
}

/// A change type `b (T)`, for a bump word `b` and a tag `T` the
/// configuration allows, has the same bump as `b` alone (`patch`, `minor`
/// or `major` as written) and the tag as the configuration spells it; a tag
/// the configuration does not allow is refused.
pub proof fn law_tagged_bump_keeps_bump(w: Seq<char>, tag: Seq<char>, tags: Seq<Seq<char>>)
    requires
        w == "patch"@ || w == "minor"@ || w == "major"@,
        tag.len() > 0,
        trim(tag) == tag,
    ensures
        change_type_parts(w, tags) matches Ok((b, None)) && change_type_parts(w + " ("@ + tag + ")"@, tags) == match tag_position(tags, tag, 0) {
            Some(k) => Ok::<(Bump, Option<Seq<char>>), Seq<char>>((b, Some(tags[k]))),
            None => Err("tag '"@ + tag + "' is not in the configured changesets.tags list"@),
        },
        tag_position(tags, tag, 0) is Some && w == "patch"@ ==> change_type_parts(w + " ("@ + tag + ")"@, tags) matches Ok((Bump::Patch, _)),
        tag_position(tags, tag, 0) is Some && w == "minor"@ ==> change_type_parts(w + " ("@ + tag + ")"@, tags) matches Ok((Bump::Minor, _)),
        tag_position(tags, tag, 0) is Some && w == "major"@ ==> change_type_parts(w + " ("@ + tag + ")"@, tags) matches Ok((Bump::Major, _)),
{
    reveal_strlit(" (");
    reveal_strlit(")");
    lemma_bump_word(w);
    let x = w + " ("@ + tag + ")"@;
    let n = w.len() as int;
    assert(x.len() == n + 3 + tag.len());
    assert(x[0] == w[0]);
    assert(x[x.len() - 1] == ')');
    // the whole text is already trimmed
    assert(!crate::text::is_ws(x[0]));
    assert(crate::text::trim_start(x) == x);
    assert(crate::text::trim_end(x) == x);
    assert(trim(x) == x);
    // `w` alone is trimmed too
    assert(crate::text::trim_start(w) == w);
    assert(crate::text::trim_end(w) == w);
    assert(trim(w) == w);
    assert(bump_named(x) is None) by {
        assert(x.len() != 5);
        assert(("patch"@).len() == 5) by { reveal_strlit("patch"); }
        assert(("minor"@).len() == 5) by { reveal_strlit("minor"); }
        assert(("major"@).len() == 5) by { reveal_strlit("major"); }
    }
    // the first `(` follows the bump word and its space
    let open = seq!['('];
    crate::text::lemma_find(x, open);
    assert(x[n] == ' ');
    assert(x[n + 1] == '(');
    assert(x.subrange(n + 1, n + 2) =~= open);
    assert(crate::text::occurs_at(x, open, n + 1));
    assert forall|j: int| 0 <= j < n + 1 implies !crate::text::occurs_at(x, open, j) by {
        if crate::text::occurs_at(x, open, j) {
            assert(x.subrange(j, j + 1)[0] == x[j]);
        }
    }
    let k = find(x, open)->Some_0;
    assert(k == n + 1);
    // the head is the bump word
    let head_raw = x.take(n + 1);
    assert(head_raw =~= w + seq![' ']);
    assert(crate::text::trim_start(head_raw) == head_raw);
    assert(head_raw.drop_last() =~= w);
    assert(crate::text::trim_end(head_raw) == crate::text::trim_end(w));
    assert(trim(head_raw) == w);
    // the rest is the tag and its closing parenthesis
    let rest = x.skip(n + 2);
    assert(rest =~= tag + seq![')']);
    assert(rest.drop_last() =~= tag);
    reveal_strlit("patch");
    reveal_strlit("minor");
    reveal_strlit("major");
    assert("minor"@ != "patch"@) by {
        assert("minor"@[0] != "patch"@[0]);
    }
    assert("major"@ != "patch"@) by {
        assert("major"@[0] != "patch"@[0]);
    }
    assert("major"@ != "minor"@) by {
        assert("major"@[1] != "minor"@[1]);
    }
}

} // verus!
