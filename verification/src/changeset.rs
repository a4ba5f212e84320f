//! Changeset files: reading their frontmatter and rendering the markdown form.
use crate::errors::SampoError;
use crate::paths::{file_name, file_name_of};
use crate::sorted::strs;
use crate::text::{join3, owned, string_of, trim, trimmed};
use crate::types::{
    bump_named, bump_text, canonical_text, change_type_parts, specifier_parts, Bump, PackageKind,
    PackageSpecifier, ParsedChangeType,
};
use vstd::prelude::*;
use vstd::string::StringExecFns;

verus! {

/// Information about a changeset file.
#[derive(Debug, Clone)]
pub struct ChangesetInfo {
    pub path: String,
    /// `(package, bump, optional tag)` entries of the frontmatter.
    pub entries: Vec<(PackageSpecifier, Bump, Option<String>)>,
    pub message: String,
}

/// One frontmatter line: `package: bump`, with ` (Tag)` when a tag is given.
pub open spec fn frontmatter_line(p: PackageSpecifier, bump: Bump, tag: Option<String>) -> Seq<
    char,
> {
    canonical_text(p.kind, p.name@) + ": "@ + bump_text(bump) + match tag {
        Some(t) => " ("@ + t@ + ")"@,
        None => seq![],
    } + "\n"@
}

/// The frontmatter lines of untagged entries, in order.
pub open spec fn plain_lines(entries: Seq<(PackageSpecifier, Bump)>) -> Seq<char>
    decreases entries.len(),
{
    if entries.len() == 0 {
        seq![]
    } else {
        plain_lines(entries.drop_last()) + frontmatter_line(
            entries.last().0,
            entries.last().1,
            None,
        )
    }
}

/// The frontmatter lines of possibly tagged entries, in order.
pub open spec fn tagged_lines(entries: Seq<(PackageSpecifier, Bump, Option<String>)>) -> Seq<char>
    decreases entries.len(),
{
    if entries.len() == 0 {
        seq![]
    } else {
        tagged_lines(entries.drop_last()) + frontmatter_line(
            entries.last().0,
            entries.last().1,
            entries.last().2,
        )
    }
}

/// A changeset document: the frontmatter between `---` lines, a blank line,
/// then the message and a final newline.
pub open spec fn changeset_document(lines: Seq<char>, message: Seq<char>) -> Seq<char> {
    "---\n"@ + lines + "---\n\n"@ + message + "\n"@
}

fn push_line(out: &mut String, p: &PackageSpecifier, bump: Bump, tag: &Option<String>)
    ensures
        final(out)@ == old(out)@ + frontmatter_line(*p, bump, *tag),
{
    let canonical = p.to_canonical_string();
    out.append(canonical.as_str());
    out.append(": ");
    out.append(bump.as_str());
    match tag {
        Some(t) => {
            out.append(" (");
            out.append(t.as_str());
            out.append(")");
        },
        None => {},
    }
    out.append("\n");
    proof {
        reveal_strlit("");
    }
}

/// Render a changeset as markdown with YAML mapping frontmatter.
pub fn render_changeset_markdown(entries: &[(PackageSpecifier, Bump)], message: &str) -> (r:
    String)
    ensures
        r@ == changeset_document(plain_lines(entries@), message@),
{
    let mut out = String::new();
    out.append("---\n");
    let mut i: usize = 0;
    while i < entries.len()
        invariant
            i <= entries.len(),
            out@ == "---\n"@ + plain_lines(entries@.take(i as int)),
        decreases entries.len() - i,
    {
        assert(entries@.take(i + 1).drop_last() =~= entries@.take(i as int));
        let none: Option<String> = None;
        push_line(&mut out, &entries[i].0, entries[i].1, &none);
        i += 1;
    }
    assert(entries@.take(entries.len() as int) =~= entries@);
    out.append("---\n\n");
    out.append(message);
    out.append("\n");
    out
}

/// Render a changeset as markdown, writing `package: bump (Tag)` for tagged entries.
pub fn render_changeset_markdown_with_tags(
    entries: &[(PackageSpecifier, Bump, Option<String>)],
    message: &str,
) -> (r: String)
    ensures
        r@ == changeset_document(tagged_lines(entries@), message@),
{
    let mut out = String::new();
    out.append("---\n");
    let mut i: usize = 0;
    while i < entries.len()
        invariant
            i <= entries.len(),
            out@ == "---\n"@ + tagged_lines(entries@.take(i as int)),
        decreases entries.len() - i,
    {
        assert(entries@.take(i + 1).drop_last() =~= entries@.take(i as int));
        push_line(&mut out, &entries[i].0, entries[i].1, &entries[i].2);
        i += 1;
    }
    assert(entries@.take(entries.len() as int) =~= entries@);
    out.append("---\n\n");
    out.append(message);
    out.append("\n");
    out
}

/// The text a change type of the frontmatter reads as for `package`: its bump
/// and tag, or the error. Custom change types need configured tags.
pub open spec fn change_type_outcome(change: Seq<char>, package: Seq<char>, tags: Seq<Seq<char>>) -> Result<
    (Bump, Option<Seq<char>>),
    Seq<char>,
> {
    match bump_named(change) {
        Some(b) => Ok((b, None)),
        None => match change_type_parts(change, tags) {
            Ok(x) => Ok(x),
            Err(e) => if tags.len() > 0 {
                Err("Invalid change type '"@ + change + "' for package '"@ + package + "': "@ + e)
            } else {
                Err("Unsupported change type '"@ + change + "' for package '"@ + package + unsupported_tail())
            },
        },
    }
}

/// The end of the message for a custom change type when no tags are configured.
pub open spec fn unsupported_tail() -> Seq<char> {
    "'. Only 'patch', 'minor', and 'major' are supported. To use custom tags like 'minor (Added)', configure changesets.tags in .sampo/config.toml."@
}

/// One frontmatter entry as it is read: `(kind, name, bump, tag)`, or the error.
pub open spec fn entry_outcome(name: Seq<char>, change: Seq<char>, tags: Seq<Seq<char>>) -> Result<
    (Option<PackageKind>, Seq<char>, Bump, Option<Seq<char>>),
    Seq<char>,
> {
    match change_type_outcome(change, name, tags) {
        Err(e) => Err(e),
        Ok((b, t)) => match specifier_parts(name) {
            Err(reason) => Err("Invalid package reference '"@ + name + "': "@ + reason),
            Ok((k, n)) => Ok((k, n, b, t)),
        },
    }
}

/// All entries read in order, or the error of the first that fails.
pub open spec fn entries_outcome(es: Seq<(Seq<char>, Seq<char>)>, tags: Seq<Seq<char>>) -> Result<
    Seq<(Option<PackageKind>, Seq<char>, Bump, Option<Seq<char>>)>,
    Seq<char>,
>
    decreases es.len(),
{
    if es.len() == 0 {
        Ok(seq![])
    } else {
        match entries_outcome(es.drop_last(), tags) {
            Err(e) => Err(e),
            Ok(v) => match entry_outcome(es.last().0, es.last().1, tags) {
                Err(e) => Err(e),
                Ok(x) => Ok(v.push(x)),
            },
        }
    }
}

/// A read entry as plain values.
pub open spec fn entry_view(e: (PackageSpecifier, Bump, Option<String>)) -> (
    Option<PackageKind>,
    Seq<char>,
    Bump,
    Option<Seq<char>>,
) {
    (
        e.0.kind,
        e.0.name@,
        e.1,
        match e.2 {
            Some(t) => Some(t@),
            None => None,
        },
    )
}

/// `r` is what a changeset at `path` with the entries `es` (package, change
/// type) and the summary gives: the first entry error; nothing when there
/// are no entries or the summary is blank; else the entries and the trimmed summary.
pub open spec fn changeset_outcome(
    r: Result<Option<ChangesetInfo>, SampoError>,
    path: Seq<char>,
    es: Seq<(Seq<char>, Seq<char>)>,
    summary: Seq<char>,
    tags: Seq<Seq<char>>,
) -> bool {
    match entries_outcome(es, tags) {
        Err(e) => r matches Err(SampoError::Changeset(m)) && m@ == e,
        Ok(v) => if v.len() == 0 || trim(summary).len() == 0 {
            r matches Ok(None)
        } else {
            r matches Ok(Some(info)) && info.path@ == path && info.message@ == trim(summary)
                && info.entries@.len() == v.len() && forall|i: int|
                0 <= i < v.len() ==> entry_view(#[trigger] info.entries@[i]) == v[i]
        },
    }
}

/// `es` lists each key of `m` once, with its value.
pub open spec fn lists_map(es: Seq<(Seq<char>, Seq<char>)>, m: Map<Seq<char>, Seq<char>>) -> bool {
    &&& forall|i: int, j: int| 0 <= i < j < es.len() ==> #[trigger] es[i].0 != #[trigger] es[j].0
    &&& forall|i: int| 0 <= i < es.len() ==> m.contains_key(#[trigger] es[i].0) && m[es[i].0] == es[i].1
    &&& forall|k: Seq<char>| #[trigger] m.contains_key(k) ==> exists|i: int| 0 <= i < es.len() && #[trigger] es[i].0 == k
}

/// Pairs of strings as pairs of character sequences.
pub open spec fn pair_views(v: Seq<(String, String)>) -> Seq<(Seq<char>, Seq<char>)> {
    v.map_values(|e: (String, String)| (e.0@, e.1@))
}

/// What `changesets::Change::from_file_name_and_content` reads from a file
/// name and the file's text: for each package the text its change type
/// displays, and the summary; or the text its error displays.
pub uninterp spec fn change_file_contents(file_name: Seq<char>, content: Seq<char>) -> Result<
    (Map<Seq<char>, Seq<char>>, Seq<char>),
    Seq<char>,
>;

/// Calls `changesets::Change::from_file_name_and_content`. Its entries come
/// in the order of a hash map, which is not stated; the crate documents that
/// a parsed change always has at least one entry.
#[verifier::external_body]
fn read_change(file_name: &str, content: &str) -> (r: Result<(Vec<(String, String)>, String), String>)
    ensures
        match change_file_contents(file_name@, content@) {
            Ok((m, s)) => r matches Ok((es, summary)) && summary@ == s && es.len() > 0 && lists_map(
                pair_views(es@),
                m,
            ),
            Err(e) => r matches Err(msg) && msg@ == e,
        },
{
    match changesets::Change::from_file_name_and_content(file_name, content) {
        Ok(change) => Ok((
            change.versioning.iter().map(|(name, kind)| (name.clone(), kind.to_string())).collect(),
            change.summary,
        )),
        Err(err) => Err(err.to_string()),
    }
}

fn join5(a: &str, b: &str, c: &str, d: &str, e: &str) -> (r: String)
    ensures
        r@ == a@ + b@ + c@ + d@ + e@,
{
    let head = join3(a, b, c);
    join3(head.as_str(), d, e)
}

/// Read one change type of the frontmatter for `package`.
pub fn parse_change_type(change: &str, package: &str, allowed_tags: &[String]) -> (r: Result<
    (Bump, Option<String>),
    SampoError,
>)
    ensures
        match change_type_outcome(change@, package@, strs(allowed_tags@)) {
            Ok((b, t)) => r matches Ok((rb, rt)) && rb == b && match t {
                Some(x) => rt matches Some(y) && y@ == x,
                None => rt is None,
            },
            Err(e) => r matches Err(SampoError::Changeset(m)) && m@ == e,
        },
{
    let c = crate::text::chars_of(change);
    if crate::text::chars_eq(&c, &crate::text::chars_of("patch")) {
        return Ok((Bump::Patch, None));
    }
    if crate::text::chars_eq(&c, &crate::text::chars_of("minor")) {
        return Ok((Bump::Minor, None));
    }
    if crate::text::chars_eq(&c, &crate::text::chars_of("major")) {
        return Ok((Bump::Major, None));
    }
    match ParsedChangeType::parse(change, allowed_tags) {
        Ok(parsed) => Ok((parsed.bump, parsed.tag)),
        Err(e) => {
            if allowed_tags.len() > 0 {
                let head = join5("Invalid change type '", change, "' for package '", package, "': ");
                Err(SampoError::Changeset(crate::text::join2(head.as_str(), e.as_str())))
            } else {
                Err(SampoError::Changeset(join5(
                    "Unsupported change type '",
                    change,
                    "' for package '",
                    package,
                    "'. Only 'patch', 'minor', and 'major' are supported. To use custom tags like 'minor (Added)', configure changesets.tags in .sampo/config.toml.",
                )))
            }
        },
    }
}

proof fn lemma_outcome_keeps_error(es: Seq<(Seq<char>, Seq<char>)>, tags: Seq<Seq<char>>, k: int)
    requires
        0 <= k <= es.len(),
        entries_outcome(es.take(k), tags) is Err,
    ensures
        entries_outcome(es, tags) == entries_outcome(es.take(k), tags),
    decreases es.len() - k,
{
    if k < es.len() {
        assert(es.take(k + 1).drop_last() =~= es.take(k));
        lemma_outcome_keeps_error(es, tags, k + 1);
    } else {
        assert(es.take(k) =~= es);
    }
}

/// Build a changeset from the entries its frontmatter lists (package, change
/// type) and its summary.
pub fn changeset_from_entries(
    path: &str,
    entries: &Vec<(String, String)>,
    summary: &str,
    allowed_tags: &[String],
) -> (r: Result<Option<ChangesetInfo>, SampoError>)
    ensures
        changeset_outcome(r, path@, pair_views(entries@), summary@, strs(allowed_tags@)),
{
    let ghost es = pair_views(entries@);
    let ghost tags = strs(allowed_tags@);
    let mut out: Vec<(PackageSpecifier, Bump, Option<String>)> = Vec::new();
    let mut i: usize = 0;
    while i < entries.len()
        invariant
            i <= entries.len(),
            es == pair_views(entries@),
            tags == strs(allowed_tags@),
            entries_outcome(es.take(i as int), tags) matches Ok(v) && v.len() == out.len() && forall|j: int|
                0 <= j < out.len() ==> entry_view(#[trigger] out@[j]) == v[j],
        decreases entries.len() - i,
    {
        let name = entries[i].0.as_str();
        let change = entries[i].1.as_str();
        assert(es[i as int] == (name@, change@));
        assert(es.take(i + 1).drop_last() =~= es.take(i as int));
        assert(es.take(i + 1).last() == es[i as int]);
        let (bump, tag) = match parse_change_type(change, name, allowed_tags) {
            Ok(x) => x,
            Err(e) => {
                proof {
                    lemma_outcome_keeps_error(es, tags, i + 1);
                }
                return Err(e);
            },
        };
        let spec = match PackageSpecifier::parse(name) {
            Ok(p) => p,
            Err(reason) => {
                proof {
                    lemma_outcome_keeps_error(es, tags, i + 1);
                }
                let head = join3("Invalid package reference '", name, "': ");
                return Err(SampoError::Changeset(crate::text::join2(head.as_str(), reason.as_str())));
            },
        };
        let ghost before = out@;
        out.push((spec, bump, tag));
        assert(out@ =~= before.push((spec, bump, tag)));
        assert forall|j: int| 0 <= j < out.len() implies entry_view(#[trigger] out@[j])
            == entries_outcome(es.take(i + 1), tags)->Ok_0[j] by {
            if j < before.len() {
                assert(out@[j] == before[j]);
            }
        }
        i += 1;
    }
    assert(es.take(entries.len() as int) =~= es);
    if out.len() == 0 {
        return Ok(None);
    }
    let message = trimmed(summary);
    if message.len() == 0 {
        return Ok(None);
    }
    Ok(Some(ChangesetInfo { path: owned(path), entries: out, message: string_of(&message) }))
}

/// Read a changeset file: its frontmatter lists `package: change type`
/// lines. `None` when it lists no package or its message is blank.
pub fn parse_changeset(text: &str, path: &str, allowed_tags: &[String]) -> (r: Result<
    Option<ChangesetInfo>,
    SampoError,
>)
    ensures
        match file_name(path@) {
            None => r matches Err(SampoError::Changeset(m)) && m@ == "Invalid file path"@,
            Some(f) => match change_file_contents(f, text@) {
                Err(e) => r matches Err(SampoError::Changeset(m)) && m@ == "Failed to parse changeset: "@
                    + e,
                Ok((m, s)) => exists|es: Seq<(Seq<char>, Seq<char>)>|
                    lists_map(es, m) && changeset_outcome(r, path@, es, s, strs(allowed_tags@)),
            },
        },
{
    let name = match file_name_of(path) {
        Some(n) => string_of(&n),
        None => {
            return Err(SampoError::Changeset(owned("Invalid file path")));
        },
    };
    match read_change(name.as_str(), text) {
        Err(e) => Err(SampoError::Changeset(crate::text::join2("Failed to parse changeset: ", e.as_str()))),
        Ok((entries, summary)) => {
            let r = changeset_from_entries(path, &entries, summary.as_str(), allowed_tags);
            assert(lists_map(pair_views(entries@), change_file_contents(name@, text@)->Ok_0.0));
            r
        },
    }
}

} // verus!
