//! Publishing: the extra arguments forwarded to each ecosystem's publish
//! command, and the decisions of a publish run (which branch may publish,
//! which packages are published, grouped and tagged).
use crate::config::{release_branch_set, Config};
use crate::errors::SampoError;
use crate::sorted::{strictly_sorted, strs};
use crate::text::{chars_eq, chars_of, string_of};
use crate::types::{PackageInfo, PackageKind};
use vstd::prelude::*;

verus! {

/// Extra arguments for publish commands: `universal` ones go to every
/// ecosystem, the others only to their own.
#[derive(Debug, Clone, PartialEq, Eq)]
pub struct PublishExtraArgs {
    pub universal: Vec<String>,
    pub cargo: Vec<String>,
    pub npm: Vec<String>,
    pub hex: Vec<String>,
    pub pypi: Vec<String>,
    pub packagist: Vec<String>,
    pub maven: Vec<String>,
}

impl Default for PublishExtraArgs {
    fn default() -> (r: Self)
        ensures
            r.universal@.len() == 0,
            r.cargo@.len() == 0,
            r.npm@.len() == 0,
            r.hex@.len() == 0,
            r.pypi@.len() == 0,
            r.packagist@.len() == 0,
            r.maven@.len() == 0,
    {
        PublishExtraArgs {
            universal: Vec::new(),
            cargo: Vec::new(),
            npm: Vec::new(),
            hex: Vec::new(),
            pypi: Vec::new(),
            packagist: Vec::new(),
            maven: Vec::new(),
        }
    }
}

/// The character views of a list of arguments.
pub open spec fn arg_views(v: Seq<String>) -> Seq<Seq<char>> {
    v.map_values(|s: String| s@)
}

/// The arguments specific to ecosystem `kind`.
pub open spec fn ecosystem_args(a: PublishExtraArgs, kind: PackageKind) -> Seq<String> {
    match kind {
        PackageKind::Cargo => a.cargo@,
        PackageKind::Npm => a.npm@,
        PackageKind::Hex => a.hex@,
        PackageKind::PyPI => a.pypi@,
        PackageKind::Packagist => a.packagist@,
        PackageKind::Maven => a.maven@,
    }
}

fn copy_args(v: &Vec<String>, out: &mut Vec<String>)
    ensures
        arg_views(final(out)@) == arg_views(old(out)@) + arg_views(v@),
{
    let ghost start = arg_views(out@);
    let mut i: usize = 0;
    while i < v.len()
        invariant
            i <= v.len(),
            arg_views(out@) == start + arg_views(v@.take(i as int)),
        decreases v.len() - i,
    {
        let ghost before = out@;
        out.push(crate::text::owned(v[i].as_str()));
        assert(out@ =~= before.push(out@.last()));
        assert(arg_views(v@.take(i + 1)) =~= arg_views(v@.take(i as int)).push(v@[i as int]@));
        assert(arg_views(out@) =~= arg_views(before).push(v@[i as int]@));
        i += 1;
    }
    assert(v@.take(v.len() as int) =~= v@);
}

impl PublishExtraArgs {
    /// The universal arguments followed by those for `kind`.
    pub fn args_for_kind(&self, kind: PackageKind) -> (r: Vec<String>)
        ensures
            arg_views(r@) == arg_views(self.universal@) + arg_views(ecosystem_args(*self, kind)),
    {
        let specific = match kind {
            PackageKind::Cargo => &self.cargo,
            PackageKind::Npm => &self.npm,
            PackageKind::Hex => &self.hex,
            PackageKind::PyPI => &self.pypi,
            PackageKind::Packagist => &self.packagist,
            PackageKind::Maven => &self.maven,
        };
        let mut merged: Vec<String> = Vec::new();
        assert(arg_views(merged@) =~= Seq::<Seq<char>>::empty());
        copy_args(&self.universal, &mut merged);
        assert(arg_views(merged@) =~= arg_views(self.universal@));
        copy_args(specific, &mut merged);
        merged
    }
}

/// What a publish run reports: the tags it created, or in a dry run would
/// create.
#[derive(Debug, Clone, PartialEq, Eq)]
pub struct PublishOutput {
    pub tags: Vec<String>,
    pub dry_run: bool,
}

/// What `{:?}` shows for a character inside a string literal.
pub open spec fn escaped_char(c: char) -> Seq<char> {
    if c == '\\' {
        seq!['\\', '\\']
    } else if c == '"' {
        seq!['\\', '"']
    } else if c == '\n' {
        seq!['\\', 'n']
    } else if c == '\r' {
        seq!['\\', 'r']
    } else if c == '\t' {
        seq!['\\', 't']
    } else if c == '\0' {
        seq!['\\', '0']
    } else {
        seq![c]
    }
}

/// `s` with each character escaped as `{:?}` shows it.
pub open spec fn escaped(s: Seq<char>) -> Seq<char>
    decreases s.len(),
{
    if s.len() == 0 {
        seq![]
    } else {
        escaped(s.drop_last()) + escaped_char(s.last())
    }
}

/// The items quoted and separated by `, `.
pub open spec fn listed(items: Seq<Seq<char>>) -> Seq<char>
    decreases items.len(),
{
    if items.len() == 0 {
        seq![]
    } else if items.len() == 1 {
        seq!['"'] + escaped(items[0]) + seq!['"']
    } else {
        listed(items.drop_last()) + ", "@ + seq!['"'] + escaped(items.last()) + seq!['"']
    }
}

/// A list of strings as `{:?}` shows it.
pub open spec fn debug_list(items: Seq<Seq<char>>) -> Seq<char> {
    "["@ + listed(items) + "]"@
}

/// Why a branch may not publish, given the release branches in order.
pub open spec fn branch_refusal(branch: Seq<char>, allowed: Seq<Seq<char>>) -> Seq<char> {
    "Branch '"@ + branch + "' is not configured for publishing (allowed: "@ + debug_list(allowed) + ")"@
}

fn push_escaped(out: &mut Vec<char>, s: &str)
    ensures
        final(out)@ == old(out)@ + escaped(s@),
{
    let v = chars_of(s);
    let ghost start = out@;
    let mut i: usize = 0;
    while i < v.len()
        invariant
            i <= v.len(),
            v@ == s@,
            out@ == start + escaped(v@.take(i as int)),
        decreases v.len() - i,
    {
        let c = v[i];
        let ghost before = out@;
        assert(v@.take(i + 1).drop_last() =~= v@.take(i as int));
        if c == '\\' {
            out.push('\\');
            out.push('\\');
        } else if c == '"' {
            out.push('\\');
            out.push('"');
        } else if c == '\n' {
            out.push('\\');
            out.push('n');
        } else if c == '\r' {
            out.push('\\');
            out.push('r');
        } else if c == '\t' {
            out.push('\\');
            out.push('t');
        } else if c == '\0' {
            out.push('\\');
            out.push('0');
        } else {
            out.push(c);
        }
        assert(out@ =~= before + escaped_char(c));
        assert(out@ =~= start + escaped(v@.take(i + 1)));
        i += 1;
    }
    assert(v@.take(v.len() as int) =~= v@);
}

/// The list as `{:?}` shows it.
fn debug_list_text(items: &Vec<String>) -> (r: String)
    ensures
        r@ == debug_list(strs(items@)),
{
    let mut out: Vec<char> = Vec::new();
    out.push('[');
    let mut i: usize = 0;
    while i < items.len()
        invariant
            i <= items.len(),
            out@ == seq!['['] + listed(strs(items@).take(i as int)),
        decreases items.len() - i,
    {
        let ghost before = out@;
        let ghost t = strs(items@).take(i + 1);
        assert(t.drop_last() =~= strs(items@).take(i as int));
        assert(t.last() == items@[i as int]@);
        if i > 0 {
            out.push(',');
            out.push(' ');
        }
        out.push('"');
        push_escaped(&mut out, items[i].as_str());
        out.push('"');
        if i == 0 {
            assert(out@ =~= seq!['['] + listed(t));
        } else {
            assert(listed(t) == listed(t.drop_last()) + ", "@ + seq!['"'] + escaped(t.last()) + seq!['"']);
            proof {
                reveal_strlit(", ");
            }
            assert(out@ =~= seq!['['] + listed(t));
        }
        i += 1;
    }
    out.push(']');
    assert(strs(items@).take(items.len() as int) =~= strs(items@));
    proof {
        reveal_strlit("[");
        reveal_strlit("]");
    }
    assert(out@ =~= debug_list(strs(items@)));
    string_of(&out)
}

/// Publishing is allowed only from a release branch; elsewhere the run is
/// refused, naming the allowed branches.
pub fn check_release_branch(config: &Config, branch: &str) -> (r: Result<(), SampoError>)
    ensures
        r is Ok <==> release_branch_set(*config).contains(branch@),
        r is Err ==> (r matches Err(SampoError::Release(m)) && exists|allowed: Seq<Seq<char>>|
            strictly_sorted(allowed) && allowed.to_set() == release_branch_set(*config) && m@
                == branch_refusal(branch@, allowed)),
{
    if config.is_release_branch(branch) {
        return Ok(());
    }
    let allowed = config.release_branches();
    let list = debug_list_text(&allowed);
    let a = chars_of("Branch '");
    let b = chars_of(branch);
    let c = chars_of("' is not configured for publishing (allowed: ");
    let d = chars_of(list.as_str());
    let e = chars_of(")");
    let m = crate::text::concat(&crate::text::concat(&crate::text::concat(&a, &b), &crate::text::concat(&c, &d)), &e);
    proof {
        reveal_strlit("Branch '");
        reveal_strlit("' is not configured for publishing (allowed: ");
        reveal_strlit(")");
    }
    assert(m@ =~= branch_refusal(branch@, strs(allowed@)));
    Err(SampoError::Release(string_of(&m)))
}

/// The identifiers of the members marked publishable.
pub open spec fn publishable_ids(members: Seq<PackageInfo>, publishable: Seq<bool>) -> Set<Seq<char>> {
    Set::new(
        |id: Seq<char>|
            exists|j: int| 0 <= j < members.len() && publishable[j] && (#[trigger] members[j]).identifier@ == id,
    )
}

/// The complaint about `name` depending on the unpublishable `dep`.
pub open spec fn dependency_problem(name: Seq<char>, dep: Seq<char>) -> Seq<char> {
    "package '"@ + name + "' depends on internal package '"@ + dep + "' which is not publishable"@
}

/// The complaints about the first `d` internal dependencies of `p`.
pub open spec fn member_problems(p: PackageInfo, ids: Set<Seq<char>>, d: int) -> Seq<Seq<char>>
    decreases d,
{
    if d <= 0 {
        seq![]
    } else {
        let dep = p.internal_deps@[d - 1]@;
        member_problems(p, ids, d - 1) + if ids.contains(dep) {
            Seq::<Seq<char>>::empty()
        } else {
            seq![dependency_problem(p.name@, dep)]
        }
    }
}

/// The complaints about the first `n` members: each publishable member
/// that depends on a workspace package that is not publishable.
pub open spec fn dependency_problems(members: Seq<PackageInfo>, publishable: Seq<bool>, n: int) -> Seq<Seq<char>>
    decreases n,
{
    if n <= 0 {
        seq![]
    } else {
        let p = members[n - 1];
        dependency_problems(members, publishable, n - 1) + if publishable[n - 1] {
            member_problems(p, publishable_ids(members, publishable), p.internal_deps@.len() as int)
        } else {
            Seq::<Seq<char>>::empty()
        }
    }
}

fn is_publishable_id(members: &[PackageInfo], publishable: &[bool], id: &str) -> (r: bool)
    requires
        publishable.len() == members.len(),
    ensures
        r == publishable_ids(members@, publishable@).contains(id@),
{
    let t = chars_of(id);
    let mut j: usize = 0;
    while j < members.len()
        invariant
            j <= members.len(),
            publishable.len() == members.len(),
            t@ == id@,
            forall|k: int| 0 <= k < j ==> !(publishable@[k] && (#[trigger] members@[k]).identifier@ == id@),
        decreases members.len() - j,
    {
        if publishable[j] && chars_eq(&chars_of(members[j].identifier.as_str()), &t) {
            assert(members@[j as int].identifier@ == id@);
            return true;
        }
        j += 1;
    }
    false
}

/// Publishable packages may only depend on publishable workspace packages:
/// otherwise the run is refused, with one complaint per offending
/// dependency (members in order, each one's dependencies in order).
pub fn check_internal_dependencies(members: &[PackageInfo], publishable: &[bool]) -> (r: Result<(), (SampoError, Vec<String>)>)
    requires
        publishable.len() == members.len(),
    ensures
        r is Ok <==> dependency_problems(members@, publishable@, members.len() as int).len() == 0,
        r matches Err((e, list)) ==> (strs(list@) == dependency_problems(members@, publishable@, members.len() as int)
            && (e matches SampoError::Publish(m) && m@ == "cannot publish due to non-publishable internal dependencies"@)),
{
    let ghost ids = publishable_ids(members@, publishable@);
    let mut list: Vec<String> = Vec::new();
    let mut i: usize = 0;
    while i < members.len()
        invariant
            i <= members.len(),
            publishable.len() == members.len(),
            ids == publishable_ids(members@, publishable@),
            strs(list@) == dependency_problems(members@, publishable@, i as int),
        decreases members.len() - i,
    {
        let p = &members[i];
        let ghost before = strs(list@);
        if publishable[i] {
            let mut d: usize = 0;
            while d < p.internal_deps.len()
                invariant
                    d <= p.internal_deps.len(),
                    i < members.len(),
                    *p == members@[i as int],
                    publishable.len() == members.len(),
                    ids == publishable_ids(members@, publishable@),
                    strs(list@) == before + member_problems(*p, ids, d as int),
                decreases p.internal_deps.len() - d,
            {
                let dep = &p.internal_deps[d];
                let ghost mid = list@;
                if !is_publishable_id(members, publishable, dep.as_str()) {
                    let a = crate::text::join3("package '", p.name.as_str(), "' depends on internal package '");
                    let m = crate::text::join3(a.as_str(), dep.as_str(), "' which is not publishable");
                    list.push(m);
                    assert(strs(list@) =~= strs(mid).push(m@));
                }
                assert(strs(list@) =~= before + member_problems(*p, ids, d + 1));
                d += 1;
            }
            assert(strs(list@) =~= dependency_problems(members@, publishable@, i + 1));
        } else {
            assert(strs(list@) =~= dependency_problems(members@, publishable@, i + 1));
        }
        i += 1;
    }
    if list.len() == 0 {
        Ok(())
    } else {
        Err((SampoError::Publish(crate::text::owned("cannot publish due to non-publishable internal dependencies")), list))
    }
}

/// The positions, in order, of the packages that still need publishing:
/// all but those the registry already holds (`Some(true)`); one the
/// registry could not be asked about (`None`) is published to be safe.
pub fn pending_publications(existing: &[Option<bool>]) -> (r: Vec<usize>)
    ensures
        forall|k: int| 0 <= k < r.len() ==> #[trigger] r@[k] < existing.len() && existing@[r@[k] as int] != Some(true),
        forall|a: int, b: int| 0 <= a < b < r.len() ==> r@[a] < r@[b],
        forall|i: int| 0 <= i < existing.len() && existing@[i] != Some(true) ==> r@.contains(i as usize),
{
    let mut r: Vec<usize> = Vec::new();
    let mut i: usize = 0;
    while i < existing.len()
        invariant
            i <= existing.len(),
            forall|k: int| 0 <= k < r.len() ==> #[trigger] r@[k] < i && existing@[r@[k] as int] != Some(true),
            forall|a: int, b: int| 0 <= a < b < r.len() ==> r@[a] < r@[b],
            forall|j: int| 0 <= j < i && existing@[j] != Some(true) ==> r@.contains(j as usize),
        decreases existing.len() - i,
    {
        let ghost before = r@;
        if existing[i] != Some(true) {
            r.push(i);
            assert(r@[r.len() - 1] == i);
            assert forall|j: int| 0 <= j < i + 1 && existing@[j] != Some(true) implies r@.contains(j as usize) by {
                if j < i {
                    let k = choose|k: int| 0 <= k < before.len() && before[k] == j as usize;
                    assert(r@[k] == j as usize);
                } else {
                    assert(r@[r.len() - 1] == j as usize);
                }
            }
        } else {
            assert forall|j: int| 0 <= j < i + 1 && existing@[j] != Some(true) implies r@.contains(j as usize) by {
                assert(j < i);
            }
        }
        i += 1;
    }
    r
}

/// The positions, in order, of the packages to tag without publishing:
/// those not ignored, not publishable, whose version has no tag yet.
pub fn unpublished_tag_candidates(ignored: &[bool], publishable: &[bool], tagged: &[bool]) -> (r: Vec<usize>)
    requires
        publishable.len() == ignored.len(),
        tagged.len() == ignored.len(),
    ensures
        forall|k: int| 0 <= k < r.len() ==> #[trigger] r@[k] < ignored.len() && !ignored@[r@[k] as int]
            && !publishable@[r@[k] as int] && !tagged@[r@[k] as int],
        forall|a: int, b: int| 0 <= a < b < r.len() ==> r@[a] < r@[b],
        forall|i: int| 0 <= i < ignored.len() && !ignored@[i] && !publishable@[i] && !tagged@[i] ==> r@.contains(i as usize),
{
    let mut r: Vec<usize> = Vec::new();
    let mut i: usize = 0;
    while i < ignored.len()
        invariant
            i <= ignored.len(),
            publishable.len() == ignored.len(),
            tagged.len() == ignored.len(),
            forall|k: int| 0 <= k < r.len() ==> #[trigger] r@[k] < i && !ignored@[r@[k] as int]
                && !publishable@[r@[k] as int] && !tagged@[r@[k] as int],
            forall|a: int, b: int| 0 <= a < b < r.len() ==> r@[a] < r@[b],
            forall|j: int| 0 <= j < i && !ignored@[j] && !publishable@[j] && !tagged@[j] ==> r@.contains(j as usize),
        decreases ignored.len() - i,
    {
        let ghost before = r@;
        if !ignored[i] && !publishable[i] && !tagged[i] {
            r.push(i);
            assert(r@[r.len() - 1] == i);
            assert forall|j: int| 0 <= j < i + 1 && !ignored@[j] && !publishable@[j] && !tagged@[j]
                implies r@.contains(j as usize) by {
                if j < i {
                    let k = choose|k: int| 0 <= k < before.len() && before[k] == j as usize;
                    assert(r@[k] == j as usize);
                } else {
                    assert(r@[r.len() - 1] == j as usize);
                }
            }
        } else {
            assert forall|j: int| 0 <= j < i + 1 && !ignored@[j] && !publishable@[j] && !tagged@[j]
                implies r@.contains(j as usize) by {
                assert(j < i);
            }
        }
        i += 1;
    }
    r
}

/// The tag a publish run reports for a package: in a dry run the tag it
/// would create, unless it exists already; otherwise the tag, once tagging
/// did not fail.
pub fn reported_tag(
    config: &Config,
    name: &str,
    version: &str,
    dry_run: bool,
    tag_exists: bool,
    tagging_succeeded: bool,
) -> (r: Option<String>)
    ensures
        r is Some <==> (if dry_run { !tag_exists } else { tagging_succeeded }),
        r matches Some(t) ==> t@ == crate::config::tag_name(config.git_short_tags, name@, version@),
{
    let report = if dry_run {
        !tag_exists
    } else {
        tagging_succeeded
    };
    if report {
        Some(config.build_tag_name(name, version))
    } else {
        None
    }
}

/// The place of an ecosystem in the order in which groups of packages come.
pub open spec fn kind_rank(k: PackageKind) -> int {
    match k {
        PackageKind::Cargo => 0,
        PackageKind::Npm => 1,
        PackageKind::Hex => 2,
        PackageKind::PyPI => 3,
        PackageKind::Packagist => 4,
        PackageKind::Maven => 5,
    }
}

fn kind_at(rank: usize) -> (k: PackageKind)
    requires
        rank < 6,
    ensures
        kind_rank(k) == rank,
{
    if rank == 0 {
        PackageKind::Cargo
    } else if rank == 1 {
        PackageKind::Npm
    } else if rank == 2 {
        PackageKind::Hex
    } else if rank == 3 {
        PackageKind::PyPI
    } else if rank == 4 {
        PackageKind::Packagist
    } else {
        PackageKind::Maven
    }
}

/// The positions of the packages of ecosystem `kind`, in order.
fn positions_of(kinds: &[PackageKind], kind: PackageKind) -> (r: Vec<usize>)
    ensures
        forall|k: int| 0 <= k < r.len() ==> #[trigger] r@[k] < kinds.len() && kinds@[r@[k] as int] == kind,
        forall|a: int, b: int| 0 <= a < b < r.len() ==> r@[a] < r@[b],
        forall|i: int| 0 <= i < kinds.len() && kinds@[i] == kind ==> r@.contains(i as usize),
{
    let mut r: Vec<usize> = Vec::new();
    let mut i: usize = 0;
    while i < kinds.len()
        invariant
            i <= kinds.len(),
            forall|k: int| 0 <= k < r.len() ==> #[trigger] r@[k] < i && kinds@[r@[k] as int] == kind,
            forall|a: int, b: int| 0 <= a < b < r.len() ==> r@[a] < r@[b],
            forall|j: int| 0 <= j < i && kinds@[j] == kind ==> r@.contains(j as usize),
        decreases kinds.len() - i,
    {
        let ghost before = r@;
        if kinds[i] == kind {
            r.push(i);
            assert(r@[r.len() - 1] == i);
            assert forall|j: int| 0 <= j < i + 1 && kinds@[j] == kind implies r@.contains(j as usize) by {
                if j < i {
                    let k = choose|k: int| 0 <= k < before.len() && before[k] == j as usize;
                    assert(r@[k] == j as usize);
                } else {
                    assert(r@[r.len() - 1] == j as usize);
                }
            }
        } else {
            assert forall|j: int| 0 <= j < i + 1 && kinds@[j] == kind implies r@.contains(j as usize) by {
                assert(j < i);
            }
        }
        i += 1;
    }
    r
}

/// Whether there is nothing to publish: every member of the workspace is
/// ignored (or there is none).
pub fn nothing_to_publish(ignored: &[bool]) -> (r: bool)
    ensures
        r == forall|i: int| 0 <= i < ignored.len() ==> #[trigger] ignored@[i],
{
    let mut i: usize = 0;
    while i < ignored.len()
        invariant
            i <= ignored.len(),
            forall|j: int| 0 <= j < i ==> #[trigger] ignored@[j],
        decreases ignored.len() - i,
    {
        if !ignored[i] {
            return false;
        }
        i += 1;
    }
    true
}

/// The positions, among the first `n` targets, of the packages of the
/// ecosystem of rank `rank`, in order.
pub open spec fn rank_positions(kinds: Seq<PackageKind>, rank: int, n: int) -> Seq<usize>
    decreases n,
{
    if n <= 0 {
        seq![]
    } else if kind_rank(kinds[n - 1]) == rank {
        rank_positions(kinds, rank, n - 1).push((n - 1) as usize)
    } else {
        rank_positions(kinds, rank, n - 1)
    }
}

/// The positions of the targets grouped by ecosystem, for the ecosystems of
/// rank below `m`, in ecosystem order.
pub open spec fn by_ecosystem(kinds: Seq<PackageKind>, m: int) -> Seq<usize>
    decreases m,
{
    if m <= 0 {
        seq![]
    } else {
        by_ecosystem(kinds, m - 1) + rank_positions(kinds, m - 1, kinds.len() as int)
    }
}

pub open spec fn dry_runs(ps: Seq<usize>) -> Seq<(usize, bool)> {
    ps.map_values(|i: usize| (i, true))
}

/// The runs of the publish command for the targets `kinds` (in publishing
/// order), each as the target's position and whether it is a dry run:
/// unless this is a dry run, every target is first run dry, grouped by
/// ecosystem; then each target is run in order, dry exactly when `dry_run`.
pub open spec fn publish_calls(kinds: Seq<PackageKind>, dry_run: bool) -> Seq<(usize, bool)> {
    let runs = Seq::new(kinds.len(), |i: int| (i as usize, dry_run));
    if !dry_run && kinds.len() > 0 {
        dry_runs(by_ecosystem(kinds, 6)) + runs
    } else {
        runs
    }
}

/// The runs of the publish command for the targets `kinds` (see
/// `publish_calls`).
pub fn publish_runs(kinds: &[PackageKind], dry_run: bool) -> (r: Vec<(usize, bool)>)
    ensures
        r@ == publish_calls(kinds@, dry_run),
{
    let mut r: Vec<(usize, bool)> = Vec::new();
    if !dry_run && kinds.len() > 0 {
        let mut rank: usize = 0;
        while rank < 6
            invariant
                rank <= 6,
                r@ == dry_runs(by_ecosystem(kinds@, rank as int)),
            decreases 6 - rank,
        {
            let kind = kind_at(rank);
            let mut i: usize = 0;
            while i < kinds.len()
                invariant
                    i <= kinds.len(),
                    rank < 6,
                    kind_rank(kind) == rank,
                    r@ == dry_runs(by_ecosystem(kinds@, rank as int) + rank_positions(kinds@, rank as int, i as int)),
                decreases kinds.len() - i,
            {
                let ghost before = by_ecosystem(kinds@, rank as int) + rank_positions(kinds@, rank as int, i as int);
                if kinds[i] == kind {
                    r.push((i, true));
                    assert(by_ecosystem(kinds@, rank as int) + rank_positions(kinds@, rank as int, i + 1) =~= before.push(i));
                    assert(r@ =~= dry_runs(before.push(i)));
                } else {
                    assert(kind_rank(kinds@[i as int]) != rank);
                }
                i += 1;
            }
            rank += 1;
        }
    }
    let ghost head = r@;
    let mut i: usize = 0;
    while i < kinds.len()
        invariant
            i <= kinds.len(),
            r@ == head + Seq::new(i as nat, |k: int| (k as usize, dry_run)),
        decreases kinds.len() - i,
    {
        r.push((i, dry_run));
        assert(r@ =~= head + Seq::new((i + 1) as nat, |k: int| (k as usize, dry_run)));
        i += 1;
    }
    proof {
        if !dry_run && kinds.len() > 0 {
            assert(r@ =~= publish_calls(kinds@, dry_run));
        } else {
            assert(head =~= Seq::<(usize, bool)>::empty());
            assert(r@ =~= publish_calls(kinds@, dry_run));
        }
    }
    r
}

/// The publish runs end with one run of each target, in publishing order,
/// dry exactly when the whole publish is a dry run; every run before them
/// is a dry run of a target.
pub proof fn law_targets_published_in_order(kinds: Seq<PackageKind>, dry_run: bool)
    requires
        kinds.len() <= usize::MAX,
    ensures
        ({
            let calls = publish_calls(kinds, dry_run);
            let v = calls.len() - kinds.len();
            &&& v >= 0
            &&& forall|i: int| 0 <= i < kinds.len() ==> #[trigger] calls[v + i] == (i as usize, dry_run)
            &&& forall|k: int| 0 <= k < v ==> (#[trigger] calls[k]).1 && calls[k].0 < kinds.len()
        }),
{
    lemma_by_ecosystem_in_range(kinds, 6);
}

proof fn lemma_rank_positions_in_range(kinds: Seq<PackageKind>, rank: int, n: int)
    requires
        n <= kinds.len() <= usize::MAX,
    ensures
        forall|k: int| 0 <= k < rank_positions(kinds, rank, n).len() ==> #[trigger] rank_positions(kinds, rank, n)[k] < n,
    decreases n,
{
    if n > 0 {
        lemma_rank_positions_in_range(kinds, rank, n - 1);
        let r = rank_positions(kinds, rank, n - 1);
        if kind_rank(kinds[n - 1]) == rank {
            assert forall|k: int| 0 <= k < r.len() + 1 implies #[trigger] r.push((n - 1) as usize)[k] < n by {
                if k < r.len() {
                    assert(r.push((n - 1) as usize)[k] == r[k]);
                }
            }
        }
    }
}

proof fn lemma_by_ecosystem_in_range(kinds: Seq<PackageKind>, m: int)
    requires
        kinds.len() <= usize::MAX,
    ensures
        forall|k: int| 0 <= k < by_ecosystem(kinds, m).len() ==> #[trigger] by_ecosystem(kinds, m)[k] < kinds.len(),
    decreases m,
{
    if m > 0 {
        lemma_by_ecosystem_in_range(kinds, m - 1);
        lemma_rank_positions_in_range(kinds, m - 1, kinds.len() as int);
        let a = by_ecosystem(kinds, m - 1);
        let b = rank_positions(kinds, m - 1, kinds.len() as int);
        assert forall|k: int| 0 <= k < (a + b).len() implies #[trigger] (a + b)[k] < kinds.len() by {
            if k >= a.len() {
                assert((a + b)[k] == b[k - a.len()]);
            }
        }
    }
}

/// Position `i` is listed in the group of its ecosystem.
pub open spec fn in_its_group(r: Seq<(PackageKind, Vec<usize>)>, kinds: Seq<PackageKind>, i: int) -> bool {
    exists|g: int| 0 <= g < r.len() && r[g].0 == kinds[i] && (#[trigger] r[g].1@).contains(i as usize)
}

/// The packages to validate together before publishing: one group per
/// ecosystem present, in ecosystem order, each listing in order the
/// positions of its packages.
pub fn group_by_kind(kinds: &[PackageKind]) -> (r: Vec<(PackageKind, Vec<usize>)>)
    ensures
        forall|g: int| 0 <= g < r.len() ==> (#[trigger] r@[g]).1.len() > 0,
        forall|g: int, k: int|
            0 <= g < r.len() && 0 <= k < r@[g].1.len() ==> #[trigger] r@[g].1@[k] < kinds.len() && kinds@[r@[g].1@[k] as int]
                == r@[g].0,
        forall|g: int, a: int, b: int| 0 <= g < r.len() && 0 <= a < b < r@[g].1.len() ==> r@[g].1@[a] < r@[g].1@[b],
        forall|g: int, h: int| 0 <= g < h < r.len() ==> kind_rank(r@[g].0) < kind_rank(r@[h].0),
        forall|i: int| 0 <= i < kinds.len() ==> #[trigger] in_its_group(r@, kinds@, i),
{
    let mut r: Vec<(PackageKind, Vec<usize>)> = Vec::new();
    let mut rank: usize = 0;
    while rank < 6
        invariant
            rank <= 6,
            forall|g: int| 0 <= g < r.len() ==> (#[trigger] r@[g]).1.len() > 0 && kind_rank(r@[g].0) < rank,
            forall|g: int, k: int|
                0 <= g < r.len() && 0 <= k < r@[g].1.len() ==> #[trigger] r@[g].1@[k] < kinds.len() && kinds@[r@[g].1@[k] as int]
                    == r@[g].0,
            forall|g: int, a: int, b: int| 0 <= g < r.len() && 0 <= a < b < r@[g].1.len() ==> r@[g].1@[a] < r@[g].1@[b],
            forall|g: int, h: int| 0 <= g < h < r.len() ==> kind_rank(r@[g].0) < kind_rank(r@[h].0),
            forall|i: int| 0 <= i < kinds.len() && kind_rank(kinds@[i]) < rank ==> #[trigger] in_its_group(r@, kinds@, i),
        decreases 6 - rank,
    {
        let k = kind_at(rank);
        let positions = positions_of(kinds, k);
        let ghost before = r@;
        if positions.len() > 0 {
            r.push((k, positions));
            assert(r@[r.len() - 1] == (k, positions));
        }
        assert forall|i: int| 0 <= i < kinds.len() && kind_rank(kinds@[i]) < rank + 1 implies #[trigger] in_its_group(
            r@,
            kinds@,
            i,
        ) by {
            if kind_rank(kinds@[i]) < rank {
                assert(in_its_group(before, kinds@, i));
                let g = choose|g: int| 0 <= g < before.len() && before[g].0 == kinds@[i] && (#[trigger] before[g].1@).contains(i as usize);
                assert(r@[g] == before[g]);
            } else {
                assert(kinds@[i] == k);
                assert(positions@.contains(i as usize));
                let g = r.len() - 1;
                assert(r@[g].1@.contains(i as usize));
            }
        }
        rank += 1;
    }
    assert forall|i: int| 0 <= i < kinds.len() implies #[trigger] in_its_group(r@, kinds@, i) by {
        assert(kind_rank(kinds@[i]) < 6);
    }
    r
}

} // verus!
