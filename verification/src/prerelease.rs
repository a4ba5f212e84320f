//! Pre-release mode: choosing the packages, checking the label and planning
//! the version of each package on entering or leaving a pre-release phase.
use crate::errors::SampoError;
use crate::semantic::{parse_semver, semver_version};
use crate::sorted::{insert_sorted, strictly_sorted, strs};
use crate::text::{chars_eq, chars_of, join2, join3, owned, string_of, trim, trimmed};
use crate::types::{PackageInfo, Workspace};
use crate::version::{decimal, decimal_string};
use vstd::prelude::*;

verus! {

/// A version change applied to a package manifest.
#[derive(Debug, Clone, PartialEq, Eq)]
pub struct VersionChange {
    pub name: String,
    pub old_version: String,
    pub new_version: String,
}

/// The position of the last of the first `n` members named `name`.
pub open spec fn last_named(members: Seq<PackageInfo>, name: Seq<char>, n: int) -> Option<int>
    decreases n,
{
    if n <= 0 || n > members.len() {
        None
    } else if members[n - 1].name@ == name {
        Some(n - 1)
    } else {
        last_named(members, name, n - 1)
    }
}

/// The member a package name refers to: the last one with that name.
pub open spec fn member_named(members: Seq<PackageInfo>, name: Seq<char>) -> Option<int> {
    last_named(members, name, members.len() as int)
}

/// The first requested name, from position `i` on, that is blank or names no member.
pub open spec fn first_unknown(members: Seq<PackageInfo>, requested: Seq<Seq<char>>, i: int) -> Option<int>
    decreases requested.len() - i,
{
    if i < 0 || i >= requested.len() {
        None
    } else if trim(requested[i]).len() == 0 || member_named(members, trim(requested[i])) is None {
        Some(i)
    } else {
        first_unknown(members, requested, i + 1)
    }
}

/// The names of the members at the positions `idx`.
pub open spec fn names_at(members: Seq<PackageInfo>, idx: Seq<usize>) -> Seq<Seq<char>> {
    idx.map_values(|k: usize| members[k as int].name@)
}

/// The requested names, trimmed.
pub open spec fn trims(requested: Seq<Seq<char>>) -> Seq<Seq<char>> {
    requested.map_values(|s: Seq<char>| trim(s))
}

/// `idx` lists, in name order, the member each requested name refers to, once each.
pub open spec fn resolved_targets(members: Seq<PackageInfo>, requested: Seq<Seq<char>>, idx: Seq<usize>) -> bool {
    &&& strictly_sorted(names_at(members, idx))
    &&& names_at(members, idx).to_set() == trims(requested).to_set()
    &&& forall|j: int| 0 <= j < idx.len() ==> member_named(members, names_at(members, idx)[j]) == Some(
        #[trigger] idx[j] as int,
    )
}

/// What choosing the targets among `members` for the requested names gives:
/// the error for an empty request, a blank name or an unknown one (the first
/// in request order), else success.
pub open spec fn targets_error(members: Seq<PackageInfo>, requested: Seq<Seq<char>>) -> Option<SampoError> {
    if requested.len() == 0 {
        Some(SampoError::Prerelease(owned_spec("At least one package must be specified."@)))
    } else {
        match first_unknown(members, requested, 0) {
            Some(i) => if trim(requested[i]).len() == 0 {
                Some(SampoError::Prerelease(owned_spec("Package names cannot be empty."@)))
            } else {
                Some(SampoError::NotFound(owned_spec("Package '"@ + trim(requested[i]) + "' not found in workspace"@)))
            },
            None => None,
        }
    }
}

/// Some string with the given characters.
pub open spec fn owned_spec(s: Seq<char>) -> String {
    choose|t: String| t@ == s
}

/// The same error, texts compared by their characters.
pub open spec fn same_error(a: SampoError, b: SampoError) -> bool {
    match (a, b) {
        (SampoError::Prerelease(x), SampoError::Prerelease(y)) => x@ == y@,
        (SampoError::NotFound(x), SampoError::NotFound(y)) => x@ == y@,
        _ => false,
    }
}

proof fn lemma_last_named_range(members: Seq<PackageInfo>, name: Seq<char>, n: int)
    ensures
        last_named(members, name, n) matches Some(k) ==> 0 <= k < n && k < members.len()
            && members[k].name@ == name,
    decreases n,
{
    if n > 0 && n <= members.len() && members[n - 1].name@ != name {
        lemma_last_named_range(members, name, n - 1);
    }
}

fn find_member(members: &[PackageInfo], name: &Vec<char>) -> (r: Option<usize>)
    ensures
        match member_named(members@, name@) {
            Some(k) => r matches Some(j) && j == k,
            None => r is None,
        },
{
    proof {
        lemma_last_named_range(members@, name@, members.len() as int);
    }
    let mut n: usize = members.len();
    while n > 0
        invariant
            n <= members.len(),
            member_named(members@, name@) == last_named(members@, name@, n as int),
        decreases n,
    {
        if chars_eq(&chars_of(members[n - 1].name.as_str()), name) {
            return Some(n - 1);
        }
        n -= 1;
    }
    None
}

proof fn lemma_string_exists(s: Seq<char>, t: String)
    requires
        t@ == s,
    ensures
        owned_spec(s)@ == s,
{
}

/// The members the requested names refer to, once each and in name order.
pub fn resolve_targets(members: &[PackageInfo], packages: &[String]) -> (r: Result<Vec<usize>, SampoError>)
    ensures
        match targets_error(members@, strs(packages@)) {
            Some(e) => r matches Err(f) && same_error(f, e),
            None => r matches Ok(idx) && resolved_targets(members@, strs(packages@), idx@),
        },
{
    let ghost req = strs(packages@);
    if packages.len() == 0 {
        let m = owned("At least one package must be specified.");
        proof {
            lemma_string_exists(m@, m);
        }
        return Err(SampoError::Prerelease(m));
    }
    let mut names: Vec<String> = Vec::new();
    assert(strs(names@).to_set() =~= Set::empty());
    assert(trims(req.take(0)).to_set() =~= Set::empty());
    let mut i: usize = 0;
    while i < packages.len()
        invariant
            i <= packages.len(),
            req == strs(packages@),
            req.len() > 0,
            first_unknown(members@, req, 0) == first_unknown(members@, req, i as int),
            strictly_sorted(strs(names@)),
            strs(names@).to_set() == trims(req.take(i as int)).to_set(),
            forall|j: int| 0 <= j < names.len() ==> member_named(members@, #[trigger] strs(names@)[j]) is Some,
        decreases packages.len() - i,
    {
        assert(req[i as int] == packages@[i as int]@);
        let t = trimmed(packages[i].as_str());
        if t.len() == 0 {
            let m = owned("Package names cannot be empty.");
            proof {
                lemma_string_exists(m@, m);
            }
            return Err(SampoError::Prerelease(m));
        }
        match find_member(members, &t) {
            None => {
                let m = join3("Package '", string_of(&t).as_str(), "' not found in workspace");
                proof {
                    lemma_string_exists(m@, m);
                }
                return Err(SampoError::NotFound(m));
            },
            Some(_) => {
                let ghost before = strs(names@);
                insert_sorted(&mut names, string_of(&t));
                proof {
                    assert(trims(req.take(i + 1)) =~= trims(req.take(i as int)).push(t@));
                    trims(req.take(i as int)).lemma_push_to_set_commute(t@);
                    assert forall|j: int| 0 <= j < names.len() implies member_named(
                        members@,
                        #[trigger] strs(names@)[j],
                    ) is Some by {
                        let x = strs(names@)[j];
                        assert(strs(names@).to_set().contains(x));
                        if x != t@ {
                            assert(before.to_set().contains(x));
                            let b = choose|b: int| 0 <= b < before.len() && before[b] == x;
                            assert(member_named(members@, before[b]) is Some);
                        }
                    }
                }
            },
        }
        i += 1;
    }
    assert(req.take(packages.len() as int) =~= req);
    let ghost sorted = strs(names@);
    let mut idx: Vec<usize> = Vec::new();
    let mut j: usize = 0;
    while j < names.len()
        invariant
            j <= names.len(),
            sorted == strs(names@),
            forall|q: int| 0 <= q < names.len() ==> member_named(members@, #[trigger] sorted[q]) is Some,
            idx.len() == j,
            forall|q: int| 0 <= q < j ==> member_named(members@, sorted[q]) == Some(#[trigger] idx@[q] as int),
            forall|q: int| 0 <= q < j ==> #[trigger] members@[idx@[q] as int].name@ == sorted[q],
        decreases names.len() - j,
    {
        let n = chars_of(names[j].as_str());
        assert(sorted[j as int] == n@);
        proof {
            lemma_last_named_range(members@, n@, members.len() as int);
        }
        match find_member(members, &n) {
            Some(k) => {
                let ghost before = idx@;
                idx.push(k);
                assert(idx@ =~= before.push(k));
                assert forall|q: int| 0 <= q < j + 1 implies member_named(members@, sorted[q]) == Some(
                    #[trigger] idx@[q] as int,
                ) && members@[idx@[q] as int].name@ == sorted[q] by {
                    if q < j {
                        assert(idx@[q] == before[q]);
                    }
                }
            },
            None => {
                assert(false);
            },
        }
        j += 1;
    }
    assert(names_at(members@, idx@) =~= sorted);
    Ok(idx)
}

/// A pre-release label is all digits and dots: no identifier of it has a letter or hyphen.
pub open spec fn all_numeric(s: Seq<char>) -> bool {
    forall|k: int| 0 <= k < s.len() ==> ('0' <= #[trigger] s[k] <= '9' || s[k] == '.')
}

/// What `semver::Prerelease::new` makes of `text`: the identifiers, or the text of its error.
pub uninterp spec fn semver_prerelease(text: Seq<char>) -> Result<Seq<char>, Seq<char>>;

/// `semver::Prerelease::new`: when it accepts the text, the identifiers are
/// the text itself.
#[verifier::external_body]
fn parse_prerelease(text: &str) -> (r: Result<String, String>)
    ensures
        match semver_prerelease(text@) {
            Ok(p) => r matches Ok(s) && s@ == p && p == text@,
            Err(e) => r matches Err(m) && m@ == e,
        },
{
    match semver::Prerelease::new(text) {
        Ok(p) => Ok(p.as_str().to_string()),
        Err(e) => Err(e.to_string()),
    }
}

/// What a pre-release label reads as: the trimmed label, or why it is refused.
pub open spec fn label_outcome(label: Seq<char>) -> Result<Seq<char>, Seq<char>> {
    let t = trim(label);
    if t.len() == 0 {
        Err("Pre-release label cannot be empty."@)
    } else if all_numeric(t) {
        Err("Pre-release label must contain at least one non-numeric identifier."@)
    } else {
        match semver_prerelease(t) {
            Ok(_) => Ok(t),
            Err(e) => Err("Invalid pre-release label '"@ + t + "': "@ + e),
        }
    }
}

/// Check a pre-release label: not blank, not all numeric, and one `semver` accepts.
pub fn validate_label(label: &str) -> (r: Result<String, SampoError>)
    ensures
        match label_outcome(label@) {
            Ok(p) => r matches Ok(s) && s@ == p,
            Err(e) => r matches Err(SampoError::Prerelease(m)) && m@ == e,
        },
{
    let t = trimmed(label);
    if t.len() == 0 {
        return Err(SampoError::Prerelease(owned("Pre-release label cannot be empty.")));
    }
    let mut k: usize = 0;
    let mut numeric = true;
    while k < t.len()
        invariant
            k <= t.len(),
            numeric == forall|q: int| 0 <= q < k ==> ('0' <= #[trigger] t@[q] <= '9' || t@[q] == '.'),
        decreases t.len() - k,
    {
        let c = t[k];
        if !(('0' <= c && c <= '9') || c == '.') {
            numeric = false;
        }
        k += 1;
    }
    if numeric {
        return Err(
            SampoError::Prerelease(
                owned("Pre-release label must contain at least one non-numeric identifier."),
            ),
        );
    }
    let text = string_of(&t);
    match parse_prerelease(text.as_str()) {
        Ok(p) => Ok(p),
        Err(e) => {
            let head = join3("Invalid pre-release label '", text.as_str(), "': ");
            Err(SampoError::Prerelease(join2(head.as_str(), e.as_str())))
        },
    }
}

/// `major.minor.patch` of a version's parts.
pub open spec fn core_text(p: (u64, u64, u64, Seq<char>, Seq<char>)) -> Seq<char> {
    decimal(p.0 as int) + "."@ + decimal(p.1 as int) + "."@ + decimal(p.2 as int)
}

/// The version a package moves to: with the label as its pre-release when
/// entering, the plain release when leaving (none when it is not a pre-release).
pub open spec fn moved_version(p: (u64, u64, u64, Seq<char>, Seq<char>), label: Option<Seq<char>>) -> Option<
    Seq<char>,
> {
    match label {
        Some(l) => Some(core_text(p) + "-"@ + l),
        None => if p.3.len() == 0 {
            None
        } else {
            Some(core_text(p))
        },
    }
}

/// The changes for the packages `(name, version)` in order: one for each
/// whose version moves to another text; or the error for the first whose
/// version `semver` does not read.
pub open spec fn plan_outcome(items: Seq<(Seq<char>, Seq<char>)>, label: Option<Seq<char>>) -> Result<
    Seq<(Seq<char>, Seq<char>, Seq<char>)>,
    Seq<char>,
>
    decreases items.len(),
{
    if items.len() == 0 {
        Ok(seq![])
    } else {
        match plan_outcome(items.drop_last(), label) {
            Err(e) => Err(e),
            Ok(v) => {
                let (name, version) = items.last();
                match semver_version(version) {
                    Err(e) => Err("Invalid semantic version for package '"@ + name + "': "@ + e),
                    Ok(p) => match moved_version(p, label) {
                        Some(n) => if n == version {
                            Ok(v)
                        } else {
                            Ok(v.push((name, version, n)))
                        },
                        None => Ok(v),
                    },
                }
            },
        }
    }
}

/// The `(name, version)` of the members at the positions `idx`.
pub open spec fn items_at(members: Seq<PackageInfo>, idx: Seq<usize>) -> Seq<(Seq<char>, Seq<char>)> {
    idx.map_values(|k: usize| (members[k as int].name@, members[k as int].version@))
}

/// A version change as plain values.
pub open spec fn change_view(c: VersionChange) -> (Seq<char>, Seq<char>, Seq<char>) {
    (c.name@, c.old_version@, c.new_version@)
}

/// `cs` holds the planned changes `v`, in order.
pub open spec fn changes_match(cs: Seq<VersionChange>, v: Seq<(Seq<char>, Seq<char>, Seq<char>)>) -> bool {
    cs.len() == v.len() && forall|i: int| 0 <= i < v.len() ==> change_view(#[trigger] cs[i]) == v[i]
}

proof fn lemma_plan_keeps_error(items: Seq<(Seq<char>, Seq<char>)>, label: Option<Seq<char>>, k: int)
    requires
        0 <= k <= items.len(),
        plan_outcome(items.take(k), label) is Err,
    ensures
        plan_outcome(items, label) == plan_outcome(items.take(k), label),
    decreases items.len() - k,
{
    if k < items.len() {
        assert(items.take(k + 1).drop_last() =~= items.take(k));
        lemma_plan_keeps_error(items, label, k + 1);
    } else {
        assert(items.take(k) =~= items);
    }
}

/// The changes for the members at `idx`, moving to the pre-release `label`
/// (entering) or to their plain release (leaving, `None`).
fn plan_updates(members: &[PackageInfo], idx: &Vec<usize>, label: Option<&str>) -> (r: Result<
    Vec<VersionChange>,
    SampoError,
>)
    requires
        forall|j: int| 0 <= j < idx.len() ==> #[trigger] idx@[j] < members.len(),
    ensures
        match plan_outcome(
            items_at(members@, idx@),
            match label {
                Some(l) => Some(l@),
                None => None,
            },
        ) {
            Ok(v) => r matches Ok(cs) && changes_match(cs@, v),
            Err(e) => r matches Err(SampoError::Prerelease(m)) && m@ == e,
        },
{
    let ghost items = items_at(members@, idx@);
    let ghost lab: Option<Seq<char>> = match label {
        Some(l) => Some(l@),
        None => None,
    };
    let mut changes: Vec<VersionChange> = Vec::new();
    let mut j: usize = 0;
    while j < idx.len()
        invariant
            j <= idx.len(),
            items == items_at(members@, idx@),
            lab == match label {
                Some(l) => Some(l@),
                None => None::<Seq<char>>,
            },
            forall|q: int| 0 <= q < idx.len() ==> #[trigger] idx@[q] < members.len(),
            plan_outcome(items.take(j as int), lab) matches Ok(v) && changes_match(changes@, v),
        decreases idx.len() - j,
    {
        let info = &members[idx[j]];
        assert(items[j as int] == (info.name@, info.version@));
        assert(items.take(j + 1).drop_last() =~= items.take(j as int));
        assert(items.take(j + 1).last() == items[j as int]);
        let ghost prev = plan_outcome(items.take(j as int), lab)->Ok_0;
        let v = match parse_semver(info.version.as_str()) {
            Ok(v) => v,
            Err(e) => {
                proof {
                    lemma_plan_keeps_error(items, lab, j + 1);
                }
                let head = join3("Invalid semantic version for package '", info.name.as_str(), "': ");
                return Err(SampoError::Prerelease(join2(head.as_str(), e.as_str())));
            },
        };
        let core = join3(
            join3(decimal_string(v.major()).as_str(), ".", decimal_string(v.minor()).as_str()).as_str(),
            ".",
            decimal_string(v.patch()).as_str(),
        );
        assert(core@ == core_text(v@));
        let moved: Option<String> = match label {
            Some(l) => Some(join3(core.as_str(), "-", l)),
            None => if chars_of(v.pre()).len() == 0 {
                None
            } else {
                Some(core)
            },
        };
        assert(match moved {
            Some(m) => moved_version(v@, lab) == Some(m@),
            None => moved_version(v@, lab) is None,
        });
        match moved {
            Some(n) => {
                if !chars_eq(&chars_of(n.as_str()), &chars_of(info.version.as_str())) {
                    let ghost before = changes@;
                    let change = VersionChange {
                        name: owned(info.name.as_str()),
                        old_version: owned(info.version.as_str()),
                        new_version: n,
                    };
                    changes.push(change);
                    assert(changes@ =~= before.push(change));
                    assert forall|i: int| 0 <= i < changes.len() implies change_view(#[trigger] changes@[i])
                        == prev.push((info.name@, info.version@, change.new_version@))[i] by {
                        if i < before.len() {
                            assert(changes@[i] == before[i]);
                        }
                    }
                }
            },
            None => {},
        }
        j += 1;
    }
    assert(items.take(idx.len() as int) =~= items);
    Ok(changes)
}

/// Plan entering pre-release `label` for the named packages: each moves to
/// `major.minor.patch-label`; packages already there are left out.
pub fn enter_prerelease(workspace: &Workspace, packages: &[String], label: &str) -> (r: Result<
    Vec<VersionChange>,
    SampoError,
>)
    ensures
        match targets_error(workspace.members@, strs(packages@)) {
            Some(e) => r matches Err(f) && same_error(f, e),
            None => match label_outcome(label@) {
                Err(e) => r matches Err(SampoError::Prerelease(m)) && m@ == e,
                Ok(l) => exists|idx: Seq<usize>|
                    resolved_targets(workspace.members@, strs(packages@), idx) && match plan_outcome(
                        items_at(workspace.members@, idx),
                        Some(l),
                    ) {
                        Ok(v) => r matches Ok(cs) && changes_match(cs@, v),
                        Err(e) => r matches Err(SampoError::Prerelease(m)) && m@ == e,
                    },
            },
        },
{
    let idx = match resolve_targets(&workspace.members, packages) {
        Ok(idx) => idx,
        Err(e) => {
            return Err(e);
        },
    };
    let l = match validate_label(label) {
        Ok(l) => l,
        Err(e) => {
            return Err(e);
        },
    };
    proof {
        lemma_targets_in_range(workspace.members@, strs(packages@), idx@);
    }
    plan_updates(&workspace.members, &idx, Some(l.as_str()))
}

/// Plan leaving pre-release for the named packages: each pre-release version
/// moves to its plain release; other packages are left out.
pub fn exit_prerelease(workspace: &Workspace, packages: &[String]) -> (r: Result<Vec<VersionChange>, SampoError>)
    ensures
        match targets_error(workspace.members@, strs(packages@)) {
            Some(e) => r matches Err(f) && same_error(f, e),
            None => exists|idx: Seq<usize>|
                resolved_targets(workspace.members@, strs(packages@), idx) && match plan_outcome(
                    items_at(workspace.members@, idx),
                    None,
                ) {
                    Ok(v) => r matches Ok(cs) && changes_match(cs@, v),
                    Err(e) => r matches Err(SampoError::Prerelease(m)) && m@ == e,
                },
        },
{
    let idx = match resolve_targets(&workspace.members, packages) {
        Ok(idx) => idx,
        Err(e) => {
            return Err(e);
        },
    };
    proof {
        lemma_targets_in_range(workspace.members@, strs(packages@), idx@);
    }
    plan_updates(&workspace.members, &idx, None)
}

proof fn lemma_targets_in_range(members: Seq<PackageInfo>, requested: Seq<Seq<char>>, idx: Seq<usize>)
    requires
        resolved_targets(members, requested, idx),
    ensures
        forall|j: int| 0 <= j < idx.len() ==> #[trigger] idx[j] < members.len(),
{
    assert forall|j: int| 0 <= j < idx.len() implies #[trigger] idx[j] < members.len() by {
        let name = names_at(members, idx)[j];
        lemma_last_named_range(members, name, members.len() as int);
    }
}

/// Every change a pre-release plan makes moves one of the packages
/// `(name, version)` it was given from its version to another one: to
/// `major.minor.patch-label` when entering `label`, to `major.minor.patch`
/// when leaving a pre-release.
pub proof fn law_plan_changes_move_versions(items: Seq<(Seq<char>, Seq<char>)>, label: Option<Seq<char>>)
    requires
        plan_outcome(items, label) is Ok,
    ensures
        forall|i: int|
            0 <= i < plan_outcome(items, label)->Ok_0.len() ==> {
                let c = #[trigger] plan_outcome(items, label)->Ok_0[i];
                &&& c.2 != c.1
                &&& items.contains((c.0, c.1))
                &&& semver_version(c.1) is Ok
                &&& moved_version(semver_version(c.1)->Ok_0, label) == Some(c.2)
            },
    decreases items.len(),
{
    if items.len() > 0 {
        let rest = items.drop_last();
        law_plan_changes_move_versions(rest, label);
        let v = plan_outcome(rest, label)->Ok_0;
        let w = plan_outcome(items, label)->Ok_0;
        assert forall|i: int| 0 <= i < w.len() implies {
            let c = #[trigger] w[i];
            &&& c.2 != c.1
            &&& items.contains((c.0, c.1))
            &&& semver_version(c.1) is Ok
            &&& moved_version(semver_version(c.1)->Ok_0, label) == Some(c.2)
        } by {
            if i < v.len() {
                assert(w[i] == v[i]);
                let c = v[i];
                let k = choose|k: int| 0 <= k < rest.len() && rest[k] == (c.0, c.1);
                assert(items[k] == rest[k]);
            } else {
                assert(items[items.len() - 1] == items.last());
            }
        }
    }
}

/// A pre-release label that is accepted is taken whole, as written
/// without surrounding whitespace.
pub proof fn law_label_is_whole_trimmed_text(label: Seq<char>)
    requires
        label_outcome(label) is Ok,
    ensures
        label_outcome(label) == Ok::<Seq<char>, Seq<char>>(trim(label)),
{
}

/// Entering the pre-release `l`, every planned change moves a package from
/// a version `major.minor.patch[-pre][+build]` to exactly
/// `major.minor.patch-l`: the release numbers kept, the whole label as its
/// pre-release, any old pre-release and build metadata dropped.
pub proof fn law_entered_version_carries_whole_label(items: Seq<(Seq<char>, Seq<char>)>, l: Seq<char>)
    requires
        plan_outcome(items, Some(l)) is Ok,
    ensures
        forall|i: int|
            0 <= i < plan_outcome(items, Some(l))->Ok_0.len() ==> {
                let c = #[trigger] plan_outcome(items, Some(l))->Ok_0[i];
                let p = semver_version(c.1)->Ok_0;
                &&& semver_version(c.1) is Ok
                &&& c.2 == decimal(p.0 as int) + "."@ + decimal(p.1 as int) + "."@ + decimal(p.2 as int) + "-"@ + l
            },
{
    law_plan_changes_move_versions(items, Some(l));
}

/// Leaving pre-release, every planned change moves a package from a
/// pre-release `major.minor.patch-pre[+build]` to exactly the release
/// `major.minor.patch`; a package that is no pre-release is not changed.
pub proof fn law_exited_version_is_plain_release(items: Seq<(Seq<char>, Seq<char>)>)
    requires
        plan_outcome(items, None) is Ok,
    ensures
        forall|i: int|
            0 <= i < plan_outcome(items, None)->Ok_0.len() ==> {
                let c = #[trigger] plan_outcome(items, None)->Ok_0[i];
                let p = semver_version(c.1)->Ok_0;
                &&& semver_version(c.1) is Ok
                &&& p.3.len() > 0
                &&& c.2 == decimal(p.0 as int) + "."@ + decimal(p.1 as int) + "."@ + decimal(p.2 as int)
            },
{
    law_plan_changes_move_versions(items, None);
}

/// Entering the pre-release `l`, every package given whose version is not
/// already `major.minor.patch-l` gets a change to exactly that version.
pub proof fn law_entering_changes_every_other_version(items: Seq<(Seq<char>, Seq<char>)>, l: Seq<char>, k: int)
    requires
        plan_outcome(items, Some(l)) is Ok,
        0 <= k < items.len(),
    ensures
        ({
            let (name, version) = items[k];
            let p = semver_version(version)->Ok_0;
            let target = decimal(p.0 as int) + "."@ + decimal(p.1 as int) + "."@ + decimal(p.2 as int) + "-"@ + l;
            &&& semver_version(version) is Ok
            &&& target != version ==> plan_outcome(items, Some(l))->Ok_0.contains((name, version, target))
        }),
    decreases items.len(),
{
    let rest = items.drop_last();
    let v = plan_outcome(rest, Some(l))->Ok_0;
    assert(plan_outcome(rest, Some(l)) is Ok);
    if k < items.len() - 1 {
        assert(rest[k] == items[k]);
        law_entering_changes_every_other_version(rest, l, k);
        let (name, version) = items[k];
        let p = semver_version(version)->Ok_0;
        let target = decimal(p.0 as int) + "."@ + decimal(p.1 as int) + "."@ + decimal(p.2 as int) + "-"@ + l;
        if target != version {
            let j = choose|j: int| 0 <= j < v.len() && v[j] == (name, version, target);
            let w = plan_outcome(items, Some(l))->Ok_0;
            assert(w == v || w == v.push(w.last()));
            if w != v {
                assert(w[j] == v[j]);
            }
        }
    } else {
        let w = plan_outcome(items, Some(l))->Ok_0;
        assert(items[k] == items.last());
        let (name, version) = items[k];
        let p = semver_version(version)->Ok_0;
        let target = decimal(p.0 as int) + "."@ + decimal(p.1 as int) + "."@ + decimal(p.2 as int) + "-"@ + l;
        if target != version {
            assert(w == v.push((name, version, target)));
            assert(w[w.len() - 1] == (name, version, target));
        }
    }
}

} // verus!
