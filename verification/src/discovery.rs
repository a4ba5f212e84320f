//! Cargo workspaces: the member patterns of the root manifest, each member's
//! name and version, and the workspace packages each member depends on.
use crate::errors::WorkspaceError;
use crate::paths::{clean, clean_path, join_path, joined, path_parts};
use crate::sorted::{insert_sorted, strictly_sorted, strs};
use crate::text::{chars_eq, chars_of, join2, owned, starts_with};
use crate::tree::{bool_of, field, field_of, list_of, text_of, Value};
use crate::types::{identifier_of, PackageInfo, PackageKind};
use vstd::prelude::*;

verus! {

/// Discovery of the packages of a Cargo workspace from its manifests.
pub struct CargoDiscovery;

/// The `[workspace]` table of a root manifest, when it is a table.
pub open spec fn workspace_table(root: Value) -> Option<Value> {
    match field(root, "workspace"@) {
        Some(Value::Table(t)) => Some(Value::Table(t)),
        _ => None,
    }
}

/// Every item is a string.
pub open spec fn all_strings(items: Seq<Value>) -> bool {
    forall|i: int| 0 <= i < items.len() ==> #[trigger] items[i] is Str
}

/// The texts of string items.
pub open spec fn item_texts(items: Seq<Value>) -> Seq<Seq<char>> {
    items.map_values(|v: Value| match v {
        Value::Str(s) => s@,
        _ => seq![],
    })
}

/// `workspace.package.version`, when it is a string.
pub open spec fn workspace_version(root: Value) -> Option<Seq<char>> {
    text_of(field_of(field_of(field(root, "workspace"@), "package"@), "version"@))
}

/// The version a member's `[package]` table gives, or the message when it
/// inherits a version the workspace does not define.
pub open spec fn package_version(pkg: Value, inherited: Option<Seq<char>>, manifest_path: Seq<char>) -> Result<
    Seq<char>,
    Seq<char>,
> {
    match field(pkg, "version"@) {
        Some(Value::Str(v)) => Ok(v@),
        Some(Value::Table(t)) => if bool_of(field(Value::Table(t), "workspace"@)) == Some(true) {
            match inherited {
                Some(w) => Ok(w),
                None => Err(manifest_path + ": version.workspace = true requires workspace.package.version"@),
            }
        } else {
            Ok(seq![])
        },
        _ => Ok(seq![]),
    }
}

/// The same path, compared component by component.
pub open spec fn same_path(a: Seq<char>, b: Seq<char>) -> bool {
    starts_with(a, seq!['/']) == starts_with(b, seq!['/']) && path_parts(a) == path_parts(b)
}

/// `name` joined onto `dir`, an absolute `name` replacing it, as `Path::join` does.
pub open spec fn path_joined(dir: Seq<char>, name: Seq<char>) -> Seq<char> {
    if starts_with(name, seq!['/']) {
        name
    } else {
        joined(dir, name)
    }
}

/// Member `i` is the one registered for its name: no later member has the same name.
pub open spec fn registered(members: Seq<(Seq<char>, Seq<char>)>, i: int) -> bool {
    forall|j: int| i < j < members.len() ==> #[trigger] members[j].0 != members[i].0
}

/// Whether the dependency `dep_name = dep` of the crate in `crate_dir` is a
/// workspace member: by a `path` naming a member's directory, else by
/// `workspace = true` with a member of that name. `members` are the
/// `(name, directory)` of the members.
pub open spec fn internal_dep(
    crate_dir: Seq<char>,
    members: Seq<(Seq<char>, Seq<char>)>,
    dep_name: Seq<char>,
    dep: Value,
) -> bool {
    match dep {
        Value::Table(_) => match text_of(field(dep, "path"@)) {
            Some(p) => exists|i: int|
                0 <= i < members.len() && registered(members, i) && same_path(
                    #[trigger] members[i].1,
                    clean(path_joined(crate_dir, p)),
                ),
            None => bool_of(field(dep, "workspace"@)) == Some(true) && exists|i: int|
                0 <= i < members.len() && #[trigger] members[i].0 == dep_name,
        },
        _ => false,
    }
}

/// The identifiers of the workspace packages listed in the `[dependencies]`
/// and `[build-dependencies]` tables (development dependencies do not order
/// publishing).
pub open spec fn internal_ids(crate_dir: Seq<char>, members: Seq<(Seq<char>, Seq<char>)>, manifest: Value) -> Set<
    Seq<char>,
> {
    section_ids(crate_dir, members, manifest, "dependencies"@).union(
        section_ids(crate_dir, members, manifest, "build-dependencies"@),
    )
}

/// The identifiers of the workspace packages listed in `[dev-dependencies]`
/// with a `version` (only those have a requirement to keep current; they
/// do not order publishing).
pub open spec fn internal_dev_ids(crate_dir: Seq<char>, members: Seq<(Seq<char>, Seq<char>)>, manifest: Value) -> Set<
    Seq<char>,
> {
    Set::new(
        |id: Seq<char>|
            exists|q: int|
                0 <= q < section_entries(manifest, "dev-dependencies"@).len() && id == identifier_of(
                    PackageKind::Cargo,
                    #[trigger] section_entries(manifest, "dev-dependencies"@)[q].0@,
                ) && internal_dep(
                    crate_dir,
                    members,
                    section_entries(manifest, "dev-dependencies"@)[q].0@,
                    section_entries(manifest, "dev-dependencies"@)[q].1,
                ) && field(section_entries(manifest, "dev-dependencies"@)[q].1, "version"@) is Some,
    )
}

/// The entries of a dependency table, or none.
pub open spec fn section_entries(manifest: Value, section: Seq<char>) -> Seq<(String, Value)> {
    match field(manifest, section) {
        Some(Value::Table(es)) => es@,
        _ => seq![],
    }
}

/// The identifiers of the members one dependency section lists.
pub open spec fn section_ids(
    crate_dir: Seq<char>,
    members: Seq<(Seq<char>, Seq<char>)>,
    manifest: Value,
    section: Seq<char>,
) -> Set<Seq<char>> {
    Set::new(
        |id: Seq<char>|
            exists|q: int|
                0 <= q < section_entries(manifest, section).len() && id == identifier_of(
                    PackageKind::Cargo,
                    #[trigger] section_entries(manifest, section)[q].0@,
                ) && internal_dep(
                    crate_dir,
                    members,
                    section_entries(manifest, section)[q].0@,
                    section_entries(manifest, section)[q].1,
                ),
    )
}

/// The pairs of strings as character sequences.
pub open spec fn pairs(v: Seq<(String, String)>) -> Seq<(Seq<char>, Seq<char>)> {
    v.map_values(|p: (String, String)| (p.0@, p.1@))
}

fn is_absolute(s: &str) -> (r: bool)
    ensures
        r == starts_with(s@, seq!['/']),
{
    let slash = vec!['/'];
    assert(slash@ =~= seq!['/']);
    crate::text::starts_with_exec(&chars_of(s), &slash)
}

fn parts_equal(a: &str, b: &str) -> (r: bool)
    ensures
        r == same_path(a@, b@),
{
    let pa = crate::paths::parts_of(a);
    let pb = crate::paths::parts_of(b);
    if is_absolute(a) != is_absolute(b) || pa.len() != pb.len() {
        assert(pa.len() != pb.len() ==> crate::text::views(pa@).len() != crate::text::views(pb@).len());
        return false;
    }
    let mut i: usize = 0;
    while i < pa.len()
        invariant
            i <= pa.len() == pb.len(),
            crate::text::views(pa@) == path_parts(a@),
            crate::text::views(pb@) == path_parts(b@),
            forall|j: int| 0 <= j < i ==> path_parts(a@)[j] == path_parts(b@)[j],
        decreases pa.len() - i,
    {
        if !chars_eq(&pa[i], &pb[i]) {
            assert(path_parts(a@)[i as int] != path_parts(b@)[i as int]);
            return false;
        }
        i += 1;
    }
    assert(path_parts(a@) =~= path_parts(b@));
    true
}

impl CargoDiscovery {
    /// The member patterns of the root manifest's `[workspace]`.
    #[verifier::loop_isolation(false)]
    pub fn parse_workspace_members(&self, root_toml: &Value) -> (r: Result<Vec<String>, WorkspaceError>)
        ensures
            match workspace_table(*root_toml) {
                None => r matches Err(WorkspaceError::NotFound),
                Some(w) => match list_of(field(w, "members"@)) {
                    None => r matches Err(WorkspaceError::InvalidWorkspace(m)) && m@
                        == "missing 'members' in [workspace]"@,
                    Some(items) => if all_strings(items) {
                        r matches Ok(ps) && strs(ps@) == item_texts(items)
                    } else {
                        r matches Err(WorkspaceError::InvalidWorkspace(m)) && m@
                            == "non-string member in workspace.members"@
                    },
                },
            },
    {
        let ws = match root_toml.get("workspace") {
            Some(w) => match w {
                Value::Table(_) => w,
                _ => {
                    return Err(WorkspaceError::NotFound);
                },
            },
            None => {
                return Err(WorkspaceError::NotFound);
            },
        };
        let items = match ws.get("members") {
            Some(m) => match m.as_list() {
                Some(items) => items,
                None => {
                    return Err(WorkspaceError::InvalidWorkspace(owned("missing 'members' in [workspace]")));
                },
            },
            None => {
                return Err(WorkspaceError::InvalidWorkspace(owned("missing 'members' in [workspace]")));
            },
        };
        let mut out: Vec<String> = Vec::new();
        let mut i: usize = 0;
        while i < items.len()
            invariant
                i <= items.len(),
                strs(out@) == item_texts(items@.take(i as int)),
                all_strings(items@.take(i as int)),
            decreases items.len() - i,
        {
            match &items[i] {
                Value::Str(s) => {
                    let ghost before = out@;
                    let t = owned(s.as_str());
                    out.push(t);
                    assert(out@ =~= before.push(t));
                    assert(items@.take(i + 1) =~= items@.take(i as int).push(items@[i as int]));
                    assert(item_texts(items@.take(i as int).push(items@[i as int])) =~= item_texts(
                        items@.take(i as int),
                    ).push(s@));
                    assert(strs(out@) =~= strs(before).push(t@));
                    assert(all_strings(items@.take(i + 1)));
                },
                _ => {
                    assert(!all_strings(items@)) by {
                        assert(!(items@[i as int] is Str));
                    }
                    return Err(WorkspaceError::InvalidWorkspace(owned("non-string member in workspace.members")));
                },
            }
            i += 1;
        }
        assert(items@.take(items.len() as int) =~= items@);
        Ok(out)
    }

    /// Whether a dependency of the crate in `crate_dir` is a workspace member;
    #[verifier::loop_isolation(false)]
    /// `members` are the `(name, directory)` of the members, in order.
    pub fn is_internal_dep(
        &self,
        crate_dir: &str,
        members: &[(String, String)],
        dep_name: &str,
        dep_val: &Value,
    ) -> (r: bool)
        ensures
            r == internal_dep(crate_dir@, pairs(members@), dep_name@, *dep_val),
    {
        let ghost ms = pairs(members@);
        match dep_val {
            Value::Table(_) => {},
            _ => {
                return false;
            },
        }
        match dep_val.get("path") {
            Some(pv) => match pv.as_str() {
                Some(p) => {
                    let joined_path = if is_absolute(p) {
                        owned(p)
                    } else {
                        join_path(crate_dir, p)
                    };
                    let dep_path = clean_path(joined_path.as_str());
                    let mut i: usize = 0;
                    while i < members.len()
                        invariant
                            i <= members.len(),
                            ms == pairs(members@),
                            dep_path@ == clean(path_joined(crate_dir@, p@)),
                            forall|j: int|
                                0 <= j < i ==> !(registered(ms, j) && same_path(#[trigger] ms[j].1, dep_path@)),
                        decreases members.len() - i,
                    {
                        assert(ms[i as int] == (members@[i as int].0@, members@[i as int].1@));
                        if parts_equal(members[i].1.as_str(), dep_path.as_str()) && self.is_last_named(members, i) {
                            assert(registered(ms, i as int) && same_path(ms[i as int].1, dep_path@));
                            return true;
                        }
                        i += 1;
                    }
                    return false;
                },
                None => {},
            },
            None => {},
        }
        let workspace = match dep_val.get("workspace") {
            Some(w) => w.as_bool(),
            None => None,
        };
        match workspace {
            Some(true) => {},
            _ => {
                return false;
            },
        }
        let key = chars_of(dep_name);
        let mut i: usize = 0;
        while i < members.len()
            invariant
                i <= members.len(),
                ms == pairs(members@),
                key@ == dep_name@,
                forall|j: int| 0 <= j < i ==> #[trigger] ms[j].0 != dep_name@,
            decreases members.len() - i,
        {
            assert(ms[i as int] == (members@[i as int].0@, members@[i as int].1@));
            if chars_eq(&chars_of(members[i].0.as_str()), &key) {
                assert(ms[i as int].0 == dep_name@);
                return true;
            }
            i += 1;
        }
        false
    }

    fn is_last_named(&self, members: &[(String, String)], i: usize) -> (r: bool)
        requires
            i < members.len(),
        ensures
            r == registered(pairs(members@), i as int),
    {
        let ghost ms = pairs(members@);
        let name = chars_of(members[i].0.as_str());
        assert(ms[i as int].0 == name@);
        let mut j: usize = i + 1;
        while j < members.len()
            invariant
                i < j <= members.len(),
                ms == pairs(members@),
                ms[i as int].0 == name@,
                forall|q: int| i < q < j ==> #[trigger] ms[q].0 != ms[i as int].0,
            decreases members.len() - j,
        {
            assert(ms[j as int] == (members@[j as int].0@, members@[j as int].1@));
            if chars_eq(&chars_of(members[j].0.as_str()), &name) {
                assert(ms[j as int].0 == ms[i as int].0);
                return false;
            }
            j += 1;
        }
        true
    }

    /// The identifiers of the workspace packages the crate in `crate_dir`
    /// depends on, sorted and without duplicates.
    pub fn collect_internal_deps(&self, crate_dir: &str, members: &[(String, String)], manifest: &Value) -> (r:
        Vec<String>)
        ensures
            strictly_sorted(strs(r@)),
            strs(r@).to_set() == internal_ids(crate_dir@, pairs(members@), *manifest),
    {
        let mut out: Vec<String> = Vec::new();
        let ghost target = internal_ids(crate_dir@, pairs(members@), *manifest);
        self.collect_section(crate_dir, members, manifest, "dependencies", &mut out);
        self.collect_section(crate_dir, members, manifest, "build-dependencies", &mut out);
        assert(strs(out@).to_set() =~= target);
        out
    }

    fn collect_section(
        &self,
        crate_dir: &str,
        members: &[(String, String)],
        manifest: &Value,
        section: &str,
        out: &mut Vec<String>,
    )
        requires
            strictly_sorted(strs(old(out)@)),
        ensures
            strictly_sorted(strs(final(out)@)),
            strs(final(out)@).to_set() == strs(old(out)@).to_set().union(
                section_ids(crate_dir@, pairs(members@), *manifest, section@),
            ),
    {
        let ghost start = strs(out@).to_set();
        let ghost ids = section_ids(crate_dir@, pairs(members@), *manifest, section@);
        let entries = match manifest.get(section) {
            Some(t) => match t.as_map() {
                Some(es) => es,
                None => {
                    assert(ids =~= Set::empty());
                    assert(start.union(ids) =~= start);
                    return;
                },
            },
            None => {
                assert(ids =~= Set::empty());
                assert(start.union(ids) =~= start);
                return;
            },
        };
        let mut k: usize = 0;
        while k < entries.len()
            invariant
                k <= entries.len(),
                section_entries(*manifest, section@) == entries@,
                strictly_sorted(strs(out@)),
                strs(out@).to_set() == start.union(
                    Set::new(
                        |id: Seq<char>|
                            exists|q: int|
                                0 <= q < k && id == identifier_of(PackageKind::Cargo, #[trigger] entries@[q].0@)
                                    && internal_dep(crate_dir@, pairs(members@), entries@[q].0@, entries@[q].1),
                    ),
                ),
            decreases entries.len() - k,
        {
            let ghost before = strs(out@).to_set();
            let name = entries[k].0.as_str();
            if self.is_internal_dep(crate_dir, members, name, &entries[k].1) {
                let id = PackageInfo::dependency_identifier(PackageKind::Cargo, name);
                insert_sorted(out, id);
            }
            assert(strs(out@).to_set() =~= start.union(
                Set::new(
                    |id: Seq<char>|
                        exists|q: int|
                            0 <= q < k + 1 && id == identifier_of(PackageKind::Cargo, #[trigger] entries@[q].0@)
                                && internal_dep(crate_dir@, pairs(members@), entries@[q].0@, entries@[q].1),
                ),
            ));
            k += 1;
        }
        assert(Set::new(
            |id: Seq<char>|
                exists|q: int|
                    0 <= q < entries.len() && id == identifier_of(PackageKind::Cargo, #[trigger] entries@[q].0@)
                        && internal_dep(crate_dir@, pairs(members@), entries@[q].0@, entries@[q].1),
        ) =~= ids);
    }

    /// The identifiers of the workspace packages listed, with a version, in
    /// the crate's `[dev-dependencies]`, sorted and without duplicates.
    pub fn collect_internal_dev_deps(&self, crate_dir: &str, members: &[(String, String)], manifest: &Value) -> (r:
        Vec<String>)
        ensures
            strictly_sorted(strs(r@)),
            strs(r@).to_set() == internal_dev_ids(crate_dir@, pairs(members@), *manifest),
    {
        let mut out: Vec<String> = Vec::new();
        assert(strs(out@).to_set() =~= Set::empty());
        self.collect_dev_section(crate_dir, members, manifest, &mut out);
        assert(strs(out@).to_set() =~= internal_dev_ids(crate_dir@, pairs(members@), *manifest));
        out
    }

    fn collect_dev_section(
        &self,
        crate_dir: &str,
        members: &[(String, String)],
        manifest: &Value,
        out: &mut Vec<String>,
    )
        requires
            strictly_sorted(strs(old(out)@)),
        ensures
            strictly_sorted(strs(final(out)@)),
            strs(final(out)@).to_set() == strs(old(out)@).to_set().union(
                internal_dev_ids(crate_dir@, pairs(members@), *manifest),
            ),
    {
        let ghost start = strs(out@).to_set();
        let ghost ids = internal_dev_ids(crate_dir@, pairs(members@), *manifest);
        let entries = match manifest.get("dev-dependencies") {
            Some(t) => match t.as_map() {
                Some(es) => es,
                None => {
                    assert(ids =~= Set::empty());
                    assert(start.union(ids) =~= start);
                    return;
                },
            },
            None => {
                assert(ids =~= Set::empty());
                assert(start.union(ids) =~= start);
                return;
            },
        };
        let mut k: usize = 0;
        while k < entries.len()
            invariant
                k <= entries.len(),
                section_entries(*manifest, "dev-dependencies"@) == entries@,
                strictly_sorted(strs(out@)),
                strs(out@).to_set() == start.union(
                    Set::new(
                        |id: Seq<char>|
                            exists|q: int|
                                0 <= q < k && id == identifier_of(PackageKind::Cargo, #[trigger] entries@[q].0@)
                                    && internal_dep(crate_dir@, pairs(members@), entries@[q].0@, entries@[q].1)
                                    && field(entries@[q].1, "version"@) is Some,
                    ),
                ),
            decreases entries.len() - k,
        {
            let ghost before = strs(out@).to_set();
            let name = entries[k].0.as_str();
            if self.is_internal_dep(crate_dir, members, name, &entries[k].1) && entries[k].1.get("version").is_some() {
                let id = PackageInfo::dependency_identifier(PackageKind::Cargo, name);
                insert_sorted(out, id);
            }
            assert(strs(out@).to_set() =~= start.union(
                Set::new(
                    |id: Seq<char>|
                        exists|q: int|
                            0 <= q < k + 1 && id == identifier_of(PackageKind::Cargo, #[trigger] entries@[q].0@)
                                && internal_dep(crate_dir@, pairs(members@), entries@[q].0@, entries@[q].1)
                                    && field(entries@[q].1, "version"@) is Some,
                ),
            ));
            k += 1;
        }
        assert(Set::new(
            |id: Seq<char>|
                exists|q: int|
                    0 <= q < entries.len() && id == identifier_of(PackageKind::Cargo, #[trigger] entries@[q].0@)
                        && internal_dep(crate_dir@, pairs(members@), entries@[q].0@, entries@[q].1)
                                    && field(entries@[q].1, "version"@) is Some,
        ) =~= ids);
    }

    /// The packages of the members `(directory, manifest path, manifest)`, in
    /// order: each member's `[package]` name and version (inherited from
    /// `workspace.package.version` of `root_toml` when it says so) and the
    /// workspace packages it depends on.
    pub fn discover_members(
        &self,
        root_toml: &Value,
        members: &[(String, String, Value)],
    ) -> (r: Result<Vec<PackageInfo>, WorkspaceError>)
        ensures
            match member_errors(*root_toml, members@, 0) {
                Some(e) => r matches Err(WorkspaceError::InvalidManifest(m)) && m@ == e,
                None => r matches Ok(ps) && ps.len() == members.len() && forall|i: int|
                    0 <= i < members.len() ==> member_package(
                        *root_toml,
                        members@,
                        i,
                        #[trigger] ps@[i],
                    ),
            },
    {
        let ghost inherited = workspace_version(*root_toml);
        let inherited_exec = match root_toml.get("workspace") {
            Some(w) => match w.get("package") {
                Some(p) => match p.get("version") {
                    Some(v) => match v.as_str() {
                        Some(s) => Some(owned(s)),
                        None => None,
                    },
                    None => None,
                },
                None => None,
            },
            None => None,
        };
        assert(match inherited_exec {
            Some(s) => inherited == Some(s@),
            None => inherited is None,
        });
        let mut named: Vec<(String, String)> = Vec::new();
        let mut versions: Vec<String> = Vec::new();
        let mut i: usize = 0;
        while i < members.len()
            invariant
                i <= members.len(),
                inherited == workspace_version(*root_toml),
                match inherited_exec {
                    Some(s) => inherited == Some(s@),
                    None => inherited is None,
                },
                member_errors(*root_toml, members@, 0) == member_errors(*root_toml, members@, i as int),
                named.len() == i && versions.len() == i,
                forall|j: int| 0 <= j < i ==> #[trigger] pairs(named@)[j] == member_entry(members@, j),
                forall|j: int| 0 <= j < i ==> member_fields(*root_toml, members@[j]) == Ok::<(Seq<char>, Seq<char>), Seq<char>>(
                    (#[trigger] named@[j].0@, versions@[j]@),
                ),
            decreases members.len() - i,
        {
            let (dir, path, manifest) = (&members[i].0, &members[i].1, &members[i].2);
            let pkg = match manifest.get("package") {
                Some(p) => match p {
                    Value::Table(_) => p,
                    _ => {
                        return Err(WorkspaceError::InvalidManifest(join2("missing [package] in ", path.as_str())));
                    },
                },
                None => {
                    return Err(WorkspaceError::InvalidManifest(join2("missing [package] in ", path.as_str())));
                },
            };
            let name = match pkg.get("name") {
                Some(n) => match n.as_str() {
                    Some(s) => owned(s),
                    None => {
                        return Err(WorkspaceError::InvalidManifest(join2("missing package.name in ", path.as_str())));
                    },
                },
                None => {
                    return Err(WorkspaceError::InvalidManifest(join2("missing package.name in ", path.as_str())));
                },
            };
            let version = match pkg.get("version") {
                Some(v) => match v {
                    Value::Str(s) => owned(s.as_str()),
                    Value::Table(_) => {
                        let ws = match v.get("workspace") {
                            Some(b) => b.as_bool(),
                            None => None,
                        };
                        match ws {
                            Some(true) => match &inherited_exec {
                                Some(w) => owned(w.as_str()),
                                None => {
                                    return Err(WorkspaceError::InvalidManifest(join2(
                                        path.as_str(),
                                        ": version.workspace = true requires workspace.package.version",
                                    )));
                                },
                            },
                            _ => String::new(),
                        }
                    },
                    _ => String::new(),
                },
                None => String::new(),
            };
            let ghost nb = named@;
            let ghost vb = versions@;
            let entry = (name, owned(dir.as_str()));
            named.push(entry);
            versions.push(version);
            assert(named@ =~= nb.push(entry));
            assert(versions@ =~= vb.push(version));
            assert(forall|j: int| 0 <= j < i ==> named@[j] == nb[j] && versions@[j] == vb[j]);
            assert(pairs(named@) =~= pairs(nb).push((entry.0@, entry.1@)));
            assert(member_name(*manifest) == entry.0@);
            assert(member_fields(*root_toml, members@[i as int]) == Ok::<(Seq<char>, Seq<char>), Seq<char>>((entry.0@, version@)));
            assert forall|j: int| 0 <= j < i + 1 implies member_fields(*root_toml, members@[j]) == Ok::<(Seq<char>, Seq<char>), Seq<char>>(
                (#[trigger] named@[j].0@, versions@[j]@),
            ) by {
                if j < i {
                    assert(named@[j] == nb[j] && versions@[j] == vb[j]);
                    assert(member_fields(*root_toml, members@[j]) == Ok::<(Seq<char>, Seq<char>), Seq<char>>((nb[j].0@, vb[j]@)));
                } else {
                    assert(named@[j] == entry && versions@[j] == version);
                }
            }
            i += 1;
        }
        assert(pairs(named@) =~= Seq::new(members.len() as nat, |j: int| member_entry(members@, j)));
        let mut out: Vec<PackageInfo> = Vec::new();
        let mut k: usize = 0;
        while k < members.len()
            invariant
                k <= members.len(),
                named.len() == members.len() && versions.len() == members.len(),
                pairs(named@) == Seq::new(members.len() as nat, |j: int| member_entry(members@, j)),
                forall|j: int| 0 <= j < members.len() ==> member_fields(*root_toml, members@[j]) == Ok::<(Seq<char>, Seq<char>), Seq<char>>(
                    (#[trigger] named@[j].0@, versions@[j]@),
                ),
                member_errors(*root_toml, members@, 0) is None,
                out.len() == k,
                forall|j: int| 0 <= j < k ==> member_package(*root_toml, members@, j, #[trigger] out@[j]),
            decreases members.len() - k,
        {
            let deps = self.collect_internal_deps(members[k].0.as_str(), &named, &members[k].2);
            let dev_deps = self.collect_internal_dev_deps(members[k].0.as_str(), &named, &members[k].2);
            let name = owned(named[k].0.as_str());
            let identifier = PackageInfo::dependency_identifier(PackageKind::Cargo, name.as_str());
            let p = PackageInfo {
                name,
                identifier,
                version: owned(versions[k].as_str()),
                path: owned(members[k].0.as_str()),
                internal_deps: deps,
                internal_dev_deps: dev_deps,
                kind: PackageKind::Cargo,
            };
            let ghost before = out@;
            out.push(p);
            assert(out@ =~= before.push(p));
            assert(pairs(named@)[k as int] == member_entry(members@, k as int));
            assert(member_package(*root_toml, members@, k as int, p));
            assert(forall|j: int| 0 <= j < k ==> out@[j] == before[j]);
            k += 1;
        }
        Ok(out)
    }
}

/// The name and version a member's manifest gives, or the message of what it lacks.
pub open spec fn member_fields(root: Value, member: (String, String, Value)) -> Result<
    (Seq<char>, Seq<char>),
    Seq<char>,
> {
    let (dir, path, manifest) = member;
    match field(manifest, "package"@) {
        Some(Value::Table(t)) => match text_of(field(Value::Table(t), "name"@)) {
            None => Err("missing package.name in "@ + path@),
            Some(name) => match package_version(Value::Table(t), workspace_version(root), path@) {
                Ok(v) => Ok((name, v)),
                Err(e) => Err(e),
            },
        },
        _ => Err("missing [package] in "@ + path@),
    }
}

/// The message of the first member, from position `i` on, whose manifest lacks something.
pub open spec fn member_errors(root: Value, members: Seq<(String, String, Value)>, i: int) -> Option<Seq<char>>
    decreases members.len() - i,
{
    if i < 0 || i >= members.len() {
        None
    } else {
        match member_fields(root, members[i]) {
            Err(e) => Some(e),
            Ok(_) => member_errors(root, members, i + 1),
        }
    }
}

/// The `(name, directory)` of member `j`, as its manifest names it.
pub open spec fn member_entry(members: Seq<(String, String, Value)>, j: int) -> (Seq<char>, Seq<char>) {
    (member_name(members[j].2), members[j].0@)
}

/// The name a member's `[package]` table gives, or empty.
pub open spec fn member_name(manifest: Value) -> Seq<char> {
    match text_of(field_of(field(manifest, "package"@), "name"@)) {
        Some(n) => n,
        None => seq![],
    }
}

/// `p` is the package discovered for member `i`.
pub open spec fn member_package(
    root: Value,
    members: Seq<(String, String, Value)>,
    i: int,
    p: PackageInfo,
) -> bool {
    member_fields(root, members[i]) matches Ok((name, version)) && p.name@ == name && p.version@ == version
        && p.identifier@ == identifier_of(PackageKind::Cargo, name) && p.path@ == members[i].0@
        && p.kind == PackageKind::Cargo && strictly_sorted(strs(p.internal_deps@)) && strs(
        p.internal_deps@,
    ).to_set() == internal_ids(
        members[i].0@,
        Seq::new(members.len() as nat, |j: int| member_entry(members, j)),
        members[i].2,
    ) && strictly_sorted(strs(p.internal_dev_deps@)) && strs(p.internal_dev_deps@).to_set() == internal_dev_ids(
        members[i].0@,
        Seq::new(members.len() as nat, |j: int| member_entry(members, j)),
        members[i].2,
    )
}

} // verus!
