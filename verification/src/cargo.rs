//! Cargo: dependency requirements checked against planned versions,
//! lexical paths, and version updates of a manifest's text.
use crate::paths::{clean, clean_path as clean_path_text};
use crate::semantic::{parse_semver, parse_semver_req, semver_matches, semver_req_matches, semver_req_parses, semver_version};
use crate::errors::SampoError;
use crate::toml_layout::{cargo_fields, cargo_layout, package_slot, toml_syntax};
use crate::parse::{parse_toml, toml_document};
use crate::text::{chars_of, join3, owned, string_of, trim, trim_chars};
use crate::types::{CheckOutcome, ConstraintCheckResult, PackageInfo, PackageKind};
use crate::tree::{field, Value};
use crate::manifest::{compute_workspace_dependency_version, opt_text, workspace_dependency_version};
use crate::npm::{apply_rewrites, push_rewrite, rewrite_views, rewritten, Rewrite};
use crate::pip::{entry_views, toml_string, toml_string_text, TomlSpan};
use crate::text::{chars_eq, join2};
use vstd::prelude::*;

verus! {

/// The outcome of checking the Cargo requirement `constraint` against `version`,
/// both trimmed, as the `semver` crate reads and matches them.
pub open spec fn cargo_check(dep_name: Seq<char>, constraint: Seq<char>, version: Seq<char>) -> CheckOutcome {
    let c = trim(constraint);
    let v = trim(version);
    if c.len() == 0 {
        CheckOutcome::Skipped { reason: "empty constraint"@ }
    } else if v.len() == 0 {
        CheckOutcome::Skipped { reason: "empty version"@ }
    } else if !semver_req_parses(c) {
        CheckOutcome::Skipped { reason: "invalid version requirement '"@ + c + "' for '"@ + dep_name + "'"@ }
    } else if semver_version(v) is Err {
        CheckOutcome::Skipped { reason: "invalid version '"@ + v + "'"@ }
    } else if semver_matches(c, v) {
        CheckOutcome::Satisfied
    } else {
        CheckOutcome::NotSatisfied { constraint: c, new_version: v }
    }
}

/// Check the requirement `constraint` on `dep_name` against the planned `new_version`.
pub fn check_dependency_constraint(dep_name: &str, constraint: &str, new_version: &str) -> (r: Result<
    ConstraintCheckResult,
    SampoError,
>)
    ensures
        r matches Ok(c) && c@ == cargo_check(dep_name@, constraint@, new_version@),
{
    let c = string_of(&trim_chars(&chars_of(constraint)));
    let v = string_of(&trim_chars(&chars_of(new_version)));
    if chars_of(c.as_str()).len() == 0 {
        return Ok(ConstraintCheckResult::Skipped { reason: owned("empty constraint") });
    }
    if chars_of(v.as_str()).len() == 0 {
        return Ok(ConstraintCheckResult::Skipped { reason: owned("empty version") });
    }
    let req = match parse_semver_req(c.as_str()) {
        Some(q) => q,
        None => {
            let mut reason = join3("invalid version requirement '", c.as_str(), "' for '");
            reason = join3(reason.as_str(), dep_name, "'");
            return Ok(ConstraintCheckResult::Skipped { reason });
        },
    };
    let ver = match parse_semver(v.as_str()) {
        Ok(x) => x,
        Err(_) => {
            return Ok(
                ConstraintCheckResult::Skipped { reason: join3("invalid version '", v.as_str(), "'") },
            );
        },
    };
    if semver_req_matches(&req, &ver) {
        Ok(ConstraintCheckResult::Satisfied)
    } else {
        Ok(ConstraintCheckResult::NotSatisfied { constraint: c, new_version: v })
    }
}

/// Resolve `.` and `..` in a path without touching the file system.
pub fn clean_path(path: &str) -> (r: String)
    ensures
        r@ == clean(path@),
{
    clean_path_text(path)
}

/// Whether a parsed `Cargo.toml` lets `cargo publish` target crates.io: it
/// needs a `[package]` table; `publish = false` forbids it, and a `publish`
/// list allows it only when the list names `crates-io`.
pub open spec fn publishable_to_crates_io(manifest: Value) -> bool {
    match field(manifest, "package"@) {
        Some(Value::Table(p)) => match field(Value::Table(p), "publish"@) {
            Some(Value::Bool(false)) => false,
            Some(Value::List(items)) => exists|i: int|
                0 <= i < items@.len() && is_text(#[trigger] items@[i], "crates-io"@),
            _ => true,
        },
        _ => false,
    }
}

/// The value is the string `t`.
pub open spec fn is_text(v: Value, t: Seq<char>) -> bool {
    match v {
        Value::Str(s) => s@ == t,
        _ => false,
    }
}

/// The arguments of `cargo` that publish the package whose manifest is at
/// `manifest_path`: `publish --manifest-path <path>`, `--dry-run` when asked,
/// then the extra arguments as given.
pub fn publish_args(manifest_path: &str, dry_run: bool, extra_args: &[String]) -> (r: Vec<String>)
    ensures
        crate::publish::arg_views(r@) == seq!["publish"@, "--manifest-path"@, manifest_path@] + (if dry_run {
            seq!["--dry-run"@]
        } else {
            seq![]
        }) + crate::publish::arg_views(extra_args@),
{
    let mut args: Vec<String> = Vec::new();
    args.push(owned("publish"));
    args.push(owned("--manifest-path"));
    args.push(owned(manifest_path));
    if dry_run {
        args.push(owned("--dry-run"));
    }
    let ghost head = crate::publish::arg_views(args@);
    assert(head =~= seq!["publish"@, "--manifest-path"@, manifest_path@] + (if dry_run {
        seq!["--dry-run"@]
    } else {
        seq![]
    }));
    let mut i: usize = 0;
    while i < extra_args.len()
        invariant
            i <= extra_args.len(),
            crate::publish::arg_views(args@) == head + crate::publish::arg_views(extra_args@.take(i as int)),
        decreases extra_args.len() - i,
    {
        let ghost before = args@;
        args.push(owned(extra_args[i].as_str()));
        assert(crate::publish::arg_views(extra_args@.take(i + 1)) =~= crate::publish::arg_views(extra_args@.take(i as int)).push(
            extra_args@[i as int]@,
        ));
        assert(crate::publish::arg_views(args@) =~= crate::publish::arg_views(before).push(extra_args@[i as int]@));
        i += 1;
    }
    assert(extra_args@.take(extra_args.len() as int) =~= extra_args@);
    args
}

/// Whether the package whose `Cargo.toml` at `manifest_path` reads `text`
/// may be published to crates.io; a text that is no TOML document is
/// invalid data.
pub fn is_publishable(manifest_path: &str, text: &str) -> (r: Result<bool, SampoError>)
    ensures
        match toml_document(text@) {
            Err(e) => r matches Err(SampoError::InvalidData(m)) && m@ == "invalid TOML in "@ + manifest_path@ + ": "@ + e,
            Ok(doc) => r == Ok::<bool, SampoError>(publishable_to_crates_io(doc)),
        },
{
    match parse_toml(text) {
        Ok(doc) => Ok(is_publishable_to_crates_io(&doc)),
        Err(e) => {
            let head = join3("invalid TOML in ", manifest_path, ": ");
            Err(SampoError::InvalidData(join2(head.as_str(), e.as_str())))
        },
    }
}

/// Whether the package of a parsed `Cargo.toml` may be published to crates.io.
#[verifier::loop_isolation(false)]
pub fn is_publishable_to_crates_io(manifest: &Value) -> (r: bool)
    ensures
        r == publishable_to_crates_io(*manifest),
{
    let pkg = match manifest.get("package") {
        Some(p) => match p {
            Value::Table(_) => p,
            _ => {
                return false;
            },
        },
        None => {
            return false;
        },
    };
    match pkg.get("publish") {
        Some(v) => match v {
            Value::Bool(b) => {
                if !*b {
                    return false;
                }
                true
            },
            Value::List(items) => {
                let target = chars_of("crates-io");
                let mut i: usize = 0;
                while i < items.len()
                    invariant
                        i <= items.len(),
                        target@ == "crates-io"@,
                        forall|j: int| 0 <= j < i ==> !is_text(#[trigger] items@[j], "crates-io"@),
                    decreases items.len() - i,
                {
                    match &items[i] {
                        Value::Str(s) => {
                            if crate::text::chars_eq(&chars_of(s.as_str()), &target) {
                                assert(is_text(items@[i as int], "crates-io"@));
                                return true;
                            }
                        },
                        _ => {},
                    }
                    i += 1;
                }
                false
            },
            _ => true,
        },
        None => true,
    }
}

/// Where a table's `version` value stands in a manifest's text, or where a
/// new one is written.
#[derive(Debug)]
pub struct VersionSlot {
    /// For a dependency, the table sets `workspace = true`; for
    /// `[package]`, its `version` does.
    pub workspace: bool,
    /// The `version` value, when the table has one.
    pub version: Option<TomlSpan>,
    /// Whether the table is written inline, `{ ... }`.
    pub inline: bool,
    /// Whether the table has entries.
    pub has_entries: bool,
    /// The text a new `version` entry replaces and keeps: the closing brace
    /// of an inline table, else the character that ends the table's last
    /// line.
    pub anchor: TomlSpan,
}

/// How a dependency is written.
#[derive(Debug)]
pub enum DependencyItem {
    /// A bare value, `name = "1.0"`.
    Value(TomlSpan),
    /// An inline or standard table.
    Table(VersionSlot),
    /// Anything else.
    Other,
}

/// A dependency entry: its key, the `package` it renames, how it is written.
#[derive(Debug)]
pub struct CargoDependency {
    pub key: String,
    pub package: Option<String>,
    pub item: DependencyItem,
}

/// Where the values a version update reads stand in a `Cargo.toml`.
#[derive(Debug)]
pub struct CargoManifestFields {
    /// The `[package]` table, when the manifest has one.
    pub package: Option<VersionSlot>,
    /// The entries of `[dependencies]`, `[dev-dependencies]`,
    /// `[build-dependencies]` and of the same tables under each `[target.*]`.
    pub dependencies: Vec<CargoDependency>,
    /// The entries of a `[workspace.dependencies]` table.
    pub workspace_dependencies: Vec<CargoDependency>,
    /// The `version` value of `[workspace.package]`.
    pub workspace_version: Option<TomlSpan>,
}

/// The string a span holds.
pub open spec fn span_text(s: TomlSpan) -> Option<Seq<char>> {
    opt_text(s.text)
}

/// The entry `version = v` as `toml_edit` writes a new one.
pub open spec fn version_entry(v: Seq<char>) -> Seq<char> {
    "version = "@ + toml_string_text(v)
}

/// The rewrite that sets a table's `version` to `v`: its value replaced, or
/// a new entry written at the anchor.
pub open spec fn slot_rewrite(slot: VersionSlot, v: Seq<char>) -> Rewrite {
    match slot.version {
        Some(s) => (s.start as int, s.end as int, toml_string_text(v)),
        None => {
            let a = slot.anchor;
            let kept = match a.text {
                Some(t) => t@,
                None => seq![],
            };
            let text = if slot.inline {
                if slot.has_entries {
                    ", "@ + version_entry(v) + " }"@
                } else {
                    " "@ + version_entry(v) + " }"@
                }
            } else if kept == "\n"@ {
                "\n"@ + version_entry(v) + "\n"@
            } else {
                kept + "\n"@ + version_entry(v) + "\n"@
            };
            (a.start as int, a.end as int, text)
        },
    }
}

/// Whether the dependency entry `d` is the dependency `name`: by its key,
/// or by the package it renames.
pub open spec fn dep_matches(d: CargoDependency, name: Seq<char>) -> bool {
    d.key@ == name || (d.package matches Some(p) && p@ == name)
}

/// Whether an update may rewrite `d`: it is not inherited from the workspace.
pub open spec fn dep_updatable(d: CargoDependency) -> bool {
    match d.item {
        DependencyItem::Value(_) => true,
        DependencyItem::Table(slot) => !slot.workspace,
        DependencyItem::Other => false,
    }
}

/// The version string `d` states.
pub open spec fn dep_version(d: CargoDependency) -> Option<Seq<char>> {
    match d.item {
        DependencyItem::Value(s) => span_text(s),
        DependencyItem::Table(slot) => match slot.version {
            Some(s) => span_text(s),
            None => None,
        },
        DependencyItem::Other => None,
    }
}

/// Each entry's version before any update, none rewritten yet.
pub open spec fn initial_states(deps: Seq<CargoDependency>) -> Seq<(Option<Seq<char>>, bool)> {
    deps.map_values(|d: CargoDependency| (dep_version(d), false))
}

/// Whether updating `name` to `v` rewrites the entry in state `st`.
pub open spec fn dep_touched(d: CargoDependency, st: (Option<Seq<char>>, bool), name: Seq<char>, v: Seq<char>) -> bool {
    dep_updatable(d) && dep_matches(d, name) && st.0 != Some(v)
}

/// The states after updating `name` to `v`.
pub open spec fn dep_step(deps: Seq<CargoDependency>, st: Seq<(Option<Seq<char>>, bool)>, name: Seq<char>, v: Seq<char>) -> Seq<
    (Option<Seq<char>>, bool),
> {
    Seq::new(st.len(), |j: int| if dep_touched(deps[j], st[j], name, v) { (Some(v), true) } else { st[j] })
}

/// The version a workspace dependency in state `st` is rewritten to when
/// updating `name` to `v`, if it is.
pub open spec fn ws_touched(d: CargoDependency, st: (Option<Seq<char>>, bool), name: Seq<char>, v: Seq<char>) -> Option<Seq<char>> {
    if d.key@ == name {
        match st.0 {
            Some(e) => match workspace_dependency_version(e, v) {
                Some(r) => if r != e {
                    Some(r)
                } else {
                    None
                },
                None => None,
            },
            None => None,
        }
    } else {
        None
    }
}

/// The workspace dependency states after updating `name` to `v`.
pub open spec fn ws_step(ws: Seq<CargoDependency>, st: Seq<(Option<Seq<char>>, bool)>, name: Seq<char>, v: Seq<char>) -> Seq<
    (Option<Seq<char>>, bool),
> {
    Seq::new(
        st.len(),
        |j: int|
            match ws_touched(ws[j], st[j], name, v) {
                Some(r) => (Some(r), true),
                None => st[j],
            },
    )
}

/// The dependency states after the first `n` updates.
pub open spec fn dep_states(deps: Seq<CargoDependency>, entries: Seq<(Seq<char>, Seq<char>)>, n: int) -> Seq<
    (Option<Seq<char>>, bool),
>
    decreases n,
{
    if n <= 0 {
        initial_states(deps)
    } else {
        dep_step(deps, dep_states(deps, entries, n - 1), entries[n - 1].0, entries[n - 1].1)
    }
}

/// The workspace dependency states after the first `n` updates.
pub open spec fn ws_states(ws: Seq<CargoDependency>, entries: Seq<(Seq<char>, Seq<char>)>, n: int) -> Seq<
    (Option<Seq<char>>, bool),
>
    decreases n,
{
    if n <= 0 {
        initial_states(ws)
    } else {
        ws_step(ws, ws_states(ws, entries, n - 1), entries[n - 1].0, entries[n - 1].1)
    }
}

/// Whether update `n` rewrites some entry.
pub open spec fn update_changes(deps: Seq<CargoDependency>, ws: Seq<CargoDependency>, entries: Seq<(Seq<char>, Seq<char>)>, n: int) -> bool {
    (exists|j: int| 0 <= j < deps.len() && #[trigger] dep_touched(deps[j], dep_states(deps, entries, n)[j], entries[n].0, entries[n].1))
    || (exists|j: int| 0 <= j < ws.len() && #[trigger] ws_touched(ws[j], ws_states(ws, entries, n)[j], entries[n].0, entries[n].1) is Some)
}

/// The updates among the first `n` that rewrite something, in order.
pub open spec fn applied_updates(deps: Seq<CargoDependency>, ws: Seq<CargoDependency>, entries: Seq<(Seq<char>, Seq<char>)>, n: int) -> Seq<
    (Seq<char>, Seq<char>),
>
    decreases n,
{
    if n <= 0 {
        seq![]
    } else {
        applied_updates(deps, ws, entries, n - 1) + if update_changes(deps, ws, entries, n - 1) {
            seq![entries[n - 1]]
        } else {
            Seq::empty()
        }
    }
}

/// The rewrite of an entry to its final state, when an update touched it.
pub open spec fn entry_rewrite(d: CargoDependency, st: (Option<Seq<char>>, bool)) -> Seq<Rewrite> {
    if st.1 {
        match (d.item, st.0) {
            (DependencyItem::Value(s), Some(v)) => seq![(s.start as int, s.end as int, toml_string_text(v))],
            (DependencyItem::Table(slot), Some(v)) => seq![slot_rewrite(slot, v)],
            _ => seq![],
        }
    } else {
        seq![]
    }
}

/// The rewrites of the first `n` entries.
pub open spec fn entry_rewrites(ds: Seq<CargoDependency>, sts: Seq<(Option<Seq<char>>, bool)>, n: int) -> Seq<Rewrite>
    decreases n,
{
    if n <= 0 {
        seq![]
    } else {
        entry_rewrites(ds, sts, n - 1) + entry_rewrite(ds[n - 1], sts[n - 1])
    }
}

/// The rewrite of `[package]`'s version to `target`, unless it is
/// inherited from the workspace or already `target`.
pub open spec fn package_rewrites(slot: VersionSlot, target: Seq<char>) -> Seq<Rewrite> {
    let current = match slot.version {
        Some(s) => span_text(s),
        None => None,
    };
    if slot.workspace || current == Some(target) {
        seq![]
    } else {
        seq![slot_rewrite(slot, target)]
    }
}

/// The rewrites of a version update of a `Cargo.toml` and the updates that
/// changed something: the package version, then each update in order
/// applied to every matching dependency and to the workspace dependency it
/// names, each entry ending at its last update.
pub open spec fn manifest_update(f: CargoManifestFields, target: Option<Seq<char>>, entries: Seq<(Seq<char>, Seq<char>)>) -> (
    Seq<Rewrite>,
    Seq<(Seq<char>, Seq<char>)>,
) {
    let deps = f.dependencies@;
    let ws = f.workspace_dependencies@;
    let n = entries.len() as int;
    let pkg = match (target, f.package) {
        (Some(t), Some(slot)) => package_rewrites(slot, t),
        _ => seq![],
    };
    (
        pkg + entry_rewrites(deps, dep_states(deps, entries, n), deps.len() as int) + entry_rewrites(
            ws,
            ws_states(ws, entries, n),
            ws.len() as int,
        ),
        applied_updates(deps, ws, entries, n),
    )
}

/// Entry states held in a vector, as plain values.
pub open spec fn state_views(v: Seq<(Option<String>, bool)>) -> Seq<(Option<Seq<char>>, bool)> {
    v.map_values(|s: (Option<String>, bool)| (opt_text(s.0), s.1))
}

fn copy_opt(o: &Option<String>) -> (r: Option<String>)
    ensures
        opt_text(r) == opt_text(*o),
{
    match o {
        Some(s) => Some(owned(s.as_str())),
        None => None,
    }
}

fn dep_version_of(d: &CargoDependency) -> (r: Option<String>)
    ensures
        opt_text(r) == dep_version(*d),
{
    match &d.item {
        DependencyItem::Value(s) => copy_opt(&s.text),
        DependencyItem::Table(slot) => match &slot.version {
            Some(s) => copy_opt(&s.text),
            None => None,
        },
        DependencyItem::Other => None,
    }
}

fn initial_states_of(deps: &Vec<CargoDependency>) -> (r: Vec<(Option<String>, bool)>)
    ensures
        r.len() == deps.len(),
        state_views(r@) == initial_states(deps@),
{
    let mut r: Vec<(Option<String>, bool)> = Vec::new();
    let mut i: usize = 0;
    while i < deps.len()
        invariant
            i <= deps.len(),
            state_views(r@) == initial_states(deps@.take(i as int)),
        decreases deps.len() - i,
    {
        let ghost before = r@;
        let v = dep_version_of(&deps[i]);
        let e = (v, false);
        r.push(e);
        assert(r@ =~= before.push(e));
        assert(deps@.take(i + 1) =~= deps@.take(i as int).push(deps@[i as int]));
        assert(state_views(r@) =~= state_views(before).push((opt_text(e.0), false)));
        assert(state_views(r@) =~= initial_states(deps@.take(i + 1)));
        i += 1;
    }
    assert(deps@.take(deps.len() as int) =~= deps@);
    r
}

fn matches_name(d: &CargoDependency, name: &str) -> (r: bool)
    ensures
        r == dep_matches(*d, name@),
{
    let n = chars_of(name);
    if chars_eq(&chars_of(d.key.as_str()), &n) {
        return true;
    }
    match &d.package {
        Some(p) => chars_eq(&chars_of(p.as_str()), &n),
        None => false,
    }
}

fn updatable(d: &CargoDependency) -> (r: bool)
    ensures
        r == dep_updatable(*d),
{
    match &d.item {
        DependencyItem::Value(_) => true,
        DependencyItem::Table(slot) => !slot.workspace,
        DependencyItem::Other => false,
    }
}

fn differs(o: &Option<String>, v: &str) -> (r: bool)
    ensures
        r == (opt_text(*o) != Some(v@)),
{
    match o {
        Some(c) => !chars_eq(&chars_of(c.as_str()), &chars_of(v)),
        None => true,
    }
}

/// Apply the update of `name` to `v` to the dependency entries; whether it
/// rewrote one.
fn apply_dependency_update(deps: &Vec<CargoDependency>, st: &mut Vec<(Option<String>, bool)>, name: &str, v: &str) -> (changed: bool)
    requires
        old(st).len() == deps.len(),
    ensures
        final(st).len() == deps.len(),
        state_views(final(st)@) == dep_step(deps@, state_views(old(st)@), name@, v@),
        changed == exists|j: int| 0 <= j < deps.len() && #[trigger] dep_touched(deps@[j], state_views(old(st)@)[j], name@, v@),
{
    let ghost start = state_views(st@);
    let ghost target = dep_step(deps@, start, name@, v@);
    let mut changed = false;
    let mut j: usize = 0;
    while j < deps.len()
        invariant
            j <= deps.len(),
            st.len() == deps.len(),
            start.len() == deps.len(),
            target == dep_step(deps@, start, name@, v@),
            forall|k: int| 0 <= k < j ==> #[trigger] state_views(st@)[k] == target[k],
            forall|k: int| j <= k < deps.len() ==> #[trigger] state_views(st@)[k] == start[k],
            changed == exists|k: int| 0 <= k < j && #[trigger] dep_touched(deps@[k], start[k], name@, v@),
        decreases deps.len() - j,
    {
        let d = &deps[j];
        assert(state_views(st@)[j as int] == start[j as int]);
        let ghost before = st@;
        if updatable(d) && matches_name(d, name) && differs(&st[j].0, v) {
            let x = (Some(owned(v)), true);
            st.set(j, x);
            assert(st@ =~= before.update(j as int, x));
            assert(dep_touched(deps@[j as int], start[j as int], name@, v@));
            assert forall|k: int| 0 <= k < j + 1 implies #[trigger] state_views(st@)[k] == target[k] by {
                if k < j {
                    assert(st@[k] == before[k]);
                    assert(state_views(before)[k] == target[k]);
                    assert(state_views(before)[k] == (opt_text(before[k].0), before[k].1));
                } else {
                    assert(st@[k] == x);
                }
                assert(state_views(st@)[k] == (opt_text(st@[k].0), st@[k].1));
            }
            assert forall|k: int| j + 1 <= k < deps.len() implies #[trigger] state_views(st@)[k] == start[k] by {
                assert(st@[k] == before[k]);
                assert(state_views(before)[k] == start[k]);
                assert(state_views(before)[k] == (opt_text(before[k].0), before[k].1));
                assert(state_views(st@)[k] == (opt_text(st@[k].0), st@[k].1));
            }
            changed = true;
        } else {
            assert(!dep_touched(deps@[j as int], start[j as int], name@, v@));
        }
        j += 1;
    }
    assert(state_views(st@) =~= target);
    changed
}

/// Apply the update of `name` to `v` to the workspace dependencies; whether
/// it rewrote one.
fn apply_workspace_update(ws: &Vec<CargoDependency>, st: &mut Vec<(Option<String>, bool)>, name: &str, v: &str) -> (changed: bool)
    requires
        old(st).len() == ws.len(),
    ensures
        final(st).len() == ws.len(),
        state_views(final(st)@) == ws_step(ws@, state_views(old(st)@), name@, v@),
        changed == exists|j: int| 0 <= j < ws.len() && #[trigger] ws_touched(ws@[j], state_views(old(st)@)[j], name@, v@) is Some,
{
    let ghost start = state_views(st@);
    let ghost target = ws_step(ws@, start, name@, v@);
    let mut changed = false;
    let mut j: usize = 0;
    while j < ws.len()
        invariant
            j <= ws.len(),
            st.len() == ws.len(),
            start.len() == ws.len(),
            target == ws_step(ws@, start, name@, v@),
            forall|k: int| 0 <= k < j ==> #[trigger] state_views(st@)[k] == target[k],
            forall|k: int| j <= k < ws.len() ==> #[trigger] state_views(st@)[k] == start[k],
            changed == exists|k: int| 0 <= k < j && #[trigger] ws_touched(ws@[k], start[k], name@, v@) is Some,
        decreases ws.len() - j,
    {
        assert(state_views(st@)[j as int] == start[j as int]);
        let ghost before = st@;
        let mut hit: Option<String> = None;
        if chars_eq(&chars_of(ws[j].key.as_str()), &chars_of(name)) {
            match &st[j].0 {
                Some(e) => match compute_workspace_dependency_version(e.as_str(), v) {
                    Some(res) => {
                        if !chars_eq(&chars_of(res.as_str()), &chars_of(e.as_str())) {
                            hit = Some(res);
                        }
                    },
                    None => {},
                },
                None => {},
            }
        }
        assert(opt_text(hit) == ws_touched(ws@[j as int], start[j as int], name@, v@));
        match hit {
            Some(res) => {
                let x = (Some(res), true);
                st.set(j, x);
                assert(st@ =~= before.update(j as int, x));
                assert forall|k: int| 0 <= k < j + 1 implies #[trigger] state_views(st@)[k] == target[k] by {
                    if k < j {
                        assert(st@[k] == before[k]);
                        assert(state_views(before)[k] == target[k]);
                        assert(state_views(before)[k] == (opt_text(before[k].0), before[k].1));
                    } else {
                        assert(st@[k] == x);
                    }
                    assert(state_views(st@)[k] == (opt_text(st@[k].0), st@[k].1));
                }
                assert forall|k: int| j + 1 <= k < ws.len() implies #[trigger] state_views(st@)[k] == start[k] by {
                    assert(st@[k] == before[k]);
                    assert(state_views(before)[k] == start[k]);
                    assert(state_views(before)[k] == (opt_text(before[k].0), before[k].1));
                    assert(state_views(st@)[k] == (opt_text(st@[k].0), st@[k].1));
                }
                changed = true;
            },
            None => {},
        }
        j += 1;
    }
    assert(state_views(st@) =~= target);
    changed
}

/// The rewrite that sets a table's `version` to `v`.
fn slot_rewrite_of(slot: &VersionSlot, v: &str) -> (r: (usize, usize, String))
    ensures
        (r.0 as int, r.1 as int, r.2@) == slot_rewrite(*slot, v@),
{
    match &slot.version {
        Some(s) => (s.start, s.end, toml_string(v)),
        None => {
            let repr = toml_string(v);
            let entry = join2("version = ", repr.as_str());
            let kept = match &slot.anchor.text {
                Some(t) => owned(t.as_str()),
                None => String::new(),
            };
            let text = if slot.inline {
                if slot.has_entries {
                    join3(", ", entry.as_str(), " }")
                } else {
                    join3(" ", entry.as_str(), " }")
                }
            } else if chars_eq(&chars_of(kept.as_str()), &chars_of("\n")) {
                join3("\n", entry.as_str(), "\n")
            } else {
                let head = join2(kept.as_str(), "\n");
                join3(head.as_str(), entry.as_str(), "\n")
            };
            (slot.anchor.start, slot.anchor.end, text)
        },
    }
}

/// Append the rewrites of the entries an update touched.
fn push_entry_rewrites(ds: &Vec<CargoDependency>, st: &Vec<(Option<String>, bool)>, rs: &mut Vec<(usize, usize, String)>)
    requires
        st.len() == ds.len(),
    ensures
        rewrite_views(final(rs)@) == rewrite_views(old(rs)@) + entry_rewrites(ds@, state_views(st@), ds.len() as int),
{
    let ghost start = rewrite_views(rs@);
    let ghost sv = state_views(st@);
    let mut i: usize = 0;
    while i < ds.len()
        invariant
            i <= ds.len(),
            st.len() == ds.len(),
            sv == state_views(st@),
            rewrite_views(rs@) == start + entry_rewrites(ds@, sv, i as int),
        decreases ds.len() - i,
    {
        let ghost before = rewrite_views(rs@);
        assert(sv[i as int] == (opt_text(st@[i as int].0), st@[i as int].1));
        if st[i].1 {
            match (&ds[i].item, &st[i].0) {
                (DependencyItem::Value(s), Some(v)) => {
                    push_rewrite(rs, (s.start, s.end, toml_string(v.as_str())));
                },
                (DependencyItem::Table(slot), Some(v)) => {
                    push_rewrite(rs, slot_rewrite_of(slot, v.as_str()));
                },
                _ => {},
            }
        }
        assert(rewrite_views(rs@) =~= before + entry_rewrite(ds@[i as int], sv[i as int]));
        i += 1;
    }
}

/// An optional text as plain characters.
pub open spec fn opt_chars(o: Option<&str>) -> Option<Seq<char>> {
    match o {
        Some(t) => Some(t@),
        None => None,
    }
}

/// Rewrite the versions in the text of a `Cargo.toml`, found by
/// `cargo_fields` (see `rewrite_manifest_versions`).
pub fn update_manifest_versions(
    manifest_path: &str,
    input: &str,
    new_pkg_version: Option<&str>,
    new_version_by_name: &[(String, String)],
) -> (r: Result<(String, Vec<(String, String)>), SampoError>)
    ensures
        match toml_syntax(input@) {
            Err(e) => r matches Err(SampoError::Release(m)) && m@ == "Failed to parse manifest "@ + manifest_path@ + ": "@
                + e,
            Ok(top) => exists|f: CargoManifestFields|
                cargo_layout(f, top, input@) && if new_pkg_version is Some && f.package is None {
                    r matches Err(SampoError::Release(m)) && m@ == "Manifest "@ + manifest_path@
                        + " is missing a [package] section"@
                } else {
                    r matches Ok(out) && ({
                        let (rs, ap) = manifest_update(f, opt_chars(new_pkg_version), entry_views(new_version_by_name@));
                        out.0@ == rewritten(input@, rs, 0) && entry_views(out.1@) == ap
                    })
                },
        },
{
    let fields = cargo_fields(input);
    let r = rewrite_manifest_versions(manifest_path, input, &fields, new_pkg_version, new_version_by_name);
    proof {
        if let Ok(f) = fields {
            assert(cargo_layout(f, toml_syntax(input@)->Ok_0, input@));
        }
    }
    r
}

/// Rewrite the versions in a `Cargo.toml` text: the package version (when
/// `new_pkg_version` is given) and every requirement on a package that
/// `new_version_by_name` names, in order, keeping the rest of the text.
/// `fields` is where the values stand in `input`, or why it does not parse.
/// Returns the new text and the updates that changed something.
pub fn rewrite_manifest_versions(
    manifest_path: &str,
    input: &str,
    fields: &Result<CargoManifestFields, String>,
    new_pkg_version: Option<&str>,
    new_version_by_name: &[(String, String)],
) -> (r: Result<(String, Vec<(String, String)>), SampoError>)
    ensures
        match *fields {
            Err(e) => r matches Err(SampoError::Release(m)) && m@ == "Failed to parse manifest "@ + manifest_path@ + ": "@
                + e@,
            Ok(f) => if new_pkg_version is Some && f.package is None {
                r matches Err(SampoError::Release(m)) && m@ == "Manifest "@ + manifest_path@
                    + " is missing a [package] section"@
            } else {
                r matches Ok(out) && ({
                    let (rs, ap) = manifest_update(f, opt_chars(new_pkg_version), entry_views(new_version_by_name@));
                    out.0@ == rewritten(input@, rs, 0) && entry_views(out.1@) == ap
                })
            },
        },
{
    let f = match fields {
        Err(e) => {
            let head = join3("Failed to parse manifest ", manifest_path, ": ");
            return Err(SampoError::Release(join2(head.as_str(), e.as_str())));
        },
        Ok(f) => f,
    };
    let mut rs: Vec<(usize, usize, String)> = Vec::new();
    match new_pkg_version {
        Some(t) => match &f.package {
            None => {
                return Err(SampoError::Release(join3("Manifest ", manifest_path, " is missing a [package] section")));
            },
            Some(slot) => {
                let current = match &slot.version {
                    Some(s) => copy_opt(&s.text),
                    None => None,
                };
                if !slot.workspace && differs(&current, t) {
                    push_rewrite(&mut rs, slot_rewrite_of(slot, t));
                }
            },
        },
        None => {},
    }
    let ghost deps = f.dependencies@;
    let ghost ws = f.workspace_dependencies@;
    let ghost e = entry_views(new_version_by_name@);
    let ghost pkg = rewrite_views(rs@);
    assert(pkg == match (opt_chars(new_pkg_version), f.package) {
        (Some(t), Some(slot)) => package_rewrites(slot, t),
        _ => seq![],
    });
    let mut dst = initial_states_of(&f.dependencies);
    let mut wst = initial_states_of(&f.workspace_dependencies);
    let mut applied: Vec<(String, String)> = Vec::new();
    let mut i: usize = 0;
    while i < new_version_by_name.len()
        invariant
            i <= new_version_by_name.len(),
            e == entry_views(new_version_by_name@),
            deps == f.dependencies@,
            ws == f.workspace_dependencies@,
            dst.len() == deps.len(),
            wst.len() == ws.len(),
            state_views(dst@) == dep_states(deps, e, i as int),
            state_views(wst@) == ws_states(ws, e, i as int),
            entry_views(applied@) == applied_updates(deps, ws, e, i as int),
        decreases new_version_by_name.len() - i,
    {
        let name = new_version_by_name[i].0.as_str();
        let v = new_version_by_name[i].1.as_str();
        assert(e[i as int] == (name@, v@));
        let c1 = apply_dependency_update(&f.dependencies, &mut dst, name, v);
        let c2 = apply_workspace_update(&f.workspace_dependencies, &mut wst, name, v);
        let ghost before = applied@;
        assert(update_changes(deps, ws, e, i as int) == (c1 || c2));
        if c1 || c2 {
            let pair = (owned(name), owned(v));
            applied.push(pair);
            assert(applied@ =~= before.push(pair));
            assert(entry_views(applied@) =~= entry_views(before).push((name@, v@)));
        }
        assert(entry_views(applied@) =~= applied_updates(deps, ws, e, i + 1));
        i += 1;
    }
    push_entry_rewrites(&f.dependencies, &dst, &mut rs);
    push_entry_rewrites(&f.workspace_dependencies, &wst, &mut rs);
    Ok((apply_rewrites(input, &rs), applied))
}

/// Whether update `k` rewrites some workspace dependency.
pub open spec fn ws_update_changes(ws: Seq<CargoDependency>, entries: Seq<(Seq<char>, Seq<char>)>, k: int) -> bool {
    exists|j: int| 0 <= j < ws.len() && #[trigger] ws_touched(ws[j], ws_states(ws, entries, k)[j], entries[k].0, entries[k].1) is Some
}

/// The rewrite of `[workspace.package]`'s version to `target`, when it is a
/// string that differs.
pub open spec fn workspace_version_rewrites(f: CargoManifestFields, target: Option<Seq<char>>) -> Seq<Rewrite> {
    match (target, f.workspace_version) {
        (Some(t), Some(s)) => match span_text(s) {
            Some(c) => if c != t {
                seq![(s.start as int, s.end as int, toml_string_text(t))]
            } else {
                seq![]
            },
            None => seq![],
        },
        _ => seq![],
    }
}

/// The rewrites of the workspace root manifest and whether it changed: the
/// shared version, then the workspace dependencies, updated in order.
pub open spec fn root_update(f: CargoManifestFields, target: Option<Seq<char>>, entries: Seq<(Seq<char>, Seq<char>)>) -> (
    Seq<Rewrite>,
    bool,
) {
    let ws = f.workspace_dependencies@;
    let n = entries.len() as int;
    let vr = workspace_version_rewrites(f, target);
    (
        vr + entry_rewrites(ws, ws_states(ws, entries, n), ws.len() as int),
        vr.len() > 0 || exists|k: int| 0 <= k < n && #[trigger] ws_update_changes(ws, entries, k),
    )
}

/// Rewrite the text of the workspace root manifest, found by `cargo_fields`
/// (see `rewrite_workspace_root_manifest`).
pub fn update_workspace_root_manifest(
    manifest_path: &str,
    input: &str,
    new_workspace_version: Option<&str>,
    new_version_by_name: &[(String, String)],
) -> (r: Result<(String, bool), SampoError>)
    ensures
        match toml_syntax(input@) {
            Err(e) => r matches Err(SampoError::Release(m)) && m@ == "Failed to parse root manifest "@ + manifest_path@
                + ": "@ + e,
            Ok(top) => exists|f: CargoManifestFields|
                cargo_layout(f, top, input@) && (r matches Ok(out) && ({
                    let (rs, changed) = root_update(f, opt_chars(new_workspace_version), entry_views(new_version_by_name@));
                    out.0@ == rewritten(input@, rs, 0) && out.1 == changed
                })),
        },
{
    let fields = cargo_fields(input);
    let r = rewrite_workspace_root_manifest(manifest_path, input, &fields, new_workspace_version, new_version_by_name);
    proof {
        if let Ok(f) = fields {
            assert(cargo_layout(f, toml_syntax(input@)->Ok_0, input@));
        }
    }
    r
}

/// Rewrite the workspace root manifest: `[workspace.package]`'s version (when
/// `new_workspace_version` is given) and the `[workspace.dependencies]`
/// that `new_version_by_name` names. Returns the new text and whether it
/// changed.
pub fn rewrite_workspace_root_manifest(
    manifest_path: &str,
    input: &str,
    fields: &Result<CargoManifestFields, String>,
    new_workspace_version: Option<&str>,
    new_version_by_name: &[(String, String)],
) -> (r: Result<(String, bool), SampoError>)
    ensures
        match *fields {
            Err(e) => r matches Err(SampoError::Release(m)) && m@ == "Failed to parse root manifest "@ + manifest_path@
                + ": "@ + e@,
            Ok(f) => r matches Ok(out) && ({
                let (rs, changed) = root_update(f, opt_chars(new_workspace_version), entry_views(new_version_by_name@));
                out.0@ == rewritten(input@, rs, 0) && out.1 == changed
            }),
        },
{
    let f = match fields {
        Err(e) => {
            let head = join3("Failed to parse root manifest ", manifest_path, ": ");
            return Err(SampoError::Release(join2(head.as_str(), e.as_str())));
        },
        Ok(f) => f,
    };
    let mut rs: Vec<(usize, usize, String)> = Vec::new();
    let mut changed = false;
    match (new_workspace_version, &f.workspace_version) {
        (Some(t), Some(s)) => match &s.text {
            Some(c) => {
                if !chars_eq(&chars_of(c.as_str()), &chars_of(t)) {
                    push_rewrite(&mut rs, (s.start, s.end, toml_string(t)));
                    changed = true;
                }
            },
            None => {},
        },
        _ => {},
    }
    let ghost ws = f.workspace_dependencies@;
    let ghost e = entry_views(new_version_by_name@);
    let ghost vr = rewrite_views(rs@);
    assert(vr == workspace_version_rewrites(*f, opt_chars(new_workspace_version)));
    let mut wst = initial_states_of(&f.workspace_dependencies);
    let mut i: usize = 0;
    while i < new_version_by_name.len()
        invariant
            i <= new_version_by_name.len(),
            e == entry_views(new_version_by_name@),
            ws == f.workspace_dependencies@,
            wst.len() == ws.len(),
            state_views(wst@) == ws_states(ws, e, i as int),
            changed == (vr.len() > 0 || exists|k: int| 0 <= k < i && #[trigger] ws_update_changes(ws, e, k)),
        decreases new_version_by_name.len() - i,
    {
        let name = new_version_by_name[i].0.as_str();
        let v = new_version_by_name[i].1.as_str();
        assert(e[i as int] == (name@, v@));
        let c = apply_workspace_update(&f.workspace_dependencies, &mut wst, name, v);
        assert(ws_update_changes(ws, e, i as int) == c);
        changed = changed || c;
        i += 1;
    }
    push_entry_rewrites(&f.workspace_dependencies, &wst, &mut rs);
    Ok((apply_rewrites(input, &rs), changed))
}

/// Whether a manifest's package inherits its version from the workspace
/// (`version.workspace = true`).
pub fn has_workspace_version_inheritance(input: &str) -> (r: Result<bool, SampoError>)
    ensures
        match toml_syntax(input@) {
            Err(e) => r matches Err(SampoError::Release(m)) && m@ == "Failed to parse manifest: "@ + e,
            Ok(top) => r == Ok::<bool, SampoError>(package_slot(top, input@) matches Some(slot) && slot.0),
        },
{
    match cargo_fields(input) {
        Err(e) => Err(SampoError::Release(join2("Failed to parse manifest: ", e.as_str()))),
        Ok(f) => Ok(
            match f.package {
                Some(slot) => slot.workspace,
                None => false,
            },
        ),
    }
}

/// The value of the first of the first `n` entries named `name`.
pub open spec fn first_value(entries: Seq<(Seq<char>, Seq<char>)>, name: Seq<char>, n: int) -> Option<Seq<char>>
    decreases n,
{
    if n <= 0 {
        None
    } else {
        match first_value(entries, name, n - 1) {
            Some(x) => Some(x),
            None => if entries[n - 1].0 == name {
                Some(entries[n - 1].1)
            } else {
                None
            },
        }
    }
}

/// The version shared by the first `n` members that inherit the workspace
/// version and have a planned one, or the first two that disagree.
pub open spec fn inherited_version(
    members: Seq<PackageInfo>,
    inherits: Seq<bool>,
    entries: Seq<(Seq<char>, Seq<char>)>,
    n: int,
) -> Result<Option<Seq<char>>, (Seq<char>, Seq<char>)>
    decreases n,
{
    if n <= 0 {
        Ok(None)
    } else {
        match inherited_version(members, inherits, entries, n - 1) {
            Err(x) => Err(x),
            Ok(cur) => {
                let m = members[n - 1];
                if m.kind != PackageKind::Cargo || !inherits[n - 1] {
                    Ok(cur)
                } else {
                    match first_value(entries, m.name@, entries.len() as int) {
                        None => Ok(cur),
                        Some(nv) => match cur {
                            None => Ok(Some(nv)),
                            Some(ex) => if ex != nv {
                                Err((ex, nv))
                            } else {
                                Ok(cur)
                            },
                        },
                    }
                }
            },
        }
    }
}

pub(crate) fn first_value_of(entries: &[(String, String)], name: &str) -> (r: Option<String>)
    ensures
        opt_text(r) == first_value(entry_views(entries@), name@, entries.len() as int),
{
    let ghost e = entry_views(entries@);
    let key = chars_of(name);
    let mut i: usize = 0;
    while i < entries.len()
        invariant
            i <= entries.len(),
            e == entry_views(entries@),
            key@ == name@,
            first_value(e, name@, i as int) is None,
        decreases entries.len() - i,
    {
        assert(e[i as int] == (entries@[i as int].0@, entries@[i as int].1@));
        if chars_eq(&chars_of(entries[i].0.as_str()), &key) {
            let r = owned(entries[i].1.as_str());
            proof {
                lemma_first_value_stays(e, name@, i + 1, entries.len() as int);
            }
            return Some(r);
        }
        i += 1;
    }
    None
}

proof fn lemma_first_value_stays(e: Seq<(Seq<char>, Seq<char>)>, name: Seq<char>, a: int, b: int)
    requires
        0 < a <= b,
        first_value(e, name, a) is Some,
    ensures
        first_value(e, name, b) == first_value(e, name, a),
    decreases b - a,
{
    if b > a {
        lemma_first_value_stays(e, name, a, b - 1);
    }
}

/// The version the workspace root's `[workspace.package]` takes: the one
/// planned for the Cargo members that inherit it (`inherits`, one flag per
/// member), which must all agree.
pub fn inherited_workspace_version(
    members: &[PackageInfo],
    inherits: &[bool],
    new_version_by_name: &[(String, String)],
) -> (r: Result<Option<String>, SampoError>)
    requires
        inherits.len() == members.len(),
    ensures
        match inherited_version(members@, inherits@, entry_views(new_version_by_name@), members.len() as int) {
            Ok(v) => r matches Ok(x) && opt_text(x) == v,
            Err((a, b)) => r matches Err(SampoError::Release(m)) && m@
                == "workspace-inherited packages resolved to conflicting versions: '"@ + a + "' and '"@ + b + "'"@,
        },
{
    let ghost e = entry_views(new_version_by_name@);
    let mut cur: Option<String> = None;
    let mut i: usize = 0;
    while i < members.len()
        invariant
            i <= members.len(),
            inherits.len() == members.len(),
            e == entry_views(new_version_by_name@),
            inherited_version(members@, inherits@, e, i as int) == Ok::<Option<Seq<char>>, (Seq<char>, Seq<char>)>(opt_text(cur)),
        decreases members.len() - i,
    {
        let m = &members[i];
        if m.kind == PackageKind::Cargo && inherits[i] {
            match first_value_of(new_version_by_name, m.name.as_str()) {
                None => {},
                Some(nv) => match &cur {
                    None => {
                        cur = Some(nv);
                    },
                    Some(ex) => {
                        if !chars_eq(&chars_of(ex.as_str()), &chars_of(nv.as_str())) {
                            let a = join3("workspace-inherited packages resolved to conflicting versions: '", ex.as_str(), "' and '");
                            let msg = join3(a.as_str(), nv.as_str(), "'");
                            proof {
                                lemma_inherited_error_stays(members@, inherits@, e, i + 1, members.len() as int);
                            }
                            return Err(SampoError::Release(msg));
                        }
                    },
                },
            }
        }
        i += 1;
    }
    Ok(cur)
}

proof fn lemma_inherited_error_stays(
    members: Seq<PackageInfo>,
    inherits: Seq<bool>,
    e: Seq<(Seq<char>, Seq<char>)>,
    a: int,
    b: int,
)
    requires
        0 < a <= b,
        inherited_version(members, inherits, e, a) is Err,
    ensures
        inherited_version(members, inherits, e, b) == inherited_version(members, inherits, e, a),
    decreases b - a,
{
    if b > a {
        lemma_inherited_error_stays(members, inherits, e, a, b - 1);
    }
}

/// Whether some Cargo member is named `name`.
pub open spec fn is_cargo_member(members: Seq<PackageInfo>, name: Seq<char>) -> bool {
    exists|j: int| 0 <= j < members.len() && (#[trigger] members[j]).kind == PackageKind::Cargo && members[j].name@ == name
}

/// The planned versions of Cargo members, in order.
pub open spec fn cargo_entries(members: Seq<PackageInfo>, entries: Seq<(Seq<char>, Seq<char>)>, n: int) -> Seq<(Seq<char>, Seq<char>)>
    decreases n,
{
    if n <= 0 {
        seq![]
    } else {
        cargo_entries(members, entries, n - 1) + if is_cargo_member(members, entries[n - 1].0) {
            seq![entries[n - 1]]
        } else {
            Seq::empty()
        }
    }
}

/// The planned versions that belong to Cargo members, in order.
pub fn cargo_member_versions(members: &[PackageInfo], new_version_by_name: &[(String, String)]) -> (r: Vec<(String, String)>)
    ensures
        entry_views(r@) == cargo_entries(members@, entry_views(new_version_by_name@), new_version_by_name.len() as int),
{
    let ghost e = entry_views(new_version_by_name@);
    let mut r: Vec<(String, String)> = Vec::new();
    let mut i: usize = 0;
    while i < new_version_by_name.len()
        invariant
            i <= new_version_by_name.len(),
            e == entry_views(new_version_by_name@),
            entry_views(r@) == cargo_entries(members@, e, i as int),
        decreases new_version_by_name.len() - i,
    {
        let name = new_version_by_name[i].0.as_str();
        assert(e[i as int] == (name@, new_version_by_name@[i as int].1@));
        let key = chars_of(name);
        let mut found = false;
        let mut j: usize = 0;
        while j < members.len()
            invariant
                j <= members.len(),
                key@ == name@,
                found == exists|k: int| 0 <= k < j && (#[trigger] members@[k]).kind == PackageKind::Cargo && members@[k].name@ == name@,
            decreases members.len() - j,
        {
            if members[j].kind == PackageKind::Cargo && chars_eq(&chars_of(members[j].name.as_str()), &key) {
                found = true;
            }
            j += 1;
        }
        let ghost before = r@;
        if found {
            let pair = (owned(name), owned(new_version_by_name[i].1.as_str()));
            r.push(pair);
            assert(r@ =~= before.push(pair));
            assert(entry_views(r@) =~= entry_views(before).push((pair.0@, pair.1@)));
        }
        assert(entry_views(r@) =~= cargo_entries(members@, e, i + 1));
        i += 1;
    }
    r
}

proof fn lemma_inherited_entry_stays(deps: Seq<CargoDependency>, entries: Seq<(Seq<char>, Seq<char>)>, n: int, j: int)
    requires
        0 <= j < deps.len(),
        0 <= n <= entries.len(),
        !dep_updatable(deps[j]),
    ensures
        dep_states(deps, entries, n)[j] == (dep_version(deps[j]), false),
        dep_states(deps, entries, n).len() == deps.len(),
    decreases n,
{
    if n > 0 {
        lemma_inherited_entry_stays(deps, entries, n - 1, j);
    }
}

/// A dependency that inherits from the workspace (`workspace = true`), or is
/// written neither as a value nor as a table, is never rewritten by a
/// version update, whatever the plan.
pub proof fn law_workspace_dependencies_untouched(deps: Seq<CargoDependency>, entries: Seq<(Seq<char>, Seq<char>)>, j: int)
    requires
        0 <= j < deps.len(),
        !dep_updatable(deps[j]),
    ensures
        entry_rewrite(deps[j], dep_states(deps, entries, entries.len() as int)[j]) == Seq::<Rewrite>::empty(),
{
    lemma_inherited_entry_stays(deps, entries, entries.len() as int, j);
}

} // verus!
