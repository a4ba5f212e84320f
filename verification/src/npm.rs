//! npm: command-line conventions and rewriting the versions in `package.json`.
use crate::changeset::pair_views;
use crate::errors::SampoError;
use crate::manifest::{compute_dependency_specifier, dependency_specifier};
use crate::text::{chars_eq, chars_of, concat, join2, join3, starts_with, starts_with_exec, string_of};
use crate::text::{find, find_exec, slice, trim, trimmed, utf8_bytes};
use crate::errors::WorkspaceError;
use crate::sorted::{insert_sorted, strictly_sorted, strs};
use crate::types::{identifier_of, PackageInfo, PackageKind};
use crate::tree::{bool_of, field, field_of, text_of, Value};
use crate::json_layout::{package_json_fields, package_json_layout, package_json_view};
use crate::parse::{json_document, parse_json};
use vstd::prelude::*;
use vstd::utf8::encode_utf8;

verus! {

/// `arg` is `flag` itself or `flag=value`.
pub open spec fn is_flag(arg: Seq<char>, flag: Seq<char>) -> bool {
    arg == flag || starts_with(arg, flag + seq!['='])
}

/// Some argument is `flag` or `flag=value`.
pub open spec fn flag_given(args: Seq<String>, flag: Seq<char>) -> bool {
    exists|i: int| 0 <= i < args.len() && is_flag(#[trigger] args[i]@, flag)
}

/// Whether `args` contains `flag`, alone or as `flag=value`.
pub fn has_flag(args: &[String], flag: &str) -> (r: bool)
    ensures
        r == flag_given(args@, flag@),
{
    let f = chars_of(flag);
    let eq = vec!['='];
    let prefix = concat(&f, &eq);
    assert(prefix@ =~= flag@ + seq!['=']);
    let mut i: usize = 0;
    while i < args.len()
        invariant
            i <= args.len(),
            f@ == flag@,
            prefix@ == flag@ + seq!['='],
            forall|j: int| 0 <= j < i ==> !is_flag(#[trigger] args@[j]@, flag@),
        decreases args.len() - i,
    {
        let a = chars_of(args[i].as_str());
        if chars_eq(&a, &f) || starts_with_exec(&a, &prefix) {
            assert(is_flag(args@[i as int]@, flag@));
            return true;
        }
        i += 1;
    }
    false
}

/// A value of a JSON document: the character positions where its text
/// starts and ends in the document, and the string it denotes, or the text
/// of the error for a value that is no string.
#[derive(Debug)]
pub struct JsonSpan {
    pub start: usize,
    pub end: usize,
    pub text: Result<String, String>,
}

/// The fields of a `package.json` that a version update reads: the
/// `version` value and the entries of each dependency section present.
#[derive(Debug)]
pub struct PackageJsonFields {
    pub version: Option<JsonSpan>,
    pub dependencies: Option<Vec<(String, JsonSpan)>>,
    pub dev_dependencies: Option<Vec<(String, JsonSpan)>>,
    pub peer_dependencies: Option<Vec<(String, JsonSpan)>>,
    pub optional_dependencies: Option<Vec<(String, JsonSpan)>>,
}

/// A planned rewrite: the positions of a value and its new text.
pub type Rewrite = (int, int, Seq<char>);

/// The dependency section `k`, in the order sections are visited.
pub open spec fn section(f: PackageJsonFields, k: int) -> Option<Vec<(String, JsonSpan)>> {
    if k == 0 {
        f.dependencies
    } else if k == 1 {
        f.dev_dependencies
    } else if k == 2 {
        f.peer_dependencies
    } else {
        f.optional_dependencies
    }
}

/// The JSON key of dependency section `k`.
pub open spec fn section_name(k: int) -> Seq<char> {
    if k == 0 {
        "dependencies"@
    } else if k == 1 {
        "devDependencies"@
    } else if k == 2 {
        "peerDependencies"@
    } else {
        "optionalDependencies"@
    }
}

/// The last of the first `n` entries keyed `name` (a later duplicate key wins).
pub open spec fn last_entry(entries: Seq<(String, JsonSpan)>, name: Seq<char>, n: int) -> Option<int>
    decreases n,
{
    if n <= 0 || n > entries.len() {
        None
    } else if entries[n - 1].0@ == name {
        Some(n - 1)
    } else {
        last_entry(entries, name, n - 1)
    }
}

/// The rewrite of a value to the JSON string `text`.
pub open spec fn rewrite_to(v: JsonSpan, text: Seq<char>) -> Rewrite {
    (v.start as int, v.end as int, "\""@ + text + "\""@)
}

/// The rewrite of the package's own version to `target`, if any, or the error.
pub open spec fn version_rewrites(f: PackageJsonFields, path: Seq<char>, target: Option<Seq<char>>) -> Result<
    Seq<Rewrite>,
    Seq<char>,
> {
    match target {
        None => Ok(seq![]),
        Some(t) => match f.version {
            None => Err("Manifest "@ + path + " is missing a version field"@),
            Some(v) => match v.text {
                Err(e) => Err("Version field in "@ + path + " is not a string: "@ + e@),
                Ok(cur) => if cur@ == t {
                    Ok(seq![])
                } else {
                    Ok(seq![rewrite_to(v, t)])
                },
            },
        },
    }
}

/// The rewrites of dependency `dep` to `new_version` in the first `k` sections, or the error.
pub open spec fn dependency_rewrites(
    f: PackageJsonFields,
    path: Seq<char>,
    dep: Seq<char>,
    new_version: Seq<char>,
    k: int,
) -> Result<Seq<Rewrite>, Seq<char>>
    decreases k,
{
    if k <= 0 {
        Ok(seq![])
    } else {
        match dependency_rewrites(f, path, dep, new_version, k - 1) {
            Err(e) => Err(e),
            Ok(rs) => match section(f, k - 1) {
                None => Ok(rs),
                Some(entries) => match last_entry(entries@, dep, entries@.len() as int) {
                    None => Ok(rs),
                    Some(j) => {
                        let v = entries@[j].1;
                        match v.text {
                            Err(e) => Err("Dependency specifier for '"@ + dep + "' in "@ + path + "."@
                                + section_name(k - 1) + " is not a string: "@ + e@),
                            Ok(cur) => match dependency_specifier(cur@, new_version) {
                                Some(spec) => if spec != cur@ {
                                    Ok(rs.push(rewrite_to(v, spec)))
                                } else {
                                    Ok(rs)
                                },
                                None => Ok(rs),
                            },
                        }
                    },
                },
            },
        }
    }
}

/// The rewrites for the version update and the `(dependency, version)`
/// updates that changed something, or the first error.
pub open spec fn manifest_rewrites(
    f: PackageJsonFields,
    path: Seq<char>,
    target: Option<Seq<char>>,
    updates: Seq<(Seq<char>, Seq<char>)>,
) -> Result<(Seq<Rewrite>, Seq<(Seq<char>, Seq<char>)>), Seq<char>>
    decreases updates.len(),
{
    if updates.len() == 0 {
        match version_rewrites(f, path, target) {
            Err(e) => Err(e),
            Ok(rs) => Ok((rs, seq![])),
        }
    } else {
        match manifest_rewrites(f, path, target, updates.drop_last()) {
            Err(e) => Err(e),
            Ok((rs, applied)) => {
                let (dep, nv) = updates.last();
                match dependency_rewrites(f, path, dep, nv, 4) {
                    Err(e) => Err(e),
                    Ok(more) => if more.len() > 0 {
                        Ok((rs + more, applied.push((dep, nv))))
                    } else {
                        Ok((rs, applied))
                    },
                }
            },
        }
    }
}

/// The first rewrite that starts at position `i`.
pub open spec fn rewrite_at(rs: Seq<Rewrite>, i: int, k: int) -> Option<int>
    decreases rs.len() - k,
{
    if k < 0 || k >= rs.len() {
        None
    } else if rs[k].0 == i {
        Some(k)
    } else {
        rewrite_at(rs, i, k + 1)
    }
}

/// `input` from position `i` on, each value a rewrite starts at replaced by its new text.
pub open spec fn rewritten(input: Seq<char>, rs: Seq<Rewrite>, i: int) -> Seq<char>
    decreases input.len() - i,
{
    if i < 0 || i >= input.len() {
        seq![]
    } else {
        match rewrite_at(rs, i, 0) {
            Some(k) => if rs[k].1 > i {
                rs[k].2 + if rs[k].1 <= input.len() {
                    rewritten(input, rs, rs[k].1)
                } else {
                    seq![]
                }
            } else {
                seq![input[i]] + rewritten(input, rs, i + 1)
            },
            None => seq![input[i]] + rewritten(input, rs, i + 1),
        }
    }
}

proof fn lemma_no_rewrites_from(input: Seq<char>, i: int)
    requires
        0 <= i <= input.len(),
    ensures
        rewritten(input, seq![], i) == input.skip(i),
    decreases input.len() - i,
{
    if i < input.len() {
        lemma_no_rewrites_from(input, i + 1);
        assert(input.skip(i) =~= seq![input[i]] + input.skip(i + 1));
    } else {
        assert(input.skip(i) =~= seq![]);
    }
}

/// A version update that plans no rewrite gives back the manifest's text
/// exactly.
pub proof fn law_no_rewrites_keep_text(input: Seq<char>)
    ensures
        rewritten(input, seq![], 0) == input,
{
    lemma_no_rewrites_from(input, 0);
    assert(input.skip(0) =~= input);
}

/// Rewrites held in a vector, as plain values.
pub open spec fn rewrite_views(v: Seq<(usize, usize, String)>) -> Seq<Rewrite> {
    v.map_values(|r: (usize, usize, String)| (r.0 as int, r.1 as int, r.2@))
}

proof fn lemma_rewrite_at_range(rs: Seq<Rewrite>, i: int, k: int)
    requires
        0 <= k,
    ensures
        rewrite_at(rs, i, k) matches Some(j) ==> k <= j < rs.len() && rs[j].0 == i,
    decreases rs.len() - k,
{
    if k < rs.len() && rs[k].0 != i {
        lemma_rewrite_at_range(rs, i, k + 1);
    }
}

fn find_rewrite(rs: &Vec<(usize, usize, String)>, i: usize) -> (r: Option<usize>)
    ensures
        match rewrite_at(rewrite_views(rs@), i as int, 0) {
            Some(k) => r matches Some(j) && j == k,
            None => r is None,
        },
{
    let ghost v = rewrite_views(rs@);
    proof {
        lemma_rewrite_at_range(v, i as int, 0);
    }
    let mut k: usize = 0;
    while k < rs.len()
        invariant
            k <= rs.len(),
            v == rewrite_views(rs@),
            rewrite_at(v, i as int, 0) == rewrite_at(v, i as int, k as int),
        decreases rs.len() - k,
    {
        assert(v[k as int].0 == rs@[k as int].0 as int);
        if rs[k].0 == i {
            return Some(k);
        }
        k += 1;
    }
    None
}

/// `input` with each value a rewrite starts at replaced by the rewrite's text.
pub(crate) fn apply_rewrites(input: &str, rs: &Vec<(usize, usize, String)>) -> (r: String)
    ensures
        r@ == rewritten(input@, rewrite_views(rs@), 0),
{
    let ghost v = rewrite_views(rs@);
    let src = chars_of(input);
    let n = src.len();
    let mut out: Vec<char> = Vec::new();
    let mut i: usize = 0;
    while i < n
        invariant
            n == src.len(),
            src@ == input@,
            v == rewrite_views(rs@),
            i <= n,
            out@ + rewritten(input@, v, i as int) == rewritten(input@, v, 0),
        decreases n - i,
    {
        let ghost before = out@;
        proof {
            lemma_rewrite_at_range(v, i as int, 0);
        }
        let mut advanced = false;
        match find_rewrite(rs, i) {
            Some(k) => {
                if rs[k].1 > i {
                    assert(v[k as int] == (rs@[k as int].0 as int, rs@[k as int].1 as int, rs@[k as int].2@));
                    let t = chars_of(rs[k].2.as_str());
                    out = concat(&out, &t);
                    let e = rs[k].1;
                    let next = if e > n {
                        n
                    } else {
                        e
                    };
                    assert(out@ + rewritten(input@, v, next as int) =~= before + (v[k as int].2 + if e
                        <= n {
                        rewritten(input@, v, e as int)
                    } else {
                        seq![]
                    }));
                    i = next;
                    advanced = true;
                }
            },
            None => {},
        }
        if !advanced {
            out.push(src[i]);
            assert(out@ + rewritten(input@, v, i + 1) =~= before + (seq![input@[i as int]] + rewritten(
                input@,
                v,
                i + 1,
            )));
            i += 1;
        }
    }
    string_of(&out)
}

/// The planned value of a rewrite of `v` to the JSON string `text`.
pub(crate) fn rewrite_of(v: &JsonSpan, text: &str) -> (r: (usize, usize, String))
    ensures
        (r.0 as int, r.1 as int, r.2@) == rewrite_to(*v, text@),
{
    (v.start, v.end, join3("\"", text, "\""))
}

fn section_of(f: &PackageJsonFields, k: usize) -> (r: &Option<Vec<(String, JsonSpan)>>)
    ensures
        *r == section(*f, k as int),
{
    if k == 0 {
        &f.dependencies
    } else if k == 1 {
        &f.dev_dependencies
    } else if k == 2 {
        &f.peer_dependencies
    } else {
        &f.optional_dependencies
    }
}

fn section_name_of(k: usize) -> (r: &'static str)
    ensures
        r@ == section_name(k as int),
{
    if k == 0 {
        "dependencies"
    } else if k == 1 {
        "devDependencies"
    } else if k == 2 {
        "peerDependencies"
    } else {
        "optionalDependencies"
    }
}

pub(crate) fn find_entry(entries: &Vec<(String, JsonSpan)>, name: &str) -> (r: Option<usize>)
    ensures
        match last_entry(entries@, name@, entries@.len() as int) {
            Some(k) => r matches Some(j) && j == k,
            None => r is None,
        },
        r matches Some(j) ==> j < entries.len(),
{
    let key = chars_of(name);
    let mut n: usize = entries.len();
    while n > 0
        invariant
            n <= entries.len(),
            key@ == name@,
            last_entry(entries@, name@, entries@.len() as int) == last_entry(entries@, name@, n as int),
        decreases n,
    {
        if chars_eq(&chars_of(entries[n - 1].0.as_str()), &key) {
            return Some(n - 1);
        }
        n -= 1;
    }
    None
}

pub(crate) fn push_rewrite(rs: &mut Vec<(usize, usize, String)>, x: (usize, usize, String))
    ensures
        rewrite_views(final(rs)@) == rewrite_views(old(rs)@).push((x.0 as int, x.1 as int, x.2@)),
{
    let ghost before = rs@;
    rs.push(x);
    assert(rs@ =~= before.push(x));
    assert(rewrite_views(rs@) =~= rewrite_views(before).push((x.0 as int, x.1 as int, x.2@)));
}

/// The rewrites of one dependency across the sections, appended to `rs`.
fn plan_dependency(
    f: &PackageJsonFields,
    path: &str,
    dep: &str,
    new_version: &str,
    rs: &mut Vec<(usize, usize, String)>,
) -> (r: Result<bool, SampoError>)
    ensures
        match dependency_rewrites(*f, path@, dep@, new_version@, 4) {
            Err(e) => r matches Err(SampoError::Release(m)) && m@ == e,
            Ok(more) => r == Ok::<bool, SampoError>(more.len() > 0) && rewrite_views(final(rs)@)
                == rewrite_views(old(rs)@) + more,
        },
{
    let ghost start = rewrite_views(rs@);
    let start_len = rs.len();
    let mut k: usize = 0;
    assert(start + seq![] =~= start);
    while k < 4
        invariant
            k <= 4,
            start.len() == start_len,
            dependency_rewrites(*f, path@, dep@, new_version@, k as int) matches Ok(more)
                && rewrite_views(rs@) == start + more,
        decreases 4 - k,
    {
        let ghost prev = dependency_rewrites(*f, path@, dep@, new_version@, k as int)->Ok_0;
        match section_of(f, k) {
            None => {},
            Some(entries) => {
                match find_entry(entries, dep) {
                    None => {},
                    Some(j) => {
                        let v = &entries[j].1;
                        match &v.text {
                            Err(e) => {
                                let a = join3("Dependency specifier for '", dep, "' in ");
                                let b = join3(a.as_str(), path, ".");
                                let c = join3(b.as_str(), section_name_of(k), " is not a string: ");
                                proof {
                                    lemma_dependency_keeps_error(*f, path@, dep@, new_version@, k + 1);
                                }
                                return Err(SampoError::Release(join2(c.as_str(), e.as_str())));
                            },
                            Ok(cur) => {
                                match compute_dependency_specifier(cur.as_str(), new_version) {
                                    Some(spec) => {
                                        if !chars_eq(&chars_of(spec.as_str()), &chars_of(cur.as_str())) {
                                            let x = rewrite_of(v, spec.as_str());
                                            push_rewrite(rs, x);
                                            assert(start + prev.push(rewrite_to(*v, spec@)) =~= (start + prev).push(
                                                rewrite_to(*v, spec@),
                                            ));
                                        }
                                    },
                                    None => {},
                                }
                            },
                        }
                    },
                }
            },
        }
        k += 1;
    }
    Ok(rs.len() > start_len)
}

/// What a rewrite of a `package.json` text gives, `fields` being where its
/// values stand (see `manifest_rewrites`).
pub open spec fn package_json_update(
    fields: PackageJsonFields,
    path: Seq<char>,
    input: Seq<char>,
    new_pkg_version: Option<&str>,
    new_version_by_name: Seq<(String, String)>,
    r: Result<(String, Vec<(String, String)>), SampoError>,
) -> bool {
    match manifest_rewrites(
        fields,
        path,
        match new_pkg_version {
            Some(t) => Some(t@),
            None => None,
        },
        pair_views(new_version_by_name),
    ) {
        Err(e) => r matches Err(SampoError::Release(m)) && m@ == e,
        Ok((rs, applied)) => r matches Ok((out, ap)) && out@ == rewritten(input, rs, 0) && pair_views(ap@) == applied,
    }
}

/// Rewrite the versions in the text of a `package.json`, found by
/// `package_json_fields`: a text that is no JSON object is refused with the
/// parser's message, the rest as `rewrite_manifest_versions` says.
pub fn update_manifest_versions(
    manifest_path: &str,
    input: &str,
    new_pkg_version: Option<&str>,
    new_version_by_name: &[(String, String)],
) -> (r: Result<(String, Vec<(String, String)>), SampoError>)
    ensures
        match package_json_layout(input@) {
            Err(e) => r matches Err(SampoError::Release(m)) && m@ == "Failed to parse package.json "@ + manifest_path@ + ": "@
                + e,
            Ok(v) => exists|f: PackageJsonFields|
                package_json_view(f) == v && package_json_update(f, manifest_path@, input@, new_pkg_version,
                    new_version_by_name@, r),
        },
{
    match package_json_fields(input) {
        Ok(f) => {
            let r = rewrite_manifest_versions(manifest_path, input, &f, new_pkg_version, new_version_by_name);
            proof {
                assert(package_json_view(f) == package_json_layout(input@)->Ok_0);
            }
            r
        },
        Err(e) => {
            let head = join3("Failed to parse package.json ", manifest_path, ": ");
            Err(SampoError::Release(join2(head.as_str(), e.as_str())))
        },
    }
}

/// Rewrite the versions in a `package.json` text: the package's own version
/// (when `new_pkg_version` is given) and the specifiers of the dependencies
/// in `new_version_by_name`, keeping the rest of the text as it is. `fields`
/// are where the values stand in `input`. Returns the new text and the
/// `(dependency, version)` updates that changed a specifier.
pub fn rewrite_manifest_versions(
    manifest_path: &str,
    input: &str,
    fields: &PackageJsonFields,
    new_pkg_version: Option<&str>,
    new_version_by_name: &[(String, String)],
) -> (r: Result<(String, Vec<(String, String)>), SampoError>)
    ensures
        package_json_update(*fields, manifest_path@, input@, new_pkg_version, new_version_by_name@, r),
{
    let ghost target: Option<Seq<char>> = match new_pkg_version {
        Some(t) => Some(t@),
        None => None,
    };
    let ghost ups = pair_views(new_version_by_name@);
    let mut rs: Vec<(usize, usize, String)> = Vec::new();
    let mut applied: Vec<(String, String)> = Vec::new();
    match new_pkg_version {
        None => {},
        Some(t) => {
            match &fields.version {
                None => {
                    proof {
                        assert(ups.take(0) =~= seq![]);
                        lemma_rewrites_keep_error(*fields, manifest_path@, target, ups, 0);
                    }
                    return Err(SampoError::Release(join3("Manifest ", manifest_path, " is missing a version field")));
                },
                Some(v) => {
                    match &v.text {
                        Err(e) => {
                            let head = join3("Version field in ", manifest_path, " is not a string: ");
                            proof {
                                assert(ups.take(0) =~= seq![]);
                                lemma_rewrites_keep_error(*fields, manifest_path@, target, ups, 0);
                            }
                            return Err(SampoError::Release(join2(head.as_str(), e.as_str())));
                        },
                        Ok(cur) => {
                            if !chars_eq(&chars_of(cur.as_str()), &chars_of(t)) {
                                let x = rewrite_of(v, t);
                                push_rewrite(&mut rs, x);
                            }
                        },
                    }
                },
            }
        },
    }
    assert(rewrite_views(rs@) =~= version_rewrites(*fields, manifest_path@, target)->Ok_0);
    assert(pair_views(applied@) =~= seq![]);
    assert(ups.take(0) =~= seq![]);
    let mut i: usize = 0;
    while i < new_version_by_name.len()
        invariant
            i <= new_version_by_name.len(),
            ups == pair_views(new_version_by_name@),
            target == match new_pkg_version {
                Some(t) => Some(t@),
                None => None::<Seq<char>>,
            },
            manifest_rewrites(*fields, manifest_path@, target, ups.take(i as int)) matches Ok((x, y))
                && rewrite_views(rs@) == x && pair_views(applied@) == y,
        decreases new_version_by_name.len() - i,
    {
        let dep = new_version_by_name[i].0.as_str();
        let nv = new_version_by_name[i].1.as_str();
        assert(ups[i as int] == (dep@, nv@));
        assert(ups.take(i + 1).drop_last() =~= ups.take(i as int));
        assert(ups.take(i + 1).last() == ups[i as int]);
        match plan_dependency(fields, manifest_path, dep, nv, &mut rs) {
            Err(e) => {
                proof {
                    lemma_rewrites_keep_error(*fields, manifest_path@, target, ups, i + 1);
                }
                return Err(e);
            },
            Ok(changed) => {
                if changed {
                    let ghost before = applied@;
                    let pair = (owned_string(dep), owned_string(nv));
                    applied.push(pair);
                    assert(applied@ =~= before.push(pair));
                    assert(pair_views(applied@) =~= pair_views(before).push((dep@, nv@)));
                }
            },
        }
        i += 1;
    }
    assert(ups.take(new_version_by_name.len() as int) =~= ups);
    Ok((apply_rewrites(input, &rs), applied))
}

proof fn lemma_dependency_keeps_error(
    f: PackageJsonFields,
    path: Seq<char>,
    dep: Seq<char>,
    nv: Seq<char>,
    k: int,
)
    requires
        0 <= k <= 4,
        dependency_rewrites(f, path, dep, nv, k) is Err,
    ensures
        dependency_rewrites(f, path, dep, nv, 4) == dependency_rewrites(f, path, dep, nv, k),
    decreases 4 - k,
{
    if k < 4 {
        lemma_dependency_keeps_error(f, path, dep, nv, k + 1);
    }
}

fn owned_string(s: &str) -> (r: String)
    ensures
        r@ == s@,
{
    crate::text::owned(s)
}

proof fn lemma_rewrites_keep_error(
    f: PackageJsonFields,
    path: Seq<char>,
    target: Option<Seq<char>>,
    ups: Seq<(Seq<char>, Seq<char>)>,
    k: int,
)
    requires
        0 <= k <= ups.len(),
        manifest_rewrites(f, path, target, ups.take(k)) is Err,
    ensures
        manifest_rewrites(f, path, target, ups) == manifest_rewrites(f, path, target, ups.take(k)),
    decreases ups.len() - k,
{
    if k < ups.len() {
        assert(ups.take(k + 1).drop_last() =~= ups.take(k));
        lemma_rewrites_keep_error(f, path, target, ups, k + 1);
    } else {
        assert(ups.take(k) =~= ups);
    }
}

/// The tools that install and publish npm packages.
#[derive(Debug, Clone, Copy, PartialEq, Eq)]
pub enum PackageManager {
    Npm,
    Pnpm,
    Yarn,
    Bun,
}

/// The tool a `packageManager` field names, as `tool` or `tool@version`.
pub open spec fn manager_named(field: Seq<char>) -> Option<PackageManager> {
    let t = trim(field);
    let tool = match find(t, seq!['@']) {
        Some(i) => t.take(i),
        None => t,
    };
    if tool == "pnpm"@ {
        Some(PackageManager::Pnpm)
    } else if tool == "npm"@ {
        Some(PackageManager::Npm)
    } else if tool == "yarn"@ {
        Some(PackageManager::Yarn)
    } else if tool == "bun"@ {
        Some(PackageManager::Bun)
    } else {
        None
    }
}

/// Read the `packageManager` field of a `package.json`.
pub fn parse_package_manager_field(field: &str) -> (r: Option<PackageManager>)
    ensures
        r == manager_named(field@),
{
    let t = trimmed(field);
    let at = vec!['@'];
    assert(at@ =~= seq!['@']);
    let tool = match find_exec(&t, &at) {
        Some(i) => {
            proof {
                crate::text::lemma_find(t@, at@);
            }
            let h = slice(&t, 0, i);
            assert(h@ =~= t@.take(i as int));
            h
        },
        None => t,
    };
    if chars_eq(&tool, &chars_of("pnpm")) {
        Some(PackageManager::Pnpm)
    } else if chars_eq(&tool, &chars_of("npm")) {
        Some(PackageManager::Npm)
    } else if chars_eq(&tool, &chars_of("yarn")) {
        Some(PackageManager::Yarn)
    } else if chars_eq(&tool, &chars_of("bun")) {
        Some(PackageManager::Bun)
    } else {
        None
    }
}

/// The tool a directory's lock files point to, checked in this order.
pub open spec fn manager_of_files(files: Seq<String>) -> Option<PackageManager> {
    if lists_name(files, "pnpm-lock.yaml"@) {
        Some(PackageManager::Pnpm)
    } else if lists_name(files, "bun.lockb"@) {
        Some(PackageManager::Bun)
    } else if lists_name(files, "yarn.lock"@) {
        Some(PackageManager::Yarn)
    } else if lists_name(files, "package-lock.json"@) || lists_name(files, "npm-shrinkwrap.json"@) {
        Some(PackageManager::Npm)
    } else {
        None
    }
}

/// Some of the strings is `name`.
pub open spec fn lists_name(files: Seq<String>, name: Seq<char>) -> bool {
    exists|i: int| 0 <= i < files.len() && #[trigger] files[i]@ == name
}

fn has_name(files: &Vec<String>, name: &str) -> (r: bool)
    ensures
        r == lists_name(files@, name@),
{
    let n = chars_of(name);
    let mut i: usize = 0;
    while i < files.len()
        invariant
            i <= files.len(),
            n@ == name@,
            forall|j: int| 0 <= j < i ==> #[trigger] files@[j]@ != name@,
        decreases files.len() - i,
    {
        if chars_eq(&chars_of(files[i].as_str()), &n) {
            return true;
        }
        i += 1;
    }
    false
}

/// The tool for the first of the ancestors (nearest first) whose lock files point to one.
pub open spec fn manager_of_ancestors(ancestors: Seq<Vec<String>>, i: int) -> Option<PackageManager>
    decreases ancestors.len() - i,
{
    if i < 0 || i >= ancestors.len() {
        None
    } else {
        match manager_of_files(ancestors[i]@) {
            Some(m) => Some(m),
            None => manager_of_ancestors(ancestors, i + 1),
        }
    }
}

/// The tool that manages a package: the one its `packageManager` field
/// names, else the one the lock files of the nearest ancestor directory
/// point to (`ancestor_files` lists the files of the package directory and
/// its ancestors, nearest first), else npm.
#[verifier::loop_isolation(false)]
pub fn detect_package_manager(package_manager: Option<&str>, ancestor_files: &Vec<Vec<String>>) -> (r:
    PackageManager)
    ensures
        r == match package_manager {
            Some(f) => match manager_named(f@) {
                Some(m) => m,
                None => match manager_of_ancestors(ancestor_files@, 0) {
                    Some(m) => m,
                    None => PackageManager::Npm,
                },
            },
            None => match manager_of_ancestors(ancestor_files@, 0) {
                Some(m) => m,
                None => PackageManager::Npm,
            },
        },
{
    if let Some(field) = package_manager {
        if let Some(m) = parse_package_manager_field(field) {
            return m;
        }
    }
    let mut i: usize = 0;
    while i < ancestor_files.len()
        invariant
            i <= ancestor_files.len(),
            manager_of_ancestors(ancestor_files@, 0) == manager_of_ancestors(ancestor_files@, i as int),
        decreases ancestor_files.len() - i,
    {
        let files = &ancestor_files[i];
        if has_name(files, "pnpm-lock.yaml") {
            return PackageManager::Pnpm;
        }
        if has_name(files, "bun.lockb") {
            return PackageManager::Bun;
        }
        if has_name(files, "yarn.lock") {
            return PackageManager::Yarn;
        }
        if has_name(files, "package-lock.json") || has_name(files, "npm-shrinkwrap.json") {
            return PackageManager::Npm;
        }
        i += 1;
    }
    PackageManager::Npm
}

/// A lower-case ASCII letter, digit, `-`, `_` or `.`.
pub open spec fn name_char(c: char) -> bool {
    ('a' <= c <= 'z') || ('0' <= c <= '9') || c == '-' || c == '_' || c == '.'
}

/// Why one part of a name (`scope` or `name`) is refused, if it is.
pub open spec fn part_problem(label: Seq<char>, part: Seq<char>) -> Option<Seq<char>> {
    if part.len() == 0 {
        None
    } else if part[0] == '.' || part[0] == '_' {
        Some(label + " must not start with '.' or '_'"@)
    } else if exists|k: int| 0 <= k < part.len() && !name_char(#[trigger] part[k]) {
        Some(label + " may only contain lowercase letters, digits, '-', '_', or '.'"@)
    } else {
        None
    }
}

/// Why npm refuses `name` as a package name, if it does.
pub open spec fn package_name_problem(name: Seq<char>) -> Option<Seq<char>> {
    if encode_utf8(name).len() > 214 {
        Some("package name must be 214 characters or fewer"@)
    } else if name.len() > 0 && (name[0] == '.' || name[0] == '_') {
        Some("package name must not start with '.' or '_'"@)
    } else if exists|k: int| 0 <= k < name.len() && #[trigger] name[k] == ' ' {
        Some("package name must not contain spaces"@)
    } else if exists|k: int| 0 <= k < name.len() && 'A' <= #[trigger] name[k] <= 'Z' {
        Some("package name must be lowercase"@)
    } else if name.len() > 0 && name[0] == '@' {
        match find(name, seq!['/']) {
            None => Some("scoped packages must use the form '@scope/name'"@),
            Some(i) => if i <= 1 {
                Some("scope name must not be empty"@)
            } else {
                match part_problem("scope"@, name.subrange(1, i)) {
                    Some(m) => Some(m),
                    None => part_problem("name"@, name.skip(i + 1)),
                }
            },
        }
    } else {
        part_problem("name"@, name)
    }
}

#[verifier::loop_isolation(false)]
fn check_part(label: &str, part: &Vec<char>) -> (r: Option<String>)
    ensures
        match part_problem(label@, part@) {
            Some(m) => r matches Some(x) && x@ == m,
            None => r is None,
        },
{
    if part.len() == 0 {
        return None;
    }
    if part[0] == '.' || part[0] == '_' {
        return Some(join2(label, " must not start with '.' or '_'"));
    }
    let mut k: usize = 0;
    while k < part.len()
        invariant
            k <= part.len(),
            forall|j: int| 0 <= j < k ==> name_char(#[trigger] part@[j]),
        decreases part.len() - k,
    {
        let c = part[k];
        if !(('a' <= c && c <= 'z') || ('0' <= c && c <= '9') || c == '-' || c == '_' || c == '.') {
            assert(!name_char(part@[k as int]));
            return Some(join2(label, " may only contain lowercase letters, digits, '-', '_', or '.'"));
        }
        k += 1;
    }
    None
}

/// Check a package name against npm's rules.
#[verifier::loop_isolation(false)]
pub fn validate_package_name(name: &str) -> (r: Result<(), String>)
    ensures
        match package_name_problem(name@) {
            Some(m) => r matches Err(x) && x@ == m,
            None => r is Ok,
        },
{
    let n = chars_of(name);
    let bytes = utf8_bytes(&n);
    if bytes.len() > 214 {
        return Err(owned_string("package name must be 214 characters or fewer"));
    }
    if n.len() > 0 && (n[0] == '.' || n[0] == '_') {
        return Err(owned_string("package name must not start with '.' or '_'"));
    }
    let mut k: usize = 0;
    while k < n.len()
        invariant
            k <= n.len(),
            n@ == name@,
            forall|j: int| 0 <= j < k ==> #[trigger] n@[j] != ' ',
        decreases n.len() - k,
    {
        if n[k] == ' ' {
            return Err(owned_string("package name must not contain spaces"));
        }
        k += 1;
    }
    let mut k: usize = 0;
    while k < n.len()
        invariant
            k <= n.len(),
            n@ == name@,
            forall|j: int| 0 <= j < k ==> !('A' <= #[trigger] n@[j] <= 'Z'),
        decreases n.len() - k,
    {
        if 'A' <= n[k] && n[k] <= 'Z' {
            return Err(owned_string("package name must be lowercase"));
        }
        k += 1;
    }
    let problem = if n.len() > 0 && n[0] == '@' {
        let slash = vec!['/'];
        assert(slash@ =~= seq!['/']);
        match find_exec(&n, &slash) {
            None => Some(owned_string("scoped packages must use the form '@scope/name'")),
            Some(i) => {
                proof {
                    crate::text::lemma_find(n@, slash@);
                }
                if i <= 1 {
                    Some(owned_string("scope name must not be empty"))
                } else {
                    let scope = slice(&n, 1, i);
                    match check_part("scope", &scope) {
                        Some(m) => Some(m),
                        None => {
                            let rest = slice(&n, i + 1, n.len());
                            assert(rest@ =~= n@.skip(i + 1));
                            check_part("name", &rest)
                        },
                    }
                }
            },
        }
    } else {
        check_part("name", &n)
    };
    match problem {
        Some(m) => Err(m),
        None => Ok(()),
    }
}

/// The upper-case hexadecimal digit for `d` (below 16).
pub open spec fn hex_digit(d: int) -> char {
    if d < 10 {
        ((d + 48) as u32) as char
    } else {
        ((d + 55) as u32) as char
    }
}

/// How one byte of a package name is written in a registry URL: digits,
/// lower-case letters, `-`, `_`, `.` and `~` as they are, `@` and `/` as
/// `%40` and `%2F`, any other byte as `%` and two upper-case hex digits.
pub open spec fn encoded_byte(b: u8) -> Seq<char> {
    if (48 <= b <= 57) || (97 <= b <= 122) || b == 45 || b == 95 || b == 46 || b == 126 {
        seq![b as char]
    } else if b == 64 {
        seq!['%', '4', '0']
    } else if b == 47 {
        seq!['%', '2', 'F']
    } else {
        seq!['%', hex_digit(b as int / 16), hex_digit(b as int % 16)]
    }
}

/// The bytes of a name percent-encoded for a registry URL.
pub open spec fn encoded(bytes: Seq<u8>) -> Seq<char>
    decreases bytes.len(),
{
    if bytes.len() == 0 {
        seq![]
    } else {
        encoded(bytes.drop_last()) + encoded_byte(bytes.last())
    }
}

fn hex_char(d: u8) -> (r: char)
    requires
        d < 16,
    ensures
        r == hex_digit(d as int),
{
    if d < 10 {
        (d + 48) as char
    } else {
        (d + 55) as char
    }
}

/// Percent-encode a package name for its registry URL: unreserved
/// lower-case characters stay, every other byte of its UTF-8 form is `%XX`.
pub fn encode_package_name(name: &str) -> (r: String)
    ensures
        r@ == encoded(encode_utf8(name@)),
{
    let bytes = utf8_bytes(&chars_of(name));
    let mut out: Vec<char> = Vec::new();
    let mut i: usize = 0;
    while i < bytes.len()
        invariant
            i <= bytes.len(),
            bytes@ == encode_utf8(name@),
            out@ == encoded(bytes@.take(i as int)),
        decreases bytes.len() - i,
    {
        let b = bytes[i];
        assert(bytes@.take(i + 1).drop_last() =~= bytes@.take(i as int));
        assert(bytes@.take(i + 1).last() == b);
        let ghost before = out@;
        if (48 <= b && b <= 57) || (97 <= b && b <= 122) || b == 45 || b == 95 || b == 46 || b == 126 {
            out.push(b as char);
        } else if b == 64 {
            out.push('%');
            out.push('4');
            out.push('0');
        } else if b == 47 {
            out.push('%');
            out.push('2');
            out.push('F');
        } else {
            out.push('%');
            let hi = hex_char(b / 16);
            let lo = hex_char(b % 16);
            out.push(hi);
            out.push(lo);
            assert(encoded_byte(b) == seq!['%', hi, lo]);
        }
        assert(out@ =~= before + encoded_byte(b));
        i += 1;
    }
    assert(bytes@.take(bytes.len() as int) =~= bytes@);
    string_of(&out)
}

#[verifier::external_type_specification]
#[verifier::external_body]
pub struct ExUrl(reqwest::Url);

/// What `url::Url::parse` makes of `text`: the URL as it serializes it, or the text of its error.
pub uninterp spec fn url_parsed(text: Seq<char>) -> Result<Seq<char>, Seq<char>>;

/// What `url::Url::join` gives for the URL serialized as `base` and the
/// relative reference `input`: the serialized URL, or the text of its error.
pub uninterp spec fn url_joined(base: Seq<char>, input: Seq<char>) -> Result<Seq<char>, Seq<char>>;

/// A URL parsed by the `url` crate, with its serialization.
pub struct ParsedUrl {
    url: reqwest::Url,
    text: String,
}

impl View for ParsedUrl {
    type V = Seq<char>;

    /// The serialization of the URL.
    closed spec fn view(&self) -> Seq<char> {
        self.text@
    }
}

impl ParsedUrl {
    /// The serialization of the URL.
    pub fn as_str(&self) -> (r: &str)
        ensures
            r@ == self@,
    {
        self.text.as_str()
    }
}

/// `url::Url::parse`.
#[verifier::external_body]
fn parse_url(text: &str) -> (r: Result<ParsedUrl, String>)
    ensures
        match url_parsed(text@) {
            Ok(u) => r matches Ok(p) && p@ == u,
            Err(e) => r matches Err(m) && m@ == e,
        },
{
    match reqwest::Url::parse(text) {
        Ok(url) => {
            let text = url.as_str().to_string();
            Ok(ParsedUrl { url, text })
        },
        Err(e) => Err(e.to_string()),
    }
}

/// `url::Url::join`.
#[verifier::external_body]
fn join_url(base: &ParsedUrl, input: &str) -> (r: Result<ParsedUrl, String>)
    ensures
        match url_joined(base@, input@) {
            Ok(u) => r matches Ok(p) && p@ == u,
            Err(e) => r matches Err(m) && m@ == e,
        },
{
    match base.url.join(input) {
        Ok(url) => {
            let text = url.as_str().to_string();
            Ok(ParsedUrl { url, text })
        },
        Err(e) => Err(e.to_string()),
    }
}

/// The registry npm uses when none is configured.
pub open spec fn default_registry() -> Seq<char> {
    "https://registry.npmjs.org/"@
}

/// The registry base as a directory URL: the default when blank, with a final `/`.
pub open spec fn registry_base(base: Seq<char>) -> Seq<char> {
    let t = if trim(base).len() == 0 {
        default_registry()
    } else {
        trim(base)
    };
    if t.len() > 0 && t.last() == '/' {
        t
    } else {
        t + "/"@
    }
}

/// The URL of the registry document for `package_name`, or the message for
/// the step that failed.
pub open spec fn registry_document_url(base: Seq<char>, package_name: Seq<char>) -> Result<Seq<char>, Seq<char>> {
    match url_parsed(registry_base(base)) {
        Err(e) => Err("invalid registry URL '"@ + base + "': "@ + e),
        Ok(u) => match url_joined(u, encoded(encode_utf8(package_name))) {
            Err(e) => Err("failed to construct registry URL for '"@ + package_name + "': "@ + e),
            Ok(j) => Ok(j),
        },
    }
}

/// The URL of the registry document for `package_name` on the registry at
/// `base` (npm's public registry when `base` is blank).
pub fn build_registry_url(base: &str, package_name: &str) -> (r: Result<String, SampoError>)
    ensures
        match registry_document_url(base@, package_name@) {
            Ok(u) => r matches Ok(x) && x@ == u,
            Err(e) => r matches Err(SampoError::Publish(m)) && m@ == e,
        },
{
    let t = trimmed(base);
    let root = if t.len() == 0 {
        chars_of("https://registry.npmjs.org/")
    } else {
        t
    };
    let normalized = if root.len() > 0 && root[root.len() - 1] == '/' {
        string_of(&root)
    } else {
        join2(string_of(&root).as_str(), "/")
    };
    assert(normalized@ == registry_base(base@));
    let url = match parse_url(normalized.as_str()) {
        Ok(u) => u,
        Err(e) => {
            let head = join3("invalid registry URL '", base, "': ");
            return Err(SampoError::Publish(join2(head.as_str(), e.as_str())));
        },
    };
    let encoded_name = encode_package_name(package_name);
    match join_url(&url, encoded_name.as_str()) {
        Ok(u) => Ok(owned_string(u.as_str())),
        Err(e) => {
            let head = join3("failed to construct registry URL for '", package_name, "': ");
            Err(SampoError::Publish(join2(head.as_str(), e.as_str())))
        },
    }
}

/// The `publishConfig` settings of a `package.json` that publishing reads.
#[derive(Debug, Clone, Default)]
pub struct NpmPublishConfig {
    pub registry: Option<String>,
    pub access: Option<String>,
    pub tag: Option<String>,
}

/// What publishing reads from a `package.json`.
#[derive(Debug, Clone)]
pub struct NpmManifestInfo {
    pub name: String,
    pub version: Option<String>,
    pub private: bool,
    pub package_manager: Option<String>,
    pub publish_config: NpmPublishConfig,
}

/// The trimmed text of a string value, when it is one and not blank.
pub open spec fn nonblank_text(o: Option<Value>) -> Option<Seq<char>> {
    match text_of(o) {
        Some(s) => if trim(s).len() > 0 {
            Some(trim(s))
        } else {
            None
        },
        None => None,
    }
}

/// The strings of an optional string as character sequences.
pub open spec fn opt_view(o: Option<String>) -> Option<Seq<char>> {
    match o {
        Some(s) => Some(s@),
        None => None,
    }
}

/// What the manifest at `path` reads as: its name, version, privacy,
/// package manager and publish settings, or the error.
pub open spec fn manifest_info_outcome(path: Seq<char>, manifest: Value) -> Result<
    (Seq<char>, Option<Seq<char>>, bool, Option<Seq<char>>, (Option<Seq<char>>, Option<Seq<char>>, Option<Seq<char>>)),
    Seq<char>,
> {
    match nonblank_text(field(manifest, "name"@)) {
        None => Err("Manifest "@ + path + " is missing a non-empty 'name' field"@),
        Some(name) => match package_name_problem(name) {
            Some(m) => Err("Manifest "@ + path + " has invalid package name '"@ + name + "': "@ + m),
            None => {
                let version = nonblank_text(field(manifest, "version"@));
                let private = match bool_of(field(manifest, "private"@)) {
                    Some(b) => b,
                    None => false,
                };
                if !private && version is None {
                    Err("Manifest "@ + path + " is missing a non-empty 'version' field"@)
                } else {
                    let config = field(manifest, "publishConfig"@);
                    let settings = match config {
                        Some(Value::Table(_)) => (
                            nonblank_text(field_of(config, "registry"@)),
                            nonblank_text(field_of(config, "access"@)),
                            nonblank_text(field_of(config, "tag"@)),
                        ),
                        _ => (None, None, None),
                    };
                    Ok((name, version, private, nonblank_text(field(manifest, "packageManager"@)), settings))
                }
            },
        },
    }
}

/// The information as plain values.
pub open spec fn info_view(i: NpmManifestInfo) -> (
    Seq<char>,
    Option<Seq<char>>,
    bool,
    Option<Seq<char>>,
    (Option<Seq<char>>, Option<Seq<char>>, Option<Seq<char>>),
) {
    (
        i.name@,
        opt_view(i.version),
        i.private,
        opt_view(i.package_manager),
        (opt_view(i.publish_config.registry), opt_view(i.publish_config.access), opt_view(i.publish_config.tag)),
    )
}

fn nonblank(v: Option<&Value>) -> (r: Option<String>)
    ensures
        opt_view(r) == nonblank_text(
            match v {
                Some(x) => Some(*x),
                None => None,
            },
        ),
{
    match v {
        Some(x) => match x.as_str() {
            Some(s) => {
                let t = trimmed(s);
                if t.len() > 0 {
                    Some(string_of(&t))
                } else {
                    None
                }
            },
            None => None,
        },
        None => None,
    }
}

/// Read what publishing needs from the `package.json` at `manifest_path`.
pub fn parse_manifest_info(manifest_path: &str, manifest: &Value) -> (r: Result<NpmManifestInfo, SampoError>)
    ensures
        match manifest_info_outcome(manifest_path@, *manifest) {
            Ok(i) => r matches Ok(x) && info_view(x) == i,
            Err(e) => r matches Err(SampoError::Publish(m)) && m@ == e,
        },
{
    let name = match nonblank(manifest.get("name")) {
        Some(n) => n,
        None => {
            return Err(SampoError::Publish(join3(
                "Manifest ",
                manifest_path,
                " is missing a non-empty 'name' field",
            )));
        },
    };
    if let Err(m) = validate_package_name(name.as_str()) {
        let a = join3("Manifest ", manifest_path, " has invalid package name '");
        let b = join3(a.as_str(), name.as_str(), "': ");
        return Err(SampoError::Publish(join2(b.as_str(), m.as_str())));
    }
    let version = nonblank(manifest.get("version"));
    let private = match manifest.get("private") {
        Some(v) => match v.as_bool() {
            Some(b) => b,
            None => false,
        },
        None => false,
    };
    if !private && version.is_none() {
        return Err(SampoError::Publish(join3(
            "Manifest ",
            manifest_path,
            " is missing a non-empty 'version' field",
        )));
    }
    let package_manager = nonblank(manifest.get("packageManager"));
    let publish_config = match manifest.get("publishConfig") {
        Some(c) => match c {
            Value::Table(_) => NpmPublishConfig {
                registry: nonblank(c.get("registry")),
                access: nonblank(c.get("access")),
                tag: nonblank(c.get("tag")),
            },
            _ => NpmPublishConfig { registry: None, access: None, tag: None },
        },
        None => NpmPublishConfig { registry: None, access: None, tag: None },
    };
    Ok(NpmManifestInfo { name, version, private, package_manager, publish_config })
}

/// The command name of a package manager.
pub open spec fn manager_text(m: PackageManager) -> Seq<char> {
    match m {
        PackageManager::Npm => "npm"@,
        PackageManager::Pnpm => "pnpm"@,
        PackageManager::Yarn => "yarn"@,
        PackageManager::Bun => "bun"@,
    }
}

impl PackageManager {
    /// The command that runs this package manager.
    pub fn command_name(&self) -> (r: &'static str)
        ensures
            r@ == manager_text(*self),
    {
        match self {
            PackageManager::Npm => "npm",
            PackageManager::Pnpm => "pnpm",
            PackageManager::Yarn => "yarn",
            PackageManager::Bun => "bun",
        }
    }

    /// The arguments that regenerate this package manager's lockfile
    /// without installing, and the lockfile's name.
    pub fn lockfile_command(&self) -> (r: (Vec<String>, &'static str))
        ensures
            strs(r.0@) == lockfile_args(*self),
            r.1@ == lockfile_name(*self),
    {
        let mut args: Vec<String> = Vec::new();
        args.push(owned_string("install"));
        let name = match self {
            PackageManager::Npm => {
                args.push(owned_string("--package-lock-only"));
                "package-lock.json"
            },
            PackageManager::Pnpm => {
                args.push(owned_string("--lockfile-only"));
                "pnpm-lock.yaml"
            },
            PackageManager::Yarn => {
                args.push(owned_string("--mode"));
                args.push(owned_string("update-lockfile"));
                "yarn.lock"
            },
            PackageManager::Bun => {
                args.push(owned_string("--frozen-lockfile=false"));
                "bun.lockb"
            },
        };
        assert(strs(args@) =~= lockfile_args(*self));
        (args, name)
    }
}

/// The arguments that regenerate a package manager's lockfile.
pub open spec fn lockfile_args(m: PackageManager) -> Seq<Seq<char>> {
    match m {
        PackageManager::Npm => seq!["install"@, "--package-lock-only"@],
        PackageManager::Pnpm => seq!["install"@, "--lockfile-only"@],
        PackageManager::Yarn => seq!["install"@, "--mode"@, "update-lockfile"@],
        PackageManager::Bun => seq!["install"@, "--frozen-lockfile=false"@],
    }
}

/// The lockfile a package manager writes.
pub open spec fn lockfile_name(m: PackageManager) -> Seq<char> {
    match m {
        PackageManager::Npm => "package-lock.json"@,
        PackageManager::Pnpm => "pnpm-lock.yaml"@,
        PackageManager::Yarn => "yarn.lock"@,
        PackageManager::Bun => "bun.lockb"@,
    }
}

/// The arguments of the publish command: `publish`, `--dry-run` for a dry
/// run, the configured registry, access (public for scoped packages) and
/// tag, each unless the extra arguments give it, then the extra arguments.
pub open spec fn npm_publish_args(info: NpmManifestInfo, dry_run: bool, extra: Seq<String>) -> Seq<Seq<char>> {
    let a = seq!["publish"@];
    let b = if dry_run && !flag_given(extra, "--dry-run"@) {
        a.push("--dry-run"@)
    } else {
        a
    };
    let c = match info.publish_config.registry {
        Some(r) => if !flag_given(extra, "--registry"@) {
            b.push("--registry"@).push(r@)
        } else {
            b
        },
        None => b,
    };
    let d = if !flag_given(extra, "--access"@) {
        match info.publish_config.access {
            Some(x) => c.push("--access"@).push(x@),
            None => if info.name@.len() > 0 && info.name@[0] == '@' {
                c.push("--access"@).push("public"@)
            } else {
                c
            },
        }
    } else {
        c
    };
    let e = match info.publish_config.tag {
        Some(t) => if !flag_given(extra, "--tag"@) {
            d.push("--tag"@).push(t@)
        } else {
            d
        },
        None => d,
    };
    e + crate::publish::arg_views(extra)
}

fn push_text(v: &mut Vec<String>, s: &str)
    ensures
        crate::publish::arg_views(final(v)@) == crate::publish::arg_views(old(v)@).push(s@),
{
    let ghost before = v@;
    let t = owned_string(s);
    v.push(t);
    assert(v@ =~= before.push(t));
    assert(crate::publish::arg_views(v@) =~= crate::publish::arg_views(before).push(s@));
}

/// The arguments to run the package manager with to publish the package.
pub fn publish_args(info: &NpmManifestInfo, dry_run: bool, extra_args: &[String]) -> (r: Vec<String>)
    ensures
        crate::publish::arg_views(r@) == npm_publish_args(*info, dry_run, extra_args@),
{
    let mut args: Vec<String> = Vec::new();
    push_text(&mut args, "publish");
    if dry_run && !has_flag(extra_args, "--dry-run") {
        push_text(&mut args, "--dry-run");
    }
    if let Some(registry) = &info.publish_config.registry {
        if !has_flag(extra_args, "--registry") {
            push_text(&mut args, "--registry");
            push_text(&mut args, registry.as_str());
        }
    }
    if !has_flag(extra_args, "--access") {
        match &info.publish_config.access {
            Some(access) => {
                push_text(&mut args, "--access");
                push_text(&mut args, access.as_str());
            },
            None => {
                let n = chars_of(info.name.as_str());
                if n.len() > 0 && n[0] == '@' {
                    push_text(&mut args, "--access");
                    push_text(&mut args, "public");
                }
            },
        }
    }
    if let Some(tag) = &info.publish_config.tag {
        if !has_flag(extra_args, "--tag") {
            push_text(&mut args, "--tag");
            push_text(&mut args, tag.as_str());
        }
    }
    let ghost head = crate::publish::arg_views(args@);
    let mut i: usize = 0;
    while i < extra_args.len()
        invariant
            i <= extra_args.len(),
            crate::publish::arg_views(args@) == head + crate::publish::arg_views(extra_args@.take(i as int)),
        decreases extra_args.len() - i,
    {
        assert(crate::publish::arg_views(extra_args@.take(i + 1)) =~= crate::publish::arg_views(
            extra_args@.take(i as int),
        ).push(extra_args@[i as int]@));
        push_text(&mut args, extra_args[i].as_str());
        i += 1;
    }
    assert(extra_args@.take(extra_args.len() as int) =~= extra_args@);
    args
}

/// Whether the package whose `package.json` at `manifest_path` reads
/// `text` may be published; a text that is no JSON document is an invalid
/// manifest.
pub fn publishable_from_text(manifest_path: &str, text: &str) -> (r: Result<bool, SampoError>)
    ensures
        match json_document(text@) {
            Err(e) => r matches Err(SampoError::Workspace(WorkspaceError::InvalidManifest(m))) && m@ == manifest_path@
                + ": "@ + e,
            Ok(doc) => match manifest_info_outcome(manifest_path@, doc) {
                Ok(i) => r == Ok::<bool, SampoError>(!i.2),
                Err(e) => r matches Err(SampoError::Publish(m)) && m@ == e,
            },
        },
{
    match parse_json(text) {
        Ok(doc) => is_publishable(manifest_path, &doc),
        Err(e) => Err(SampoError::Workspace(WorkspaceError::InvalidManifest(join3(manifest_path, ": ", e.as_str())))),
    }
}

/// Whether the package may be published: a package marked private may not.
pub fn is_publishable(manifest_path: &str, manifest: &Value) -> (r: Result<bool, SampoError>)
    ensures
        match manifest_info_outcome(manifest_path@, *manifest) {
            Ok(i) => r == Ok::<bool, SampoError>(!i.2),
            Err(e) => r matches Err(SampoError::Publish(m)) && m@ == e,
        },
{
    match parse_manifest_info(manifest_path, manifest) {
        Ok(info) => Ok(!info.private),
        Err(e) => Err(e),
    }
}

/// The package manager command and its arguments that publish the package
/// at `manifest_path`: private packages are refused; the tool is the one
/// `detect_package_manager` picks from the manifest and `ancestor_files`.
pub fn publish_command(
    manifest_path: &str,
    manifest: &Value,
    ancestor_files: &Vec<Vec<String>>,
    dry_run: bool,
    extra_args: &[String],
) -> (r: Result<(String, Vec<String>), SampoError>)
    ensures
        match manifest_info_outcome(manifest_path@, *manifest) {
            Err(e) => r matches Err(SampoError::Publish(m)) && m@ == e,
            Ok(i) => if i.2 {
                r matches Err(SampoError::Publish(m)) && m@ == "Package '"@ + i.0
                    + "' is marked as private and cannot be published"@
            } else {
                r matches Ok((program, args)) && exists|info: NpmManifestInfo|
                    info_view(info) == i && crate::publish::arg_views(args@) == npm_publish_args(
                        info,
                        dry_run,
                        extra_args@,
                    ) && program@ == manager_text(
                        match i.3 {
                            Some(f) => match manager_named(f) {
                                Some(m) => m,
                                None => match manager_of_ancestors(ancestor_files@, 0) {
                                    Some(m) => m,
                                    None => PackageManager::Npm,
                                },
                            },
                            None => match manager_of_ancestors(ancestor_files@, 0) {
                                Some(m) => m,
                                None => PackageManager::Npm,
                            },
                        },
                    )
            },
        },
{
    let info = match parse_manifest_info(manifest_path, manifest) {
        Ok(i) => i,
        Err(e) => {
            return Err(e);
        },
    };
    if info.private {
        return Err(SampoError::Publish(join3(
            "Package '",
            info.name.as_str(),
            "' is marked as private and cannot be published",
        )));
    }
    let manager = match &info.package_manager {
        Some(f) => detect_package_manager(Some(f.as_str()), ancestor_files),
        None => detect_package_manager(None, ancestor_files),
    };
    let args = publish_args(&info, dry_run, extra_args);
    Ok((owned_string(manager.command_name()), args))
}

/// A null value, as the converted document writes it.
pub open spec fn is_null(v: Value) -> bool {
    v matches Value::Other(t) && t@ == "null"@
}

/// The texts of a list whose items are all strings, or the message.
pub open spec fn string_items(items: Seq<Value>, message: Seq<char>) -> Result<Seq<Seq<char>>, Seq<char>> {
    if forall|i: int| 0 <= i < items.len() ==> #[trigger] items[i] is Str {
        Ok(items.map_values(|v: Value| match v {
            Value::Str(t) => t@,
            _ => seq![],
        }))
    } else {
        Err(message)
    }
}

/// The workspace patterns of a root `package.json`: the `workspaces` list,
/// or the `packages` list of a `workspaces` object; or why they are refused.
pub open spec fn workspace_patterns_of(manifest: Value) -> Result<Seq<Seq<char>>, Seq<char>> {
    match field(manifest, "workspaces"@) {
        None => Ok(seq![]),
        Some(Value::List(items)) => string_items(items@, "workspaces entries must be strings"@),
        Some(Value::Table(t)) => match field(Value::Table(t), "packages"@) {
            None => Ok(seq![]),
            Some(Value::List(items)) => string_items(items@, "workspaces.packages entries must be strings"@),
            Some(v) => if is_null(v) {
                Ok(seq![])
            } else {
                Err("workspaces.packages must be an array of strings"@)
            },
        },
        Some(_) => Err("workspaces field must be an array or object"@),
    }
}

/// The patterns of a parsed `pnpm-workspace.yaml`: its `packages` sequence; or why it is refused.
pub open spec fn pnpm_patterns_of(doc: Value) -> Result<Seq<Seq<char>>, Seq<char>> {
    match field(doc, "packages"@) {
        None => Ok(seq![]),
        Some(Value::List(items)) => string_items(items@, "pnpm-workspace.yaml packages entries must be strings"@),
        Some(v) => if is_null(v) {
            Ok(seq![])
        } else {
            Err("pnpm-workspace.yaml packages field must be a sequence of strings"@)
        },
    }
}

fn read_strings(items: &Vec<Value>, message: &str) -> (r: Result<Vec<String>, WorkspaceError>)
    ensures
        match string_items(items@, message@) {
            Ok(ts) => r matches Ok(v) && strs(v@) == ts,
            Err(m) => r matches Err(WorkspaceError::InvalidWorkspace(x)) && x@ == m,
        },
{
    let mut out: Vec<String> = Vec::new();
    let mut i: usize = 0;
    while i < items.len()
        invariant
            i <= items.len(),
            forall|j: int| 0 <= j < i ==> #[trigger] items@[j] is Str,
            out.len() == i,
            forall|j: int| 0 <= j < i ==> (items@[j] matches Value::Str(t) && #[trigger] out@[j]@ == t@),
        decreases items.len() - i,
    {
        match &items[i] {
            Value::Str(t) => {
                let ghost before = out@;
                let x = owned_string(t.as_str());
                out.push(x);
                assert(out@ =~= before.push(x));
                assert(forall|j: int| 0 <= j < i ==> out@[j] == before[j]);
            },
            _ => {
                assert(!(items@[i as int] is Str));
                return Err(WorkspaceError::InvalidWorkspace(owned_string(message)));
            },
        }
        i += 1;
    }
    assert(strs(out@) =~= items@.map_values(|v: Value| match v {
        Value::Str(t) => t@,
        _ => seq![],
    }));
    Ok(out)
}

fn is_null_value(v: &Value) -> (r: bool)
    ensures
        r == is_null(*v),
{
    match v {
        Value::Other(t) => chars_eq(&chars_of(t.as_str()), &chars_of("null")),
        _ => false,
    }
}

/// Read the workspace patterns of a root `package.json`.
pub fn extract_workspace_patterns(manifest: &Value) -> (r: Result<Vec<String>, WorkspaceError>)
    ensures
        match workspace_patterns_of(*manifest) {
            Ok(ts) => r matches Ok(v) && strs(v@) == ts,
            Err(m) => r matches Err(WorkspaceError::InvalidWorkspace(x)) && x@ == m,
        },
{
    match manifest.get("workspaces") {
        None => {
            let v: Vec<String> = Vec::new();
            assert(strs(v@) =~= seq![]);
            Ok(v)
        },
        Some(w) => match w {
            Value::List(items) => read_strings(items, "workspaces entries must be strings"),
            Value::Table(_) => match w.get("packages") {
                None => {
                    let v: Vec<String> = Vec::new();
                    assert(strs(v@) =~= seq![]);
                    Ok(v)
                },
                Some(p) => match p {
                    Value::List(items) => read_strings(items, "workspaces.packages entries must be strings"),
                    _ => {
                        if is_null_value(p) {
                            let v: Vec<String> = Vec::new();
                            assert(strs(v@) =~= seq![]);
                            Ok(v)
                        } else {
                            Err(WorkspaceError::InvalidWorkspace(owned_string("workspaces.packages must be an array of strings")))
                        }
                    },
                },
            },
            _ => Err(WorkspaceError::InvalidWorkspace(owned_string("workspaces field must be an array or object"))),
        },
    }
}

/// Read the package patterns of a parsed `pnpm-workspace.yaml`.
pub fn load_pnpm_workspace_patterns(doc: &Value) -> (r: Result<Vec<String>, WorkspaceError>)
    ensures
        match pnpm_patterns_of(*doc) {
            Ok(ts) => r matches Ok(v) && strs(v@) == ts,
            Err(m) => r matches Err(WorkspaceError::InvalidWorkspace(x)) && x@ == m,
        },
{
    match doc.get("packages") {
        None => {
            let v: Vec<String> = Vec::new();
            assert(strs(v@) =~= seq![]);
            Ok(v)
        },
        Some(p) => match p {
            Value::List(items) => read_strings(items, "pnpm-workspace.yaml packages entries must be strings"),
            _ => {
                if is_null_value(p) {
                    let v: Vec<String> = Vec::new();
                    assert(strs(v@) =~= seq![]);
                    Ok(v)
                } else {
                    Err(WorkspaceError::InvalidWorkspace(owned_string("pnpm-workspace.yaml packages field must be a sequence of strings")))
                }
            },
        },
    }
}

/// The member patterns of an npm workspace, sorted and without duplicates:
/// those of the root `package.json` (when there is one) and those of
/// `pnpm-workspace.yaml` (when there is one).
pub fn workspace_patterns(root_manifest: Option<&Value>, pnpm: Option<&Value>) -> (r: Result<Vec<String>, WorkspaceError>)
    ensures
        match root_manifest {
            Some(m) => match workspace_patterns_of(*m) {
                Err(e) => r matches Err(WorkspaceError::InvalidWorkspace(x)) && x@ == e,
                Ok(a) => match pnpm {
                    Some(d) => match pnpm_patterns_of(*d) {
                        Err(e) => r matches Err(WorkspaceError::InvalidWorkspace(x)) && x@ == e,
                        Ok(b) => r matches Ok(v) && strictly_sorted(strs(v@)) && strs(v@).to_set() == a.to_set() + b.to_set(),
                    },
                    None => r matches Ok(v) && strictly_sorted(strs(v@)) && strs(v@).to_set() == a.to_set(),
                },
            },
            None => match pnpm {
                Some(d) => match pnpm_patterns_of(*d) {
                    Err(e) => r matches Err(WorkspaceError::InvalidWorkspace(x)) && x@ == e,
                    Ok(b) => r matches Ok(v) && strictly_sorted(strs(v@)) && strs(v@).to_set() == b.to_set(),
                },
                None => r matches Ok(v) && v.len() == 0,
            },
        },
{
    let mut out: Vec<String> = Vec::new();
    assert(strs(out@).to_set() =~= Set::empty());
    match root_manifest {
        Some(m) => {
            let ps = match extract_workspace_patterns(m) {
                Ok(ps) => ps,
                Err(e) => {
                    return Err(e);
                },
            };
            add_all(&mut out, &ps);
            assert(Set::<Seq<char>>::empty() + strs(ps@).to_set() =~= strs(ps@).to_set());
        },
        None => {},
    }
    match pnpm {
        Some(d) => {
            let ps = match load_pnpm_workspace_patterns(d) {
                Ok(ps) => ps,
                Err(e) => {
                    return Err(e);
                },
            };
            let ghost before = strs(out@).to_set();
            add_all(&mut out, &ps);
            assert(Set::<Seq<char>>::empty() + strs(ps@).to_set() =~= strs(ps@).to_set());
        },
        None => {},
    }
    Ok(out)
}

fn add_all(out: &mut Vec<String>, items: &Vec<String>)
    requires
        strictly_sorted(strs(old(out)@)),
    ensures
        strictly_sorted(strs(final(out)@)),
        strs(final(out)@).to_set() == strs(old(out)@).to_set() + strs(items@).to_set(),
{
    let ghost start = strs(out@).to_set();
    let mut i: usize = 0;
    assert(strs(items@.take(0)).to_set() =~= Set::empty());
    assert(start + Set::empty() =~= start);
    while i < items.len()
        invariant
            i <= items.len(),
            strictly_sorted(strs(out@)),
            strs(out@).to_set() == start + strs(items@.take(i as int)).to_set(),
        decreases items.len() - i,
    {
        insert_sorted(out, owned_string(items[i].as_str()));
        assert(strs(items@.take(i + 1)) =~= strs(items@.take(i as int)).push(items@[i as int]@));
        proof {
            strs(items@.take(i as int)).lemma_push_to_set_commute(items@[i as int]@);
        }
        assert(start + strs(items@.take(i + 1)).to_set() =~= start + strs(items@.take(i as int)).to_set().insert(items@[i as int]@));
        i += 1;
    }
    assert(items@.take(items.len() as int) =~= items@);
}

/// Whether the workspace root is itself a package: when no pattern names
/// members and it has a `package.json`, or when its `package.json` has a name.
pub fn root_is_member(root_manifest: Option<&Value>, has_patterns: bool) -> (r: bool)
    ensures
        r == match root_manifest {
            Some(m) => !has_patterns || match text_of(field(*m, "name"@)) {
                Some(n) => trim(n).len() > 0,
                None => false,
            },
            None => false,
        },
{
    match root_manifest {
        Some(m) => {
            if !has_patterns {
                return true;
            }
            match m.get("name") {
                Some(n) => match n.as_str() {
                    Some(t) => trimmed(t).len() > 0,
                    None => false,
                },
                None => false,
            }
        },
        None => false,
    }
}

/// The entries of a table value, or none.
pub open spec fn entries_of(o: Option<Value>) -> Seq<(String, Value)> {
    match o {
        Some(Value::Table(es)) => es@,
        _ => seq![],
    }
}

/// The identifiers of the workspace packages a dependency table lists.
pub open spec fn table_ids(o: Option<Value>, names: Seq<Seq<char>>) -> Set<Seq<char>> {
    Set::new(
        |id: Seq<char>|
            exists|q: int|
                0 <= q < entries_of(o).len() && names.contains(#[trigger] entries_of(o)[q].0@) && id
                    == identifier_of(PackageKind::Npm, entries_of(o)[q].0@),
    )
}

/// The bundled dependency list: `bundledDependencies`, else `bundleDependencies`.
pub open spec fn bundled(manifest: Value) -> Seq<Value> {
    let o = match field(manifest, "bundledDependencies"@) {
        Some(v) => Some(v),
        None => field(manifest, "bundleDependencies"@),
    };
    match o {
        Some(Value::List(items)) => items@,
        _ => seq![],
    }
}

/// The identifiers of the workspace packages a bundled list names.
pub open spec fn bundled_ids(items: Seq<Value>, names: Seq<Seq<char>>) -> Set<Seq<char>> {
    Set::new(
        |id: Seq<char>|
            exists|q: int|
                0 <= q < items.len() && (#[trigger] items[q] matches Value::Str(t) && names.contains(t@) && id
                    == identifier_of(PackageKind::Npm, t@)),
    )
}

/// The identifiers of the workspace packages (named in `names`) that a
/// `package.json` lists among its dependencies of any kind or bundles.
pub open spec fn npm_internal_ids(manifest: Value, names: Seq<Seq<char>>) -> Set<Seq<char>> {
    table_ids(field(manifest, "dependencies"@), names) + table_ids(field(manifest, "devDependencies"@), names)
        + table_ids(field(manifest, "peerDependencies"@), names) + table_ids(
        field(manifest, "optionalDependencies"@),
        names,
    ) + bundled_ids(bundled(manifest), names)
}

fn names_contain(names: &[String], n: &str) -> (r: bool)
    ensures
        r == strs(names@).contains(n@),
{
    let key = chars_of(n);
    let mut i: usize = 0;
    while i < names.len()
        invariant
            i <= names.len(),
            key@ == n@,
            forall|j: int| 0 <= j < i ==> #[trigger] strs(names@)[j] != n@,
        decreases names.len() - i,
    {
        assert(strs(names@)[i as int] == names@[i as int]@);
        if chars_eq(&chars_of(names[i].as_str()), &key) {
            return true;
        }
        i += 1;
    }
    false
}

fn add_table_ids(out: &mut Vec<String>, t: Option<&Value>, names: &[String])
    requires
        strictly_sorted(strs(old(out)@)),
    ensures
        strictly_sorted(strs(final(out)@)),
        strs(final(out)@).to_set() == strs(old(out)@).to_set() + table_ids(
            match t {
                Some(v) => Some(*v),
                None => None,
            },
            strs(names@),
        ),
{
    let ghost o: Option<Value> = match t {
        Some(v) => Some(*v),
        None => None,
    };
    let ghost start = strs(out@).to_set();
    let entries = match t {
        Some(v) => match v.as_map() {
            Some(es) => es,
            None => {
                assert(table_ids(o, strs(names@)) =~= Set::empty());
                assert(start + Set::empty() =~= start);
                return;
            },
        },
        None => {
            assert(table_ids(o, strs(names@)) =~= Set::empty());
            assert(start + Set::empty() =~= start);
            return;
        },
    };
    assert(entries_of(o) == entries@);
    let mut k: usize = 0;
    while k < entries.len()
        invariant
            k <= entries.len(),
            entries_of(o) == entries@,
            strictly_sorted(strs(out@)),
            strs(out@).to_set() == start + Set::new(
                |id: Seq<char>|
                    exists|q: int|
                        0 <= q < k && strs(names@).contains(#[trigger] entries@[q].0@) && id == identifier_of(
                            PackageKind::Npm,
                            entries@[q].0@,
                        ),
            ),
        decreases entries.len() - k,
    {
        let name = entries[k].0.as_str();
        if names_contain(names, name) {
            insert_sorted(out, PackageInfo::dependency_identifier(PackageKind::Npm, name));
        }
        assert(strs(out@).to_set() =~= start + Set::new(
            |id: Seq<char>|
                exists|q: int|
                    0 <= q < k + 1 && strs(names@).contains(#[trigger] entries@[q].0@) && id == identifier_of(
                        PackageKind::Npm,
                        entries@[q].0@,
                    ),
        ));
        k += 1;
    }
    assert(Set::new(
        |id: Seq<char>|
            exists|q: int|
                0 <= q < entries.len() && strs(names@).contains(#[trigger] entries@[q].0@) && id == identifier_of(
                    PackageKind::Npm,
                    entries@[q].0@,
                ),
    ) =~= table_ids(o, strs(names@)));
}

fn add_bundled_ids(out: &mut Vec<String>, items: &Vec<Value>, names: &[String])
    requires
        strictly_sorted(strs(old(out)@)),
    ensures
        strictly_sorted(strs(final(out)@)),
        strs(final(out)@).to_set() == strs(old(out)@).to_set() + bundled_ids(items@, strs(names@)),
{
    let ghost start = strs(out@).to_set();
    let mut k: usize = 0;
    while k < items.len()
        invariant
            k <= items.len(),
            strictly_sorted(strs(out@)),
            strs(out@).to_set() == start + bundled_ids(items@.take(k as int), strs(names@)),
        decreases items.len() - k,
    {
        match &items[k] {
            Value::Str(t) => {
                if names_contain(names, t.as_str()) {
                    insert_sorted(out, PackageInfo::dependency_identifier(PackageKind::Npm, t.as_str()));
                }
            },
            _ => {},
        }
        assert(strs(out@).to_set() =~= start + bundled_ids(items@.take(k + 1), strs(names@))) by {
            assert(forall|q: int| 0 <= q < k ==> items@.take(k + 1)[q] == items@.take(k as int)[q]);
            assert(items@.take(k + 1)[k as int] == items@[k as int]);
        }
        k += 1;
    }
    assert(items@.take(items.len() as int) =~= items@);
}

/// The identifiers of the workspace packages (named in `names`) a
/// `package.json` depends on, sorted and without duplicates.
pub fn collect_internal_deps(manifest: &Value, names: &[String]) -> (r: Vec<String>)
    ensures
        strictly_sorted(strs(r@)),
        strs(r@).to_set() == npm_internal_ids(*manifest, strs(names@)),
{
    let mut out: Vec<String> = Vec::new();
    assert(strs(out@).to_set() =~= Set::empty());
    add_table_ids(&mut out, manifest.get("dependencies"), names);
    add_table_ids(&mut out, manifest.get("devDependencies"), names);
    add_table_ids(&mut out, manifest.get("peerDependencies"), names);
    add_table_ids(&mut out, manifest.get("optionalDependencies"), names);
    let list = match manifest.get("bundledDependencies") {
        Some(v) => Some(v),
        None => manifest.get("bundleDependencies"),
    };
    match list {
        Some(v) => match v.as_list() {
            Some(items) => add_bundled_ids(&mut out, items, names),
            None => {
                assert(bundled_ids(bundled(*manifest), strs(names@)) =~= Set::empty());
            },
        },
        None => {
            assert(bundled_ids(bundled(*manifest), strs(names@)) =~= Set::empty());
        },
    }
    assert(strs(out@).to_set() =~= npm_internal_ids(*manifest, strs(names@)));
    out
}

/// The first member, from position `i` on, whose `package.json` has no name.
pub open spec fn first_unnamed(members: Seq<(String, String, Value)>, i: int) -> Option<int>
    decreases members.len() - i,
{
    if i < 0 || i >= members.len() {
        None
    } else if text_of(field(members[i].2, "name"@)) is None {
        Some(i)
    } else {
        first_unnamed(members, i + 1)
    }
}

/// The name of a member's `package.json`, or empty.
pub open spec fn manifest_name(m: Value) -> Seq<char> {
    match text_of(field(m, "name"@)) {
        Some(n) => n,
        None => seq![],
    }
}

/// `p` is the package of member `(directory, manifest path, manifest)`
/// among members named `names`.
pub open spec fn npm_package(member: (String, String, Value), names: Seq<Seq<char>>, p: PackageInfo) -> bool {
    let m = member.2;
    &&& p.name@ == manifest_name(m)
    &&& p.version@ == match text_of(field(m, "version"@)) {
        Some(v) => v,
        None => seq![],
    }
    &&& p.identifier@ == identifier_of(PackageKind::Npm, manifest_name(m))
    &&& p.path@ == member.0@
    &&& p.kind == PackageKind::Npm
    &&& strictly_sorted(strs(p.internal_deps@))
    &&& strs(p.internal_deps@).to_set() == npm_internal_ids(m, names)
}

fn manifest_text(m: &Value, key: &str) -> (r: Option<String>)
    ensures
        match text_of(field(*m, key@)) {
            Some(t) => r matches Some(x) && x@ == t,
            None => r is None,
        },
{
    match m.get(key) {
        Some(v) => match v.as_str() {
            Some(t) => Some(owned_string(t)),
            None => None,
        },
        None => None,
    }
}

/// The packages of the workspace members `(directory, manifest path,
/// manifest)`, in order: each with the name and version of its
/// `package.json` and the members it depends on.
pub fn discover_packages(members: &[(String, String, Value)]) -> (r: Result<Vec<PackageInfo>, WorkspaceError>)
    ensures
        match first_unnamed(members@, 0) {
            Some(i) => r matches Err(WorkspaceError::InvalidWorkspace(m)) && m@ == "missing name field in "@
                + members@[i].1@,
            None => r matches Ok(ps) && ps.len() == members.len() && forall|i: int|
                0 <= i < members.len() ==> npm_package(
                    members@[i],
                    Seq::new(members.len() as nat, |j: int| manifest_name(members@[j].2)),
                    #[trigger] ps@[i],
                ),
        },
{
    let mut names: Vec<String> = Vec::new();
    let mut i: usize = 0;
    while i < members.len()
        invariant
            i <= members.len(),
            first_unnamed(members@, 0) == first_unnamed(members@, i as int),
            names.len() == i,
            forall|j: int| 0 <= j < i ==> #[trigger] names@[j]@ == manifest_name(members@[j].2) && text_of(
                field(members@[j].2, "name"@),
            ) is Some,
        decreases members.len() - i,
    {
        match manifest_text(&members[i].2, "name") {
            Some(n) => {
                let ghost before = names@;
                names.push(n);
                assert(names@ =~= before.push(n));
                assert(forall|j: int| 0 <= j < i ==> names@[j] == before[j]);
            },
            None => {
                return Err(WorkspaceError::InvalidWorkspace(join2("missing name field in ", members[i].1.as_str())));
            },
        }
        i += 1;
    }
    let ghost all = Seq::new(members.len() as nat, |j: int| manifest_name(members@[j].2));
    assert(strs(names@) =~= all);
    let mut out: Vec<PackageInfo> = Vec::new();
    let mut k: usize = 0;
    while k < members.len()
        invariant
            k <= members.len(),
            names.len() == members.len(),
            strs(names@) == all,
            all == Seq::new(members.len() as nat, |j: int| manifest_name(members@[j].2)),
            forall|j: int| 0 <= j < members.len() ==> #[trigger] names@[j]@ == manifest_name(members@[j].2),
            out.len() == k,
            forall|j: int| 0 <= j < k ==> npm_package(members@[j], all, #[trigger] out@[j]),
        decreases members.len() - k,
    {
        let m = &members[k].2;
        let name = owned_string(names[k].as_str());
        let version = match manifest_text(m, "version") {
            Some(v) => v,
            None => String::new(),
        };
        let identifier = PackageInfo::dependency_identifier(PackageKind::Npm, name.as_str());
        let deps = collect_internal_deps(m, &names);
        let p = PackageInfo {
            name,
            identifier,
            version,
            path: owned_string(members[k].0.as_str()),
            internal_deps: deps,
            internal_dev_deps: Vec::new(),
            kind: PackageKind::Npm,
        };
        let ghost before = out@;
        out.push(p);
        assert(out@ =~= before.push(p));
        assert(npm_package(members@[k as int], all, p));
        assert(forall|j: int| 0 <= j < k ==> out@[j] == before[j]);
        k += 1;
    }
    Ok(out)
}

} // verus!
