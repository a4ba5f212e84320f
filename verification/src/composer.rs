//! Version updates of a `composer.json` text: the package's own version and
//! the constraints on workspace packages in `require` and `require-dev`.
use crate::changeset::pair_views;
use crate::errors::SampoError;
use crate::json_layout::{composer_json_fields, composer_json_layout, composer_json_view};
use crate::npm::{
    apply_rewrites, find_entry, last_entry, push_rewrite, rewrite_of, rewrite_to, rewrite_views, rewritten, JsonSpan,
    Rewrite,
};
use crate::packagist::{composer_new_constraint, compute_dependency_constraint};
use crate::text::{chars_eq, chars_of, join2, join3, owned};
use vstd::prelude::*;

verus! {

/// The fields of a `composer.json` that a version update reads.
#[derive(Debug)]
pub struct ComposerJsonFields {
    pub version: Option<JsonSpan>,
    pub require: Option<Vec<(String, JsonSpan)>>,
    pub require_dev: Option<Vec<(String, JsonSpan)>>,
}

/// Requirement section `k`, in the order sections are visited.
pub open spec fn requirement_section(f: ComposerJsonFields, k: int) -> Option<Vec<(String, JsonSpan)>> {
    if k == 0 {
        f.require
    } else {
        f.require_dev
    }
}

/// The JSON key of requirement section `k`.
pub open spec fn requirement_section_name(k: int) -> Seq<char> {
    if k == 0 {
        "require"@
    } else {
        "require-dev"@
    }
}

/// The rewrite of the package's own version to `target`, when it has one
/// that differs, or the error for a version that is no string.
pub open spec fn composer_version_rewrites(f: ComposerJsonFields, path: Seq<char>, target: Option<Seq<char>>) -> Result<
    Seq<Rewrite>,
    Seq<char>,
> {
    match (target, f.version) {
        (Some(t), Some(v)) => match v.text {
            Err(e) => Err("Version field in "@ + path + " is not a string: "@ + e@),
            Ok(cur) => if cur@ == t {
                Ok(seq![])
            } else {
                Ok(seq![rewrite_to(v, t)])
            },
        },
        _ => Ok(seq![]),
    }
}

/// The rewrites of the constraint on `dep` in the first `k` sections, or the error.
pub open spec fn requirement_rewrites(
    f: ComposerJsonFields,
    path: Seq<char>,
    dep: Seq<char>,
    new_version: Seq<char>,
    k: int,
) -> Result<Seq<Rewrite>, Seq<char>>
    decreases k,
{
    if k <= 0 {
        Ok(seq![])
    } else {
        match requirement_rewrites(f, path, dep, new_version, k - 1) {
            Err(e) => Err(e),
            Ok(rs) => match requirement_section(f, k - 1) {
                None => Ok(rs),
                Some(entries) => match last_entry(entries@, dep, entries@.len() as int) {
                    None => Ok(rs),
                    Some(j) => {
                        let v = entries@[j].1;
                        match v.text {
                            Err(e) => Err("Dependency specifier for '"@ + dep + "' in "@ + path + "."@
                                + requirement_section_name(k - 1) + " is not a string: "@ + e@),
                            Ok(cur) => match composer_new_constraint(cur@, new_version) {
                                Some(spec) => if spec != cur@ {
                                    Ok(rs.push(rewrite_to(v, spec)))
                                } else {
                                    Ok(rs)
                                },
                                None => Ok(rs),
                            },
                        }
                    },
                },
            },
        }
    }
}

/// The rewrites for the version update and the `(dependency, version)`
/// updates that changed something, or the first error.
pub open spec fn composer_rewrites(
    f: ComposerJsonFields,
    path: Seq<char>,
    target: Option<Seq<char>>,
    updates: Seq<(Seq<char>, Seq<char>)>,
) -> Result<(Seq<Rewrite>, Seq<(Seq<char>, Seq<char>)>), Seq<char>>
    decreases updates.len(),
{
    if updates.len() == 0 {
        match composer_version_rewrites(f, path, target) {
            Err(e) => Err(e),
            Ok(rs) => Ok((rs, seq![])),
        }
    } else {
        match composer_rewrites(f, path, target, updates.drop_last()) {
            Err(e) => Err(e),
            Ok((rs, applied)) => {
                let (dep, nv) = updates.last();
                match requirement_rewrites(f, path, dep, nv, 2) {
                    Err(e) => Err(e),
                    Ok(more) => if more.len() > 0 {
                        Ok((rs + more, applied.push((dep, nv))))
                    } else {
                        Ok((rs, applied))
                    },
                }
            },
        }
    }
}

fn requirement_section_of(f: &ComposerJsonFields, k: usize) -> (r: &Option<Vec<(String, JsonSpan)>>)
    ensures
        *r == requirement_section(*f, k as int),
{
    if k == 0 {
        &f.require
    } else {
        &f.require_dev
    }
}

fn requirement_section_name_of(k: usize) -> (r: &'static str)
    ensures
        r@ == requirement_section_name(k as int),
{
    if k == 0 {
        "require"
    } else {
        "require-dev"
    }
}

proof fn lemma_requirement_keeps_error(f: ComposerJsonFields, path: Seq<char>, dep: Seq<char>, nv: Seq<char>, k: int)
    requires
        0 <= k <= 2,
        requirement_rewrites(f, path, dep, nv, k) is Err,
    ensures
        requirement_rewrites(f, path, dep, nv, 2) == requirement_rewrites(f, path, dep, nv, k),
    decreases 2 - k,
{
    if k < 2 {
        lemma_requirement_keeps_error(f, path, dep, nv, k + 1);
    }
}

proof fn lemma_composer_keeps_error(
    f: ComposerJsonFields,
    path: Seq<char>,
    target: Option<Seq<char>>,
    ups: Seq<(Seq<char>, Seq<char>)>,
    k: int,
)
    requires
        0 <= k <= ups.len(),
        composer_rewrites(f, path, target, ups.take(k)) is Err,
    ensures
        composer_rewrites(f, path, target, ups) == composer_rewrites(f, path, target, ups.take(k)),
    decreases ups.len() - k,
{
    if k < ups.len() {
        assert(ups.take(k + 1).drop_last() =~= ups.take(k));
        lemma_composer_keeps_error(f, path, target, ups, k + 1);
    } else {
        assert(ups.take(k) =~= ups);
    }
}

/// The rewrites of one requirement across the sections, appended to `rs`.
fn plan_requirement(
    f: &ComposerJsonFields,
    path: &str,
    dep: &str,
    new_version: &str,
    rs: &mut Vec<(usize, usize, String)>,
) -> (r: Result<bool, SampoError>)
    ensures
        match requirement_rewrites(*f, path@, dep@, new_version@, 2) {
            Err(e) => r matches Err(SampoError::Release(m)) && m@ == e,
            Ok(more) => r == Ok::<bool, SampoError>(more.len() > 0) && rewrite_views(final(rs)@)
                == rewrite_views(old(rs)@) + more,
        },
{
    let ghost start = rewrite_views(rs@);
    let start_len = rs.len();
    let mut k: usize = 0;
    assert(start + seq![] =~= start);
    while k < 2
        invariant
            k <= 2,
            start.len() == start_len,
            requirement_rewrites(*f, path@, dep@, new_version@, k as int) matches Ok(more)
                && rewrite_views(rs@) == start + more,
        decreases 2 - k,
    {
        let ghost prev = requirement_rewrites(*f, path@, dep@, new_version@, k as int)->Ok_0;
        match requirement_section_of(f, k) {
            None => {},
            Some(entries) => {
                match find_entry(entries, dep) {
                    None => {},
                    Some(j) => {
                        let v = &entries[j].1;
                        match &v.text {
                            Err(e) => {
                                let a = join3("Dependency specifier for '", dep, "' in ");
                                let b = join3(a.as_str(), path, ".");
                                let c = join3(b.as_str(), requirement_section_name_of(k), " is not a string: ");
                                proof {
                                    lemma_requirement_keeps_error(*f, path@, dep@, new_version@, k + 1);
                                }
                                return Err(SampoError::Release(join2(c.as_str(), e.as_str())));
                            },
                            Ok(cur) => {
                                match compute_dependency_constraint(cur.as_str(), new_version) {
                                    Some(spec) => {
                                        if !chars_eq(&chars_of(spec.as_str()), &chars_of(cur.as_str())) {
                                            let x = rewrite_of(v, spec.as_str());
                                            push_rewrite(rs, x);
                                            assert(start + prev.push(rewrite_to(*v, spec@)) =~= (start + prev).push(
                                                rewrite_to(*v, spec@),
                                            ));
                                        }
                                    },
                                    None => {},
                                }
                            },
                        }
                    },
                }
            },
        }
        k += 1;
    }
    Ok(rs.len() > start_len)
}

/// What a rewrite of a `composer.json` text gives, `fields` being where
/// its values stand (see `composer_rewrites`).
pub open spec fn composer_json_update(
    fields: ComposerJsonFields,
    path: Seq<char>,
    input: Seq<char>,
    new_pkg_version: Option<&str>,
    new_version_by_name: Seq<(String, String)>,
    r: Result<(String, Vec<(String, String)>), SampoError>,
) -> bool {
    match composer_rewrites(
        fields,
        path,
        match new_pkg_version {
            Some(t) => Some(t@),
            None => None,
        },
        pair_views(new_version_by_name),
    ) {
        Err(e) => r matches Err(SampoError::Release(m)) && m@ == e,
        Ok((rs, applied)) => r matches Ok((out, ap)) && out@ == rewritten(input, rs, 0) && pair_views(ap@) == applied,
    }
}

/// Rewrite the versions in the text of a `composer.json`, found by
/// `composer_json_fields`: a text that is no JSON object is refused with
/// the parser's message, the rest as `rewrite_manifest_versions` says.
pub fn update_manifest_versions(
    manifest_path: &str,
    input: &str,
    new_pkg_version: Option<&str>,
    new_version_by_name: &[(String, String)],
) -> (r: Result<(String, Vec<(String, String)>), SampoError>)
    ensures
        match composer_json_layout(input@) {
            Err(e) => r matches Err(SampoError::Release(m)) && m@ == "Failed to parse composer.json "@ + manifest_path@
                + ": "@ + e,
            Ok(v) => exists|f: ComposerJsonFields|
                composer_json_view(f) == v && composer_json_update(f, manifest_path@, input@, new_pkg_version,
                    new_version_by_name@, r),
        },
{
    match composer_json_fields(input) {
        Ok(f) => {
            let r = rewrite_manifest_versions(manifest_path, input, &f, new_pkg_version, new_version_by_name);
            proof {
                assert(composer_json_view(f) == composer_json_layout(input@)->Ok_0);
            }
            r
        },
        Err(e) => {
            let head = join3("Failed to parse composer.json ", manifest_path, ": ");
            Err(SampoError::Release(join2(head.as_str(), e.as_str())))
        },
    }
}

/// Rewrite the versions in a `composer.json` text: the package's own
/// version (when `new_pkg_version` is given and the manifest states one)
/// and the constraints on the packages in `new_version_by_name`, keeping
/// the rest of the text. `fields` are where the values stand in `input`.
/// Returns the new text and the `(dependency, version)` updates that
/// changed a constraint.
pub fn rewrite_manifest_versions(
    manifest_path: &str,
    input: &str,
    fields: &ComposerJsonFields,
    new_pkg_version: Option<&str>,
    new_version_by_name: &[(String, String)],
) -> (r: Result<(String, Vec<(String, String)>), SampoError>)
    ensures
        composer_json_update(*fields, manifest_path@, input@, new_pkg_version, new_version_by_name@, r),
{
    let ghost target: Option<Seq<char>> = match new_pkg_version {
        Some(t) => Some(t@),
        None => None,
    };
    let ghost ups = pair_views(new_version_by_name@);
    let mut rs: Vec<(usize, usize, String)> = Vec::new();
    let mut applied: Vec<(String, String)> = Vec::new();
    match (new_pkg_version, &fields.version) {
        (Some(t), Some(v)) => {
            match &v.text {
                Err(e) => {
                    let head = join3("Version field in ", manifest_path, " is not a string: ");
                    proof {
                        assert(ups.take(0) =~= seq![]);
                        lemma_composer_keeps_error(*fields, manifest_path@, target, ups, 0);
                    }
                    return Err(SampoError::Release(join2(head.as_str(), e.as_str())));
                },
                Ok(cur) => {
                    if !chars_eq(&chars_of(cur.as_str()), &chars_of(t)) {
                        let x = rewrite_of(v, t);
                        push_rewrite(&mut rs, x);
                    }
                },
            }
        },
        _ => {},
    }
    assert(rewrite_views(rs@) =~= composer_version_rewrites(*fields, manifest_path@, target)->Ok_0);
    assert(pair_views(applied@) =~= seq![]);
    assert(ups.take(0) =~= seq![]);
    let mut i: usize = 0;
    while i < new_version_by_name.len()
        invariant
            i <= new_version_by_name.len(),
            ups == pair_views(new_version_by_name@),
            target == match new_pkg_version {
                Some(t) => Some(t@),
                None => None::<Seq<char>>,
            },
            composer_rewrites(*fields, manifest_path@, target, ups.take(i as int)) matches Ok((x, y))
                && rewrite_views(rs@) == x && pair_views(applied@) == y,
        decreases new_version_by_name.len() - i,
    {
        let dep = new_version_by_name[i].0.as_str();
        let nv = new_version_by_name[i].1.as_str();
        assert(ups[i as int] == (dep@, nv@));
        assert(ups.take(i + 1).drop_last() =~= ups.take(i as int));
        assert(ups.take(i + 1).last() == ups[i as int]);
        match plan_requirement(fields, manifest_path, dep, nv, &mut rs) {
            Err(e) => {
                proof {
                    lemma_composer_keeps_error(*fields, manifest_path@, target, ups, i + 1);
                }
                return Err(e);
            },
            Ok(changed) => {
                if changed {
                    let ghost before = applied@;
                    let pair = (owned(dep), owned(nv));
                    applied.push(pair);
                    assert(applied@ =~= before.push(pair));
                    assert(pair_views(applied@) =~= pair_views(before).push((dep@, nv@)));
                }
            },
        }
        i += 1;
    }
    assert(ups.take(new_version_by_name.len() as int) =~= ups);
    Ok((apply_rewrites(input, &rs), applied))
}

} // verus!
