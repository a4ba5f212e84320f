//! The ecosystem adapters: where each keeps its manifest, how a workspace of
//! it is recognised, and how its registry is asked whether a version exists.
use crate::errors::SampoError;
use crate::maven::{coordinates, pom_url, registry_url as maven_registry_url, split_coordinates};
use crate::paths::{join_path, joined};
use crate::pypi::{normalize_package_name as pypi_name, registry_name};
use crate::registry::{
    body_part, common_outcome, common_reply, format_body_part, prefix_of, retry_part,
    RegistryReply,
};
use crate::text::{chars_eq, chars_of, join2, join3, owned, string_of, trim, trim_chars};
use crate::parse::{parse_toml, toml_document};
use crate::tree::{entry, field, field_of, list_of, text_of, Value};
use crate::types::PackageKind;
use vstd::prelude::*;
use vstd::string::StringExecFns;

verus! {

/// Whether a parsed `pyproject.toml` names an index to publish to: an
/// entry of `[[tool.uv.index]]` with a `publish-url`.
pub open spec fn uv_publish_index(doc: Value) -> bool {
    match list_of(field_of(field_of(field(doc, "tool"@), "uv"@), "index"@)) {
        Some(items) => exists|i: int| 0 <= i < items.len() && text_of(field(#[trigger] items[i], "publish-url"@)) is Some,
        None => false,
    }
}

fn has_uv_publish_index(doc: &Value) -> (r: bool)
    ensures
        r == uv_publish_index(*doc),
{
    let tool = doc.get("tool");
    let uv = match tool {
        Some(t) => t.get("uv"),
        None => None,
    };
    let index = match uv {
        Some(u) => u.get("index"),
        None => None,
    };
    let items = match index {
        Some(i) => i.as_list(),
        None => None,
    };
    match items {
        None => false,
        Some(items) => {
            let mut i: usize = 0;
            while i < items.len()
                invariant
                    i <= items.len(),
                    list_of(field_of(field_of(field(*doc, "tool"@), "uv"@), "index"@)) == Some(items@),
                    forall|j: int| 0 <= j < i ==> text_of(field(#[trigger] items@[j], "publish-url"@)) is None,
                decreases items.len() - i,
            {
                let url = match items[i].get("publish-url") {
                    Some(u) => u.as_str(),
                    None => None,
                };
                if url.is_some() {
                    return true;
                }
                i += 1;
            }
            false
        },
    }
}

/// Whether the text of a `pyproject.toml` names a private uv publish index
/// (see `uv_publish_index`); a text that is no TOML document names none.
pub fn defers_to_uv_index(manifest_text: &str) -> (r: bool)
    ensures
        r == match toml_document(manifest_text@) {
            Ok(doc) => uv_publish_index(doc),
            Err(_) => false,
        },
{
    match parse_toml(manifest_text) {
        Ok(doc) => has_uv_publish_index(&doc),
        Err(_) => false,
    }
}

/// Whether the existence check is left to the publishing tool: a private
/// target for a Python package with a valid name, or for a Maven package
/// with a name (Maven's coordinates are not looked at then).
pub open spec fn defers_to_target(a: PackageAdapter, package_name: Seq<char>, private_target: bool) -> bool {
    private_target && match a {
        PackageAdapter::PyPI => name_problem(a, package_name) is None,
        PackageAdapter::Maven => trim(package_name).len() > 0,
        _ => false,
    }
}

/// Package ecosystem adapter.
#[derive(Debug, Clone, Copy, PartialEq, Eq)]
pub enum PackageAdapter {
    Cargo,
    Npm,
    Hex,
    PyPI,
    Packagist,
    Maven,
}

/// Every adapter, in the order workspace discovery tries them.
pub open spec fn adapter_order() -> Seq<PackageAdapter> {
    seq![
        PackageAdapter::Cargo,
        PackageAdapter::Npm,
        PackageAdapter::Hex,
        PackageAdapter::PyPI,
    ]
}

/// The adapter of an ecosystem.
pub open spec fn adapter_for(kind: PackageKind) -> PackageAdapter {
    match kind {
        PackageKind::Cargo => PackageAdapter::Cargo,
        PackageKind::Npm => PackageAdapter::Npm,
        PackageKind::Hex => PackageAdapter::Hex,
        PackageKind::PyPI => PackageAdapter::PyPI,
        PackageKind::Packagist => PackageAdapter::Packagist,
        PackageKind::Maven => PackageAdapter::Maven,
    }
}

/// The ecosystem an adapter serves.
pub open spec fn kind_of(a: PackageAdapter) -> PackageKind {
    match a {
        PackageAdapter::Cargo => PackageKind::Cargo,
        PackageAdapter::Npm => PackageKind::Npm,
        PackageAdapter::Hex => PackageKind::Hex,
        PackageAdapter::PyPI => PackageKind::PyPI,
        PackageAdapter::Packagist => PackageKind::Packagist,
        PackageAdapter::Maven => PackageKind::Maven,
    }
}

/// The manifest file of a package.
pub open spec fn manifest_name(a: PackageAdapter) -> Seq<char> {
    match a {
        PackageAdapter::Cargo => "Cargo.toml"@,
        PackageAdapter::Npm => "package.json"@,
        PackageAdapter::Hex => "mix.exs"@,
        PackageAdapter::PyPI => "pyproject.toml"@,
        PackageAdapter::Packagist => "composer.json"@,
        PackageAdapter::Maven => "pom.xml"@,
    }
}

/// The files whose presence at a root marks a workspace of this ecosystem.
pub open spec fn root_markers(a: PackageAdapter) -> Seq<Seq<char>> {
    match a {
        PackageAdapter::Cargo => seq!["Cargo.toml"@],
        PackageAdapter::Npm => seq!["package.json"@, "pnpm-workspace.yaml"@],
        PackageAdapter::Hex => seq!["mix.exs"@, "gleam.toml"@, "rebar.config"@],
        PackageAdapter::PyPI => seq!["pyproject.toml"@],
        PackageAdapter::Packagist => seq!["composer.json"@],
        PackageAdapter::Maven => seq!["pom.xml"@],
    }
}

/// The message refusing an empty package name, for the registries that check it.
pub open spec fn empty_name_message(a: PackageAdapter) -> Option<Seq<char>> {
    match a {
        PackageAdapter::Hex => Some("Package name cannot be empty when checking Hex registry"@),
        PackageAdapter::PyPI => Some("Package name cannot be empty when checking PyPI registry"@),
        PackageAdapter::Packagist => Some(
            "Package name cannot be empty when checking Packagist registry"@,
        ),
        PackageAdapter::Maven => Some(
            "Package name cannot be empty when checking the Maven registry"@,
        ),
        _ => None,
    }
}

/// Why a package name cannot be looked up, if it cannot.
pub open spec fn name_problem(a: PackageAdapter, package_name: Seq<char>) -> Option<Seq<char>> {
    let name = trim(package_name);
    if empty_name_message(a) is Some && name.len() == 0 {
        empty_name_message(a)
    } else if a == PackageAdapter::Maven && coordinates(name) is None {
        Some("Invalid Maven package name '"@ + name + "': expected 'groupId/artifactId'"@)
    } else {
        None
    }
}

/// The URL to query for `version` of `package_name` (npm's depends on the
/// registry its manifest configures, so none is given for it).
pub open spec fn query_url(a: PackageAdapter, package_name: Seq<char>, version: Seq<char>) -> Option<
    Seq<char>,
> {
    let name = trim(package_name);
    match a {
        PackageAdapter::Cargo => Some(
            "https://crates.io/api/v1/crates/"@ + package_name + "/"@ + version,
        ),
        PackageAdapter::Hex => Some(
            "https://hex.pm/api/packages/"@ + name + "/releases/"@ + version,
        ),
        PackageAdapter::PyPI => Some("https://pypi.org/pypi/"@ + registry_name(name) + "/json"@),
        PackageAdapter::Packagist => Some("https://packagist.org/packages/"@ + name + ".json"@),
        PackageAdapter::Maven => match coordinates(name) {
            Some((group, artifact)) => Some(pom_url(group, artifact, version)),
            None => None,
        },
        PackageAdapter::Npm => None,
    }
}

/// What the registry's reply says: whether the version exists, or the message of the error.
pub open spec fn version_outcome(
    a: PackageAdapter,
    package_name: Seq<char>,
    version: Seq<char>,
    reply: RegistryReply,
) -> Result<bool, Seq<char>> {
    let name = trim(package_name);
    match name_problem(a, package_name) {
        Some(m) => Err(m),
        None => match a {
            PackageAdapter::Cargo => if reply.status == 200 {
                Ok(true)
            } else if reply.status == 404 {
                Ok(false)
            } else {
                Err("Crates.io "@ + reply.status_text@ + " response:"@ + body_part(reply.body@, 500))
            },
            PackageAdapter::Hex => if reply.status == 200 {
                Ok(true)
            } else {
                common_reply("Hex registry"@, true, name, version, reply)
            },
            PackageAdapter::Maven => if reply.status == 200 {
                Ok(true)
            } else {
                common_reply("Maven registry"@, false, name, version, reply)
            },
            PackageAdapter::PyPI => if reply.status == 200 {
                match reply.json {
                    Err(e) => Err("invalid JSON from PyPI: "@ + e@),
                    Ok(j) => match field(j, "releases"@) {
                        Some(Value::Table(es)) => Ok(entry(es@, version) is Some),
                        _ => Err("PyPI response for '"@ + name + "' is missing a 'releases' object"@),
                    },
                }
            } else {
                common_reply("PyPI registry"@, true, name, version, reply)
            },
            PackageAdapter::Packagist => if reply.status == 200 {
                match reply.json {
                    Err(e) => Err("invalid JSON from Packagist: "@ + e@),
                    Ok(j) => match field_of(field(j, "package"@), "versions"@) {
                        Some(Value::Table(es)) => Ok(
                            entry(es@, version) is Some || entry(es@, "v"@ + version) is Some,
                        ),
                        _ => Err(
                            "Packagist response for '"@ + name
                                + "' is missing package.versions object"@,
                        ),
                    },
                }
            } else {
                common_reply("Packagist registry"@, false, name, version, reply)
            },
            PackageAdapter::Npm => if reply.status == 200 {
                match reply.json {
                    Err(e) => Err("invalid JSON from "@ + reply.url@ + ": "@ + e@),
                    Ok(j) => match field(j, "versions"@) {
                        Some(Value::Table(es)) => Ok(entry(es@, version) is Some),
                        _ => Err(
                            "registry response for "@ + package_name
                                + " is missing a 'versions' object"@,
                        ),
                    },
                }
            } else if reply.status == 404 {
                Ok(false)
            } else if reply.status == 429 {
                Err("Registry "@ + reply.url@ + " returned 429 Too Many Requests"@ + retry_part(
                    reply.retry_after,
                ))
            } else {
                Err("Registry "@ + reply.url@ + " returned "@ + reply.status_text@ + ": "@
                    + prefix_of(trim(reply.body@), 400))
            },
        },
    }
}

fn table_has(v: Option<&Value>, key: &str) -> (r: Option<bool>)
    ensures
        match v {
            Some(Value::Table(es)) => r == Some(entry(es@, key@) is Some),
            _ => r is None,
        },
{
    match v {
        Some(t) => match t {
            Value::Table(_) => Some(t.get(key).is_some()),
            _ => None,
        },
        None => None,
    }
}

impl PackageAdapter {
    /// The registered adapters, in the order workspace discovery tries them;
    /// the Packagist and Maven adapters are not among them.
    pub fn all() -> (r: Vec<PackageAdapter>)
        ensures
            r@ == adapter_order(),
    {
        let r = vec![
            PackageAdapter::Cargo,
            PackageAdapter::Npm,
            PackageAdapter::Hex,
            PackageAdapter::PyPI,
        ];
        assert(r@ =~= adapter_order());
        r
    }

    /// The adapter of an ecosystem.
    pub fn from_kind(kind: PackageKind) -> (r: Self)
        ensures
            r == adapter_for(kind),
    {
        match kind {
            PackageKind::Cargo => PackageAdapter::Cargo,
            PackageKind::Npm => PackageAdapter::Npm,
            PackageKind::Hex => PackageAdapter::Hex,
            PackageKind::PyPI => PackageAdapter::PyPI,
            PackageKind::Packagist => PackageAdapter::Packagist,
            PackageKind::Maven => PackageAdapter::Maven,
        }
    }

    /// The ecosystem this adapter serves.
    pub fn kind(&self) -> (r: PackageKind)
        ensures
            r == kind_of(*self),
    {
        match self {
            PackageAdapter::Cargo => PackageKind::Cargo,
            PackageAdapter::Npm => PackageKind::Npm,
            PackageAdapter::Hex => PackageKind::Hex,
            PackageAdapter::PyPI => PackageKind::PyPI,
            PackageAdapter::Packagist => PackageKind::Packagist,
            PackageAdapter::Maven => PackageKind::Maven,
        }
    }

    /// The manifest file name of a package.
    pub fn manifest_file(&self) -> (r: &'static str)
        ensures
            r@ == manifest_name(*self),
    {
        match self {
            PackageAdapter::Cargo => "Cargo.toml",
            PackageAdapter::Npm => "package.json",
            PackageAdapter::Hex => "mix.exs",
            PackageAdapter::PyPI => "pyproject.toml",
            PackageAdapter::Packagist => "composer.json",
            PackageAdapter::Maven => "pom.xml",
        }
    }

    /// The path of the manifest of the package in `package_dir`.
    pub fn manifest_path(&self, package_dir: &str) -> (r: String)
        ensures
            r@ == joined(package_dir@, manifest_name(*self)),
    {
        join_path(package_dir, self.manifest_file())
    }

    /// Whether a root holding the files named in `root_entries` is a workspace
    /// of this ecosystem.
    pub fn can_discover(&self, root_entries: &[String]) -> (r: bool)
        ensures
            r == exists|i: int|
                0 <= i < root_entries@.len() && root_markers(*self).contains(
                    #[trigger] root_entries@[i]@,
                ),
    {
        let markers: Vec<&str> = match self {
            PackageAdapter::Cargo => vec!["Cargo.toml"],
            PackageAdapter::Npm => vec!["package.json", "pnpm-workspace.yaml"],
            PackageAdapter::Hex => vec!["mix.exs", "gleam.toml", "rebar.config"],
            PackageAdapter::PyPI => vec!["pyproject.toml"],
            PackageAdapter::Packagist => vec!["composer.json"],
            PackageAdapter::Maven => vec!["pom.xml"],
        };
        let ghost m = root_markers(*self);
        assert(markers@.len() == m.len());
        assert(forall|k: int| 0 <= k < m.len() ==> #[trigger] markers@[k]@ == m[k]);
        let mut i: usize = 0;
        while i < root_entries.len()
            invariant
                i <= root_entries.len(),
                m == root_markers(*self),
                markers@.len() == m.len(),
                forall|k: int| 0 <= k < m.len() ==> #[trigger] markers@[k]@ == m[k],
                forall|j: int| 0 <= j < i ==> !m.contains(#[trigger] root_entries@[j]@),
            decreases root_entries.len() - i,
        {
            let e = chars_of(root_entries[i].as_str());
            let mut k: usize = 0;
            while k < markers.len()
                invariant
                    k <= markers.len(),
                    i < root_entries.len(),
                    m == root_markers(*self),
                    e@ == root_entries@[i as int]@,
                    markers@.len() == m.len(),
                    forall|q: int| 0 <= q < m.len() ==> #[trigger] markers@[q]@ == m[q],
                    forall|q: int| 0 <= q < k ==> m[q] != e@,
                decreases markers.len() - k,
            {
                if chars_eq(&e, &chars_of(markers[k])) {
                    assert(m[k as int] == e@);
                    assert(m.contains(root_entries@[i as int]@));
                    return true;
                }
                k += 1;
            }
            i += 1;
        }
        false
    }

    /// The URL at which the registry answers for `version` of `package_name`
    /// (`None` for npm, whose registry its manifest may configure).
    pub fn registry_url(&self, package_name: &str, version: &str) -> (r: Result<
        Option<String>,
        SampoError,
    >)
        ensures
            match name_problem(*self, package_name@) {
                Some(m) => r matches Err(SampoError::Publish(e)) && e@ == m,
                None => r matches Ok(u) && match (u, query_url(*self, package_name@, version@)) {
                    (Some(x), Some(y)) => x@ == y,
                    (None, None) => true,
                    _ => false,
                },
            },
    {
        if let Some(e) = self.check_name(package_name) {
            return Err(e);
        }
        let name = string_of(&trim_chars(&chars_of(package_name)));
        match self {
            PackageAdapter::Cargo => {
                let mut u = join3("https://crates.io/api/v1/crates/", package_name, "/");
                u.append(version);
                Ok(Some(u))
            },
            PackageAdapter::Hex => {
                let mut u = join3("https://hex.pm/api/packages/", name.as_str(), "/releases/");
                u.append(version);
                Ok(Some(u))
            },
            PackageAdapter::PyPI => {
                let n = pypi_name(name.as_str());
                Ok(Some(join3("https://pypi.org/pypi/", n.as_str(), "/json")))
            },
            PackageAdapter::Packagist => Ok(
                Some(join3("https://packagist.org/packages/", name.as_str(), ".json")),
            ),
            PackageAdapter::Maven => {
                match split_coordinates(name.as_str()) {
                    Ok((g, a)) => Ok(Some(maven_registry_url(g.as_str(), a.as_str(), version))),
                    Err(e) => Err(e),
                }
            },
            PackageAdapter::Npm => Ok(None),
        }
    }

    fn check_name(&self, package_name: &str) -> (r: Option<SampoError>)
        ensures
            match name_problem(*self, package_name@) {
                Some(m) => r matches Some(SampoError::Publish(e)) && e@ == m,
                None => r is None,
            },
    {
        let name = trim_chars(&chars_of(package_name));
        let checks = match self {
            PackageAdapter::Cargo | PackageAdapter::Npm => false,
            _ => true,
        };
        if checks && name.len() == 0 {
            let m = match self {
                PackageAdapter::Hex => "Package name cannot be empty when checking Hex registry",
                PackageAdapter::PyPI => "Package name cannot be empty when checking PyPI registry",
                PackageAdapter::Packagist => "Package name cannot be empty when checking Packagist registry",
                _ => "Package name cannot be empty when checking the Maven registry",
            };
            return Some(SampoError::Publish(owned(m)));
        }
        match self {
            PackageAdapter::Maven => match split_coordinates(string_of(&name).as_str()) {
                Ok(_) => None,
                Err(e) => Some(e),
            },
            _ => None,
        }
    }

    /// Whether `version` of `package_name` exists, as the registry's reply
    /// says. A package whose manifest sends it to a private target
    /// (`private_target`: a uv publish index for Python, a release repository
    /// other than Maven Central for Maven) is left to the tool that
    /// publishes it: the answer is then `false`, whatever the reply.
    pub fn version_exists(&self, package_name: &str, version: &str, private_target: bool, reply: &RegistryReply) -> (r:
        Result<bool, SampoError>)
        ensures
            defers_to_target(*self, package_name@, private_target) ==> r == Ok::<bool, SampoError>(false),
            !defers_to_target(*self, package_name@, private_target) ==> match version_outcome(*self, package_name@, version@, *reply) {
                Ok(b) => r matches Ok(x) && x == b,
                Err(m) => r matches Err(SampoError::Publish(e)) && e@ == m,
            },
    {
        if private_target {
            match self {
                PackageAdapter::Maven => if trim_chars(&chars_of(package_name)).len() > 0 {
                    return Ok(false);
                },
                _ => {},
            }
        }
        if let Some(e) = self.check_name(package_name) {
            return Err(e);
        }
        match self {
            PackageAdapter::PyPI => if private_target {
                return Ok(false);
            },
            _ => {},
        }
        let name = string_of(&trim_chars(&chars_of(package_name)));
        let outcome: Result<bool, String> = match self {
            PackageAdapter::Cargo => if reply.status == 200 {
                Ok(true)
            } else if reply.status == 404 {
                Ok(false)
            } else {
                let mut m = join3("Crates.io ", reply.status_text.as_str(), " response:");
                let bp = format_body_part(reply.body.as_str(), 500);
                m.append(bp.as_str());
                Err(m)
            },
            PackageAdapter::Hex => if reply.status == 200 {
                Ok(true)
            } else {
                common_outcome("Hex registry", true, name.as_str(), version, reply)
            },
            PackageAdapter::Maven => if reply.status == 200 {
                Ok(true)
            } else {
                common_outcome("Maven registry", false, name.as_str(), version, reply)
            },
            PackageAdapter::PyPI => if reply.status == 200 {
                match &reply.json {
                    Err(e) => Err(join2("invalid JSON from PyPI: ", e.as_str())),
                    Ok(j) => match table_has(j.get("releases"), version) {
                        Some(b) => Ok(b),
                        None => Err(
                            join3(
                                "PyPI response for '",
                                name.as_str(),
                                "' is missing a 'releases' object",
                            ),
                        ),
                    },
                }
            } else {
                common_outcome("PyPI registry", true, name.as_str(), version, reply)
            },
            PackageAdapter::Packagist => if reply.status == 200 {
                match &reply.json {
                    Err(e) => Err(join2("invalid JSON from Packagist: ", e.as_str())),
                    Ok(j) => {
                        let versions = match j.get("package") {
                            Some(p) => p.get("versions"),
                            None => None,
                        };
                        let prefixed = join2("v", version);
                        match (table_has(versions, version), table_has(versions, prefixed.as_str())) {
                            (Some(a), Some(b)) => Ok(a || b),
                            _ => Err(
                                join3(
                                    "Packagist response for '",
                                    name.as_str(),
                                    "' is missing package.versions object",
                                ),
                            ),
                        }
                    },
                }
            } else {
                common_outcome("Packagist registry", false, name.as_str(), version, reply)
            },
            PackageAdapter::Npm => if reply.status == 200 {
                match &reply.json {
                    Err(e) => {
                        let mut m = join3("invalid JSON from ", reply.url.as_str(), ": ");
                        m.append(e.as_str());
                        Err(m)
                    },
                    Ok(j) => match table_has(j.get("versions"), version) {
                        Some(b) => Ok(b),
                        None => Err(
                            join3(
                                "registry response for ",
                                package_name,
                                " is missing a 'versions' object",
                            ),
                        ),
                    },
                }
            } else if reply.status == 404 {
                Ok(false)
            } else if reply.status == 429 {
                let mut m = join3("Registry ", reply.url.as_str(), " returned 429 Too Many Requests");
                match &reply.retry_after {
                    Some(v) => {
                        m.append(" Retry-After: ");
                        m.append(v.as_str());
                    },
                    None => {},
                }
                Err(m)
            } else {
                let mut m = join3("Registry ", reply.url.as_str(), " returned ");
                m.append(reply.status_text.as_str());
                m.append(": ");
                let t = trim_chars(&chars_of(reply.body.as_str()));
                let head = if t.len() > 400 {
                    let h = crate::text::slice(&t, 0, 400);
                    assert(h@ =~= t@.take(400));
                    h
                } else {
                    t
                };
                let hs = string_of(&head);
                m.append(hs.as_str());
                Err(m)
            },
        };
        match outcome {
            Ok(b) => Ok(b),
            Err(m) => Err(SampoError::Publish(m)),
        }
    }
}

} // verus!
