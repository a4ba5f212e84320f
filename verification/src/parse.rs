//! Manifest and configuration text read as documents, by the TOML, JSON and
//! YAML parsers the formats call for.
use serde_json::Value as JsonValue;
use serde_yaml::Value as YamlValue;
use toml::Value as TomlValue;
use crate::errors::WorkspaceError;
use crate::text::join3;
use vstd::prelude::*;

verus! {

#[verifier::external_type_specification]
#[verifier::external_body]
pub struct ExTomlValue(TomlValue);

#[verifier::external_type_specification]
#[verifier::external_body]
pub struct ExJsonValue(JsonValue);

#[verifier::external_type_specification]
#[verifier::external_body]
pub struct ExYamlValue(YamlValue);

/// The document `toml` reads from a text, or the message of its error.
pub uninterp spec fn toml_document(text: Seq<char>) -> Result<crate::tree::Value, Seq<char>>;

/// The document `serde_json` reads from a text, or the message of its error.
pub uninterp spec fn json_document(text: Seq<char>) -> Result<crate::tree::Value, Seq<char>>;

/// The document `serde_yaml` reads from a text, or the message of its error.
pub uninterp spec fn yaml_document(text: Seq<char>) -> Result<crate::tree::Value, Seq<char>>;

/// A `toml::Value` as a `Value`, variant for variant; floats and date-times
/// keep the text they display.
#[verifier::external_body]
fn tree_of_toml(v: &TomlValue) -> crate::tree::Value {
    match v {
        TomlValue::String(s) => crate::tree::Value::Str(s.clone()),
        TomlValue::Integer(i) => crate::tree::Value::Int(*i),
        TomlValue::Boolean(b) => crate::tree::Value::Bool(*b),
        TomlValue::Float(f) => crate::tree::Value::Other(f.to_string()),
        TomlValue::Datetime(d) => crate::tree::Value::Other(d.to_string()),
        TomlValue::Array(items) => crate::tree::Value::List(items.iter().map(tree_of_toml).collect()),
        TomlValue::Table(t) => crate::tree::Value::Table(t.iter().map(|(k, v)| (k.clone(), tree_of_toml(v))).collect()),
    }
}

/// A `serde_json::Value` as a `Value`, variant for variant; numbers that are
/// no `i64`, and `null`, keep the text they display.
#[verifier::external_body]
fn tree_of_json(v: &JsonValue) -> crate::tree::Value {
    match v {
        JsonValue::Null => crate::tree::Value::Other("null".to_string()),
        JsonValue::Bool(b) => crate::tree::Value::Bool(*b),
        JsonValue::Number(n) => n.as_i64().map_or_else(|| crate::tree::Value::Other(n.to_string()), crate::tree::Value::Int),
        JsonValue::String(s) => crate::tree::Value::Str(s.clone()),
        JsonValue::Array(items) => crate::tree::Value::List(items.iter().map(tree_of_json).collect()),
        JsonValue::Object(m) => crate::tree::Value::Table(m.iter().map(|(k, v)| (k.clone(), tree_of_json(v))).collect()),
    }
}

/// A `serde_yaml::Value` as a `Value`, variant for variant; a mapping key
/// that is no string keeps its YAML text, a tag is dropped.
#[verifier::external_body]
fn tree_of_yaml(v: &YamlValue) -> crate::tree::Value {
    match v {
        YamlValue::Null => crate::tree::Value::Other("null".to_string()),
        YamlValue::Bool(b) => crate::tree::Value::Bool(*b),
        YamlValue::Number(n) => n.as_i64().map_or_else(|| crate::tree::Value::Other(n.to_string()), crate::tree::Value::Int),
        YamlValue::String(s) => crate::tree::Value::Str(s.clone()),
        YamlValue::Sequence(items) => crate::tree::Value::List(items.iter().map(tree_of_yaml).collect()),
        YamlValue::Mapping(m) => crate::tree::Value::Table(m.iter().map(|(k, v)| (yaml_key(k), tree_of_yaml(v))).collect()),
        YamlValue::Tagged(t) => tree_of_yaml(&t.value),
    }
}

/// A YAML mapping key as text: a string as it is, any other key as the
/// YAML `serde_yaml` writes for it.
#[verifier::external_body]
fn yaml_key(k: &YamlValue) -> String {
    match k {
        YamlValue::String(s) => s.clone(),
        other => serde_yaml::to_string(other).unwrap_or_default().trim().to_string(),
    }
}

/// Reads a TOML document with `str::parse::<toml::Table>`: the document, or
/// the parser's error message.
#[verifier::external_body]
pub fn parse_toml(text: &str) -> (r: Result<crate::tree::Value, String>)
    ensures
        match toml_document(text@) {
            Ok(v) => r matches Ok(x) && x == v,
            Err(e) => r matches Err(m) && m@ == e,
        },
{
    match text.parse::<toml::Table>() {
        Ok(t) => Ok(tree_of_toml(&TomlValue::Table(t))),
        Err(e) => Err(e.to_string()),
    }
}

/// Reads a JSON document with `serde_json::from_str`: the document, or the
/// parser's error message.
#[verifier::external_body]
pub fn parse_json(text: &str) -> (r: Result<crate::tree::Value, String>)
    ensures
        match json_document(text@) {
            Ok(v) => r matches Ok(x) && x == v,
            Err(e) => r matches Err(m) && m@ == e,
        },
{
    match serde_json::from_str::<JsonValue>(text) {
        Ok(v) => Ok(tree_of_json(&v)),
        Err(e) => Err(e.to_string()),
    }
}

/// Reads a YAML document with `serde_yaml::from_str`: the document, or the
/// parser's error message.
#[verifier::external_body]
pub fn parse_yaml(text: &str) -> (r: Result<crate::tree::Value, String>)
    ensures
        match yaml_document(text@) {
            Ok(v) => r matches Ok(x) && x == v,
            Err(e) => r matches Err(m) && m@ == e,
        },
{
    match serde_yaml::from_str::<YamlValue>(text) {
        Ok(v) => Ok(tree_of_yaml(&v)),
        Err(e) => Err(e.to_string()),
    }
}

/// The language a manifest is written in.
#[derive(Debug, Clone, Copy, PartialEq, Eq)]
pub enum Format {
    Toml,
    Json,
    Yaml,
}

/// The document a text in `format` holds, or the parser's message.
pub open spec fn document(format: Format, text: Seq<char>) -> Result<crate::tree::Value, Seq<char>> {
    match format {
        Format::Toml => toml_document(text),
        Format::Json => json_document(text),
        Format::Yaml => yaml_document(text),
    }
}

/// The document of the manifest at `path`, whose text is `text`; one that
/// does not parse is an invalid manifest, named by its path.
pub fn read_document(format: Format, path: &str, text: &str) -> (r: Result<crate::tree::Value, WorkspaceError>)
    ensures
        match document(format, text@) {
            Ok(v) => r matches Ok(x) && x == v,
            Err(e) => r matches Err(WorkspaceError::InvalidManifest(m)) && m@ == path@ + ": "@ + e,
        },
{
    let parsed = match format {
        Format::Toml => parse_toml(text),
        Format::Json => parse_json(text),
        Format::Yaml => parse_yaml(text),
    };
    match parsed {
        Ok(v) => Ok(v),
        Err(e) => Err(WorkspaceError::InvalidManifest(join3(path, ": ", e.as_str()))),
    }
}

/// The first member, among the first `n`, whose manifest does not parse,
/// with the parser's message.
pub open spec fn first_unparsed(format: Format, members: Seq<(String, String, String)>, n: int) -> Option<(int, Seq<char>)>
    decreases n,
{
    if n <= 0 {
        None
    } else {
        match first_unparsed(format, members, n - 1) {
            Some(found) => Some(found),
            None => match document(format, members[n - 1].2@) {
                Err(e) => Some((n - 1, e)),
                Ok(_) => None,
            },
        }
    }
}

/// The members `(directory, manifest path, manifest text)` with their
/// manifests read as documents, in order; the first that does not parse
/// makes the whole an invalid manifest.
pub fn read_documents(format: Format, members: &[(String, String, String)]) -> (r: Result<
    Vec<(String, String, crate::tree::Value)>,
    WorkspaceError,
>)
    ensures
        match first_unparsed(format, members@, members.len() as int) {
            Some((i, e)) => r matches Err(WorkspaceError::InvalidManifest(m)) && m@ == members@[i].1@ + ": "@ + e,
            None => r matches Ok(docs) && docs.len() == members.len() && forall|i: int|
                0 <= i < members.len() ==> (#[trigger] docs@[i]).0 == members@[i].0 && docs@[i].1 == members@[i].1
                    && Ok::<crate::tree::Value, Seq<char>>(docs@[i].2) == document(format, members@[i].2@),
        },
{
    let mut docs: Vec<(String, String, crate::tree::Value)> = Vec::new();
    let mut i: usize = 0;
    while i < members.len()
        invariant
            i <= members.len(),
            first_unparsed(format, members@, i as int) is None,
            docs.len() == i,
            forall|j: int|
                0 <= j < i ==> (#[trigger] docs@[j]).0 == members@[j].0 && docs@[j].1 == members@[j].1
                    && Ok::<crate::tree::Value, Seq<char>>(docs@[j].2) == document(format, members@[j].2@),
        decreases members.len() - i,
    {
        let doc = read_document(format, members[i].1.as_str(), members[i].2.as_str());
        match doc {
            Ok(v) => {
                docs.push((members[i].0.clone(), members[i].1.clone(), v));
            },
            Err(e) => {
                proof {
                    assert(first_unparsed(format, members@, i + 1) == Some((i as int, document(format, members@[i as int].2@)->Err_0)));
                    lemma_first_unparsed_stays(format, members@, i + 1, members.len() as int);
                }
                return Err(e);
            },
        }
        i += 1;
    }
    Ok(docs)
}

proof fn lemma_first_unparsed_stays(format: Format, members: Seq<(String, String, String)>, k: int, n: int)
    requires
        0 <= k <= n,
        first_unparsed(format, members, k) is Some,
    ensures
        first_unparsed(format, members, n) == first_unparsed(format, members, k),
    decreases n - k,
{
    if k < n {
        lemma_first_unparsed_stays(format, members, k, n - 1);
    }
}

} // verus!
