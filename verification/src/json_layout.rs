//! Where the values a version update reads stand in a `package.json` or a
//! `composer.json`: the members `serde_json` finds, with the byte ranges of
//! their values, turned into character positions.
use crate::composer::ComposerJsonFields;
use crate::npm::{JsonSpan, PackageJsonFields};
use crate::offsets::{char_range, char_range_of, chars_between};
use crate::text::{chars_eq, chars_of, owned};
use serde_json::value::RawValue;
use std::collections::BTreeMap;
use vstd::prelude::*;

verus! {

/// The members `serde_json` reads from the text of an object, in key
/// order, each with the byte offset of its value in the text and the
/// value's length in bytes; or the message of its error.
pub uninterp spec fn json_object_members(text: Seq<char>) -> Result<Seq<(Seq<char>, usize, usize)>, Seq<char>>;

/// As `json_object_members`, where the text may also be `null` (none).
pub uninterp spec fn json_optional_members(text: Seq<char>) -> Result<Option<Seq<(Seq<char>, usize, usize)>>, Seq<char>>;

/// The string `serde_json` reads from a text, or the message of its error.
pub uninterp spec fn json_string(text: Seq<char>) -> Result<Seq<char>, Seq<char>>;

pub open spec fn members_view(v: Seq<(String, usize, usize)>) -> Seq<(Seq<char>, usize, usize)> {
    v.map_values(|m: (String, usize, usize)| (m.0@, m.1, m.2))
}

/// Reads the members of a JSON object with `serde_json::from_str` into a
/// map of raw values borrowed from `text`: each key with the place of its
/// value, the value's address taken as an offset into `text`, and its
/// length.
#[verifier::external_body]
fn json_members(text: &str) -> (r: Result<Vec<(String, usize, usize)>, String>)
    ensures
        match json_object_members(text@) {
            Ok(ms) => r matches Ok(v) && members_view(v@) == ms,
            Err(e) => r matches Err(m) && m@ == e,
        },
{
    let map = serde_json::from_str::<BTreeMap<String, &RawValue>>(text).map_err(|e| e.to_string())?;
    Ok(map.into_iter().map(|(k, v)| (k, v.get().as_ptr() as usize - text.as_ptr() as usize, v.get().len())).collect())
}

/// As `json_members`, with `serde_json::from_str` reading an optional map,
/// for a text that may also be `null`.
#[verifier::external_body]
fn json_optional_object(text: &str) -> (r: Result<Option<Vec<(String, usize, usize)>>, String>)
    ensures
        match json_optional_members(text@) {
            Ok(Some(ms)) => r matches Ok(Some(v)) && members_view(v@) == ms,
            Ok(None) => r matches Ok(None),
            Err(e) => r matches Err(m) && m@ == e,
        },
{
    let map = serde_json::from_str::<Option<BTreeMap<String, &RawValue>>>(text).map_err(|e| e.to_string())?;
    Ok(map.map(|m| m.into_iter().map(|(k, v)| (k, v.get().as_ptr() as usize - text.as_ptr() as usize, v.get().len())).collect()))
}

/// Reads a JSON string with `serde_json::from_str`.
#[verifier::external_body]
fn json_string_of(text: &str) -> (r: Result<String, String>)
    ensures
        match json_string(text@) {
            Ok(s) => r matches Ok(x) && x@ == s,
            Err(e) => r matches Err(m) && m@ == e,
        },
{
    serde_json::from_str::<String>(text).map_err(|e| e.to_string())
}

/// A span as plain values.
pub type JsonSpanView = (int, int, Result<Seq<char>, Seq<char>>);

pub open spec fn result_chars(r: Result<String, String>) -> Result<Seq<char>, Seq<char>> {
    match r {
        Ok(s) => Ok(s@),
        Err(e) => Err(e@),
    }
}

pub open spec fn json_span_view(j: JsonSpan) -> JsonSpanView {
    (j.start as int, j.end as int, result_chars(j.text))
}

pub open spec fn entries_view(v: Seq<(String, JsonSpan)>) -> Seq<(Seq<char>, JsonSpanView)> {
    v.map_values(|e: (String, JsonSpan)| (e.0@, json_span_view(e.1)))
}

pub open spec fn opt_entries_view(o: Option<Vec<(String, JsonSpan)>>) -> Option<Seq<(Seq<char>, JsonSpanView)>> {
    match o {
        Some(v) => Some(entries_view(v@)),
        None => None,
    }
}

pub open spec fn opt_span_view(o: Option<JsonSpan>) -> Option<JsonSpanView> {
    match o {
        Some(j) => Some(json_span_view(j)),
        None => None,
    }
}

/// The message for a value whose byte range does not fall between
/// characters.
pub open spec fn boundary_message() -> Seq<char> {
    "a JSON value does not start and end between characters"@
}

/// The character range of the bytes `start .. end` of the UTF-8 encoding of
/// `text`, when both ends fall between characters (and within `usize`).
pub open spec fn range_chars(text: Seq<char>, start: int, end: int) -> Option<(int, int)> {
    if end > usize::MAX {
        None
    } else {
        char_range(text, start, end)
    }
}

/// The character range of a member's value in `text`.
pub open spec fn member_chars(text: Seq<char>, m: (Seq<char>, usize, usize)) -> Option<(int, int)> {
    range_chars(text, m.1 as int, m.1 + m.2)
}

/// The members with the spans of their values, `text` standing at position
/// `base` of the document.
pub open spec fn member_spans(text: Seq<char>, base: int, ms: Seq<(Seq<char>, usize, usize)>) -> Result<
    Seq<(Seq<char>, JsonSpanView)>,
    Seq<char>,
>
    decreases ms.len(),
{
    if ms.len() == 0 {
        Ok(seq![])
    } else {
        match member_spans(text, base, ms.drop_last()) {
            Err(e) => Err(e),
            Ok(rest) => match member_chars(text, ms.last()) {
                Some((x, y)) => Ok(rest.push((ms.last().0, (base + x, base + y, json_string(text.subrange(x, y)))))),
                None => Err(boundary_message()),
            },
        }
    }
}

/// The first member named `key`.
pub open spec fn member_named(ms: Seq<(Seq<char>, usize, usize)>, key: Seq<char>) -> Option<(Seq<char>, usize, usize)>
    decreases ms.len(),
{
    if ms.len() == 0 {
        None
    } else if ms[0].0 == key {
        Some(ms[0])
    } else {
        member_named(ms.drop_first(), key)
    }
}

/// The value of the member `key` of the document `src` (whose members are
/// `top`) as a span, unless it is `null`.
pub open spec fn value_of(src: Seq<char>, top: Seq<(Seq<char>, usize, usize)>, key: Seq<char>) -> Result<Option<JsonSpanView>, Seq<char>> {
    match member_named(top, key) {
        None => Ok(None),
        Some(m) => match member_chars(src, m) {
            None => Err(boundary_message()),
            Some((a, b)) => if src.subrange(a, b) == "null"@ {
                Ok(None)
            } else {
                Ok(Some((a, b, json_string(src.subrange(a, b)))))
            },
        },
    }
}

/// The members of the object `key` of the document `src`, with the spans
/// of their values; none when absent or `null`.
pub open spec fn object_of(src: Seq<char>, top: Seq<(Seq<char>, usize, usize)>, key: Seq<char>) -> Result<
    Option<Seq<(Seq<char>, JsonSpanView)>>,
    Seq<char>,
> {
    match member_named(top, key) {
        None => Ok(None),
        Some(m) => match member_chars(src, m) {
            None => Err(boundary_message()),
            Some((a, b)) => match json_optional_members(src.subrange(a, b)) {
                Err(e) => Err(e),
                Ok(None) => Ok(None),
                Ok(Some(ms)) => match member_spans(src.subrange(a, b), a, ms) {
                    Err(e) => Err(e),
                    Ok(v) => Ok(Some(v)),
                },
            },
        },
    }
}

/// The version and dependency objects of a `package.json`, as plain values.
pub type PackageJsonView = (
    Option<JsonSpanView>,
    Option<Seq<(Seq<char>, JsonSpanView)>>,
    Option<Seq<(Seq<char>, JsonSpanView)>>,
    Option<Seq<(Seq<char>, JsonSpanView)>>,
    Option<Seq<(Seq<char>, JsonSpanView)>>,
);

pub open spec fn package_json_view(f: PackageJsonFields) -> PackageJsonView {
    (
        opt_span_view(f.version),
        opt_entries_view(f.dependencies),
        opt_entries_view(f.dev_dependencies),
        opt_entries_view(f.peer_dependencies),
        opt_entries_view(f.optional_dependencies),
    )
}

/// Where the values a version update reads stand in the text `src` of a
/// `package.json`: `version` (unless `null`) and the members of
/// `dependencies`, `devDependencies`, `peerDependencies` and
/// `optionalDependencies`; or the first error, in that order.
pub open spec fn package_json_layout(src: Seq<char>) -> Result<PackageJsonView, Seq<char>> {
    match json_object_members(src) {
        Err(e) => Err(e),
        Ok(top) => match value_of(src, top, "version"@) {
            Err(e) => Err(e),
            Ok(v) => match object_of(src, top, "dependencies"@) {
                Err(e) => Err(e),
                Ok(d) => match object_of(src, top, "devDependencies"@) {
                    Err(e) => Err(e),
                    Ok(dd) => match object_of(src, top, "peerDependencies"@) {
                        Err(e) => Err(e),
                        Ok(p) => match object_of(src, top, "optionalDependencies"@) {
                            Err(e) => Err(e),
                            Ok(o) => Ok((v, d, dd, p, o)),
                        },
                    },
                },
            },
        },
    }
}

/// The version and requirement objects of a `composer.json`, as plain
/// values.
pub type ComposerJsonView = (
    Option<JsonSpanView>,
    Option<Seq<(Seq<char>, JsonSpanView)>>,
    Option<Seq<(Seq<char>, JsonSpanView)>>,
);

pub open spec fn composer_json_view(f: ComposerJsonFields) -> ComposerJsonView {
    (opt_span_view(f.version), opt_entries_view(f.require), opt_entries_view(f.require_dev))
}

/// Where the values a version update reads stand in the text `src` of a
/// `composer.json`: `version` (unless `null`) and the members of `require`
/// and `require-dev`; or the first error, in that order.
pub open spec fn composer_json_layout(src: Seq<char>) -> Result<ComposerJsonView, Seq<char>> {
    match json_object_members(src) {
        Err(e) => Err(e),
        Ok(top) => match value_of(src, top, "version"@) {
            Err(e) => Err(e),
            Ok(v) => match object_of(src, top, "require"@) {
                Err(e) => Err(e),
                Ok(r) => match object_of(src, top, "require-dev"@) {
                    Err(e) => Err(e),
                    Ok(rd) => Ok((v, r, rd)),
                },
            },
        },
    }
}

fn member_range(text: &Vec<char>, start: usize, len: usize) -> (r: Option<(usize, usize)>)
    ensures
        match r {
            Some((x, y)) => range_chars(text@, start as int, start + len) == Some((x as int, y as int)) && x <= y
                <= text.len(),
            None => range_chars(text@, start as int, start + len) is None,
        },
{
    if len > usize::MAX - start {
        return None;
    }
    char_range_of(text, start, start + len)
}

fn find_member<'a>(ms: &'a Vec<(String, usize, usize)>, key: &str) -> (r: Option<&'a (String, usize, usize)>)
    ensures
        match member_named(members_view(ms@), key@) {
            Some(m) => r matches Some(x) && (x.0@, x.1, x.2) == m,
            None => r is None,
        },
{
    let k = chars_of(key);
    let ghost mv = members_view(ms@);
    let mut i: usize = 0;
    assert(mv.skip(0) =~= mv);
    while i < ms.len()
        invariant
            i <= ms.len(),
            k@ == key@,
            mv == members_view(ms@),
            member_named(mv, key@) == member_named(mv.skip(i as int), key@),
        decreases ms.len() - i,
    {
        assert(mv.skip(i as int)[0] == mv[i as int]);
        assert(mv.skip(i as int).drop_first() =~= mv.skip(i + 1));
        if chars_eq(&chars_of(ms[i].0.as_str()), &k) {
            return Some(&ms[i]);
        }
        i += 1;
    }
    None
}

fn spans_of_members(text: &Vec<char>, base: usize, ms: &Vec<(String, usize, usize)>) -> (r: Result<
    Vec<(String, JsonSpan)>,
    String,
>)
    requires
        base + text.len() <= usize::MAX,
    ensures
        match member_spans(text@, base as int, members_view(ms@)) {
            Ok(v) => r matches Ok(x) && entries_view(x@) == v,
            Err(e) => r matches Err(m) && m@ == e,
        },
{
    let ghost mv = members_view(ms@);
    let mut out: Vec<(String, JsonSpan)> = Vec::new();
    let mut i: usize = 0;
    assert(mv.take(0) =~= Seq::<(Seq<char>, usize, usize)>::empty());
    assert(entries_view(out@) =~= Seq::<(Seq<char>, JsonSpanView)>::empty());
    while i < ms.len()
        invariant
            i <= ms.len(),
            base + text.len() <= usize::MAX,
            mv == members_view(ms@),
            member_spans(text@, base as int, mv.take(i as int)) == Ok::<Seq<(Seq<char>, JsonSpanView)>, Seq<char>>(
                entries_view(out@),
            ),
        decreases ms.len() - i,
    {
        assert(mv.take(i + 1).drop_last() =~= mv.take(i as int));
        assert(mv.take(i + 1).last() == mv[i as int]);
        assert(mv[i as int] == (ms@[i as int].0@, ms@[i as int].1, ms@[i as int].2));
        match member_range(text, ms[i].1, ms[i].2) {
            None => {
                proof {
                    reveal_strlit("a JSON value does not start and end between characters");
                    assert(member_chars(text@, mv[i as int]) is None);
                    lemma_spans_error_stays(text@, base as int, mv, i + 1, ms.len() as int);
                    assert(mv.take(ms.len() as int) =~= mv);
                }
                return Err(owned("a JSON value does not start and end between characters"));
            },
            Some((x, y)) => {
                let raw = chars_between(text, x, y);
                let span = JsonSpan { start: base + x, end: base + y, text: json_string_of(raw.as_str()) };
                let ghost before = out@;
                out.push((owned(ms[i].0.as_str()), span));
                assert(entries_view(out@) =~= entries_view(before).push(
                    (ms@[i as int].0@, json_span_view(span)),
                ));
            },
        }
        i += 1;
    }
    assert(mv.take(ms.len() as int) =~= mv);
    Ok(out)
}

proof fn lemma_spans_error_stays(text: Seq<char>, base: int, ms: Seq<(Seq<char>, usize, usize)>, k: int, n: int)
    requires
        0 <= k <= n <= ms.len(),
        member_spans(text, base, ms.take(k)) == Err::<Seq<(Seq<char>, JsonSpanView)>, Seq<char>>(boundary_message()),
    ensures
        member_spans(text, base, ms.take(n)) == Err::<Seq<(Seq<char>, JsonSpanView)>, Seq<char>>(boundary_message()),
    decreases n - k,
{
    if k < n {
        assert(ms.take(k + 1).drop_last() =~= ms.take(k));
        lemma_spans_error_stays(text, base, ms, k + 1, n);
    } else {
        assert(ms.take(n) =~= ms.take(k));
    }
}

fn value_span_of(src: &Vec<char>, top: &Vec<(String, usize, usize)>, key: &str) -> (r: Result<Option<JsonSpan>, String>)
    ensures
        match value_of(src@, members_view(top@), key@) {
            Ok(v) => r matches Ok(x) && opt_span_view(x) == v,
            Err(e) => r matches Err(m) && m@ == e,
        },
{
    match find_member(top, key) {
        None => Ok(None),
        Some(m) => match member_range(src, m.1, m.2) {
            None => {
                proof {
                    reveal_strlit("a JSON value does not start and end between characters");
                }
                Err(owned("a JSON value does not start and end between characters"))
            },
            Some((a, b)) => {
                let raw = chars_between(src, a, b);
                proof {
                    reveal_strlit("null");
                }
                if chars_eq(&chars_of(raw.as_str()), &chars_of("null")) {
                    Ok(None)
                } else {
                    Ok(Some(JsonSpan { start: a, end: b, text: json_string_of(raw.as_str()) }))
                }
            },
        },
    }
}

fn object_spans_of(src: &Vec<char>, top: &Vec<(String, usize, usize)>, key: &str) -> (r: Result<
    Option<Vec<(String, JsonSpan)>>,
    String,
>)
    ensures
        match object_of(src@, members_view(top@), key@) {
            Ok(v) => r matches Ok(x) && opt_entries_view(x) == v,
            Err(e) => r matches Err(m) && m@ == e,
        },
{
    match find_member(top, key) {
        None => Ok(None),
        Some(m) => match member_range(src, m.1, m.2) {
            None => {
                proof {
                    reveal_strlit("a JSON value does not start and end between characters");
                }
                Err(owned("a JSON value does not start and end between characters"))
            },
            Some((a, b)) => {
                let raw = chars_between(src, a, b);
                match json_optional_object(raw.as_str()) {
                    Err(e) => Err(e),
                    Ok(None) => Ok(None),
                    Ok(Some(ms)) => {
                        let text = chars_of(raw.as_str());
                        match spans_of_members(&text, a, &ms) {
                            Err(e) => Err(e),
                            Ok(v) => Ok(Some(v)),
                        }
                    },
                }
            },
        },
    }
}

/// Where the values a version update reads stand in a `package.json` (see
/// `package_json_layout`).
pub fn package_json_fields(input: &str) -> (r: Result<PackageJsonFields, String>)
    ensures
        match package_json_layout(input@) {
            Ok(v) => r matches Ok(f) && package_json_view(f) == v,
            Err(e) => r matches Err(m) && m@ == e,
        },
{
    let top = json_members(input)?;
    let src = chars_of(input);
    let version = value_span_of(&src, &top, "version")?;
    let dependencies = object_spans_of(&src, &top, "dependencies")?;
    let dev_dependencies = object_spans_of(&src, &top, "devDependencies")?;
    let peer_dependencies = object_spans_of(&src, &top, "peerDependencies")?;
    let optional_dependencies = object_spans_of(&src, &top, "optionalDependencies")?;
    Ok(PackageJsonFields { version, dependencies, dev_dependencies, peer_dependencies, optional_dependencies })
}

/// Where the values a version update reads stand in a `composer.json` (see
/// `composer_json_layout`).
pub fn composer_json_fields(input: &str) -> (r: Result<ComposerJsonFields, String>)
    ensures
        match composer_json_layout(input@) {
            Ok(v) => r matches Ok(f) && composer_json_view(f) == v,
            Err(e) => r matches Err(m) && m@ == e,
        },
{
    let top = json_members(input)?;
    let src = chars_of(input);
    let version = value_span_of(&src, &top, "version")?;
    let require = object_spans_of(&src, &top, "require")?;
    let require_dev = object_spans_of(&src, &top, "require-dev")?;
    Ok(ComposerJsonFields { version, require, require_dev })
}

} // verus!
