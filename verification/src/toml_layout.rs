//! Where the values a version update reads stand in a `Cargo.toml` or a
//! `pyproject.toml`: the document as `toml_edit` reads it, with byte ranges,
//! and the spans picked from it, in character positions.
use crate::cargo::{CargoDependency, CargoManifestFields, DependencyItem, VersionSlot};
use crate::offsets::{char_at_byte, char_index};
use crate::pip::{PyProjectFields, TomlSpan};
use crate::text::{chars_eq, chars_of, owned, string_of};
use toml_edit::InlineTable as TomlInlineTable;
use toml_edit::Item as TomlItem;
use toml_edit::Table as TomlTable;
use toml_edit::Value as TomlEditValue;
use vstd::prelude::*;

verus! {

#[verifier::external_type_specification]
#[verifier::external_body]
pub struct ExTomlItem(TomlItem);

#[verifier::external_type_specification]
#[verifier::external_body]
pub struct ExTomlTable(TomlTable);

#[verifier::external_type_specification]
#[verifier::external_body]
pub struct ExTomlInlineTable(TomlInlineTable);

#[verifier::external_type_specification]
#[verifier::external_body]
pub struct ExTomlEditValue(TomlEditValue);

/// A part of a TOML document as `toml_edit` reads it, with the byte range
/// of its text when the parser kept one.
#[derive(Debug)]
pub enum TomlNode {
    /// A table with a header, or the document itself: its entries in order.
    Table(Vec<(String, TomlNode)>, Option<(usize, usize)>),
    /// An inline table, `{ .. }`.
    Inline(Vec<(String, TomlNode)>, Option<(usize, usize)>),
    Array(Vec<TomlNode>, Option<(usize, usize)>),
    Str(String, Option<(usize, usize)>),
    Bool(bool, Option<(usize, usize)>),
    /// Any other value: a number or a date.
    Scalar(Option<(usize, usize)>),
    /// An array of tables, `[[name]]`.
    Tables(Option<(usize, usize)>),
    /// An entry without a value.
    Empty,
}

/// The document `toml_edit::Document::parse` reads from a text, or the
/// message of its error.
pub uninterp spec fn toml_syntax(text: Seq<char>) -> Result<TomlNode, Seq<char>>;

/// A `toml_edit` table as a node, entry for entry.
#[verifier::external_body]
fn node_of_table(t: &TomlTable) -> TomlNode {
    let entries = t.iter().map(|(k, item)| (k.to_string(), node_of_item(item))).collect();
    TomlNode::Table(entries, t.span().map(|r| (r.start, r.end)))
}

/// A `toml_edit` item as a node, variant for variant.
#[verifier::external_body]
fn node_of_item(item: &TomlItem) -> TomlNode {
    match item {
        toml_edit::Item::None => TomlNode::Empty,
        toml_edit::Item::Value(v) => node_of_value(v),
        toml_edit::Item::Table(t) => node_of_table(t),
        toml_edit::Item::ArrayOfTables(a) => TomlNode::Tables(a.span().map(|r| (r.start, r.end))),
    }
}

/// An inline table as a node, entry for entry.
#[verifier::external_body]
fn node_of_inline(t: &TomlInlineTable) -> TomlNode {
    let entries = t.iter().map(|(k, v)| (k.to_string(), node_of_value(v))).collect();
    TomlNode::Inline(entries, t.span().map(|r| (r.start, r.end)))
}

/// A `toml_edit` value as a node, variant for variant.
#[verifier::external_body]
fn node_of_value(v: &TomlEditValue) -> TomlNode {
    let span = v.span().map(|r| (r.start, r.end));
    match v {
        toml_edit::Value::String(s) => TomlNode::Str(s.value().clone(), span),
        toml_edit::Value::Boolean(b) => TomlNode::Bool(*b.value(), span),
        toml_edit::Value::Array(a) => TomlNode::Array(a.iter().map(node_of_value).collect(), span),
        toml_edit::Value::InlineTable(t) => node_of_inline(t),
        _ => TomlNode::Scalar(span),
    }
}

/// Reads a TOML document with `toml_edit::Document::parse` (see
/// `toml_syntax`).
#[verifier::external_body]
fn toml_syntax_tree(text: &str) -> (r: Result<TomlNode, String>)
    ensures
        match toml_syntax(text@) {
            Ok(n) => r matches Ok(x) && x == n,
            Err(e) => r matches Err(m) && m@ == e,
        },
{
    match toml_edit::Document::parse(text) {
        Ok(doc) => Ok(node_of_table(doc.as_table())),
        Err(e) => Err(e.to_string()),
    }
}

// ---------------------------------------------------------------------------
// Reading the document.

/// The value of the first entry named `key`.
pub open spec fn entry_of(es: Seq<(String, TomlNode)>, key: Seq<char>) -> Option<TomlNode>
    decreases es.len(),
{
    if es.len() == 0 {
        None
    } else if es[0].0@ == key {
        Some(es[0].1)
    } else {
        entry_of(es.drop_first(), key)
    }
}

/// The entries of a table, with a header or inline.
pub open spec fn table_like(n: Option<TomlNode>) -> Option<Seq<(String, TomlNode)>> {
    match n {
        Some(TomlNode::Table(es, _)) => Some(es@),
        Some(TomlNode::Inline(es, _)) => Some(es@),
        _ => None,
    }
}

/// The entries of a table with a header.
pub open spec fn table_only(n: Option<TomlNode>) -> Option<Seq<(String, TomlNode)>> {
    match n {
        Some(TomlNode::Table(es, _)) => Some(es@),
        _ => None,
    }
}

/// `n[key]`, when `n` is a table holding `key`.
pub open spec fn get(n: Option<TomlNode>, key: Seq<char>) -> Option<TomlNode> {
    match table_like(n) {
        Some(es) => entry_of(es, key),
        None => None,
    }
}

/// Whether a node is a value (not a table with a header, an array of
/// tables, or nothing).
pub open spec fn is_value(n: TomlNode) -> bool {
    !(n is Table || n is Tables || n is Empty)
}

/// The node, when it is a value.
pub open spec fn as_value(n: Option<TomlNode>) -> Option<TomlNode> {
    match n {
        Some(v) => if is_value(v) {
            Some(v)
        } else {
            None
        },
        None => None,
    }
}

/// The string a node holds.
pub open spec fn str_of(n: Option<TomlNode>) -> Option<Seq<char>> {
    match n {
        Some(TomlNode::Str(s, _)) => Some(s@),
        _ => None,
    }
}

/// The byte range of a node's text.
pub open spec fn span_of(n: TomlNode) -> Option<(usize, usize)> {
    match n {
        TomlNode::Table(_, s) => s,
        TomlNode::Inline(_, s) => s,
        TomlNode::Array(_, s) => s,
        TomlNode::Str(_, s) => s,
        TomlNode::Bool(_, s) => s,
        TomlNode::Scalar(s) => s,
        TomlNode::Tables(s) => s,
        TomlNode::Empty => None,
    }
}

/// A span as plain values: character positions and the string.
pub type SpanView = (int, int, Option<Seq<char>>);

pub open spec fn opt_chars(o: Option<String>) -> Option<Seq<char>> {
    match o {
        Some(s) => Some(s@),
        None => None,
    }
}

pub open spec fn span_view(t: TomlSpan) -> SpanView {
    (t.start as int, t.end as int, opt_chars(t.text))
}

pub open spec fn opt_span_view(o: Option<TomlSpan>) -> Option<SpanView> {
    match o {
        Some(t) => Some(span_view(t)),
        None => None,
    }
}

/// Where a value stands in the text `src`, in characters, with its string;
/// none when the parser kept no range or the range does not fall between
/// characters.
pub open spec fn value_span(src: Seq<char>, n: TomlNode) -> Option<SpanView> {
    match span_of(n) {
        Some((s, e)) => match (char_at_byte(src, s as int), char_at_byte(src, e as int)) {
            (Some(a), Some(b)) => Some((a, b, str_of(Some(n)))),
            _ => None,
        },
        None => None,
    }
}

fn find_entry<'a>(es: &'a Vec<(String, TomlNode)>, key: &str) -> (r: Option<&'a TomlNode>)
    ensures
        match entry_of(es@, key@) {
            Some(v) => r matches Some(x) && *x == v,
            None => r is None,
        },
{
    let k = chars_of(key);
    let mut i: usize = 0;
    assert(es@.skip(0) =~= es@);
    while i < es.len()
        invariant
            i <= es.len(),
            k@ == key@,
            entry_of(es@, key@) == entry_of(es@.skip(i as int), key@),
        decreases es.len() - i,
    {
        assert(es@.skip(i as int)[0] == es@[i as int]);
        assert(es@.skip(i as int).drop_first() =~= es@.skip(i + 1));
        if chars_eq(&chars_of(es[i].0.as_str()), &k) {
            return Some(&es[i].1);
        }
        i += 1;
    }
    None
}

fn entries_like(n: Option<&TomlNode>) -> (r: Option<&Vec<(String, TomlNode)>>)
    ensures
        match n {
            Some(x) => match table_like(Some(*x)) {
                Some(es) => r matches Some(v) && v@ == es,
                None => r is None,
            },
            None => r is None,
        },
{
    match n {
        Some(TomlNode::Table(es, _)) => Some(es),
        Some(TomlNode::Inline(es, _)) => Some(es),
        _ => None,
    }
}

fn entries_of_table(n: Option<&TomlNode>) -> (r: Option<&Vec<(String, TomlNode)>>)
    ensures
        match n {
            Some(x) => match table_only(Some(*x)) {
                Some(es) => r matches Some(v) && v@ == es,
                None => r is None,
            },
            None => r is None,
        },
{
    match n {
        Some(TomlNode::Table(es, _)) => Some(es),
        _ => None,
    }
}

/// `n[key]`.
fn get_in<'a>(n: Option<&'a TomlNode>, key: &str) -> (r: Option<&'a TomlNode>)
    ensures
        match n {
            Some(x) => match get(Some(*x), key@) {
                Some(v) => r matches Some(y) && *y == v,
                None => r is None,
            },
            None => r is None,
        },
{
    match entries_like(n) {
        Some(es) => find_entry(es, key),
        None => None,
    }
}

fn node_span(n: &TomlNode) -> (r: Option<(usize, usize)>)
    ensures
        r == span_of(*n),
{
    match n {
        TomlNode::Table(_, s) => *s,
        TomlNode::Inline(_, s) => *s,
        TomlNode::Array(_, s) => *s,
        TomlNode::Str(_, s) => *s,
        TomlNode::Bool(_, s) => *s,
        TomlNode::Scalar(s) => *s,
        TomlNode::Tables(s) => *s,
        TomlNode::Empty => None,
    }
}

fn value_node(n: &TomlNode) -> (r: bool)
    ensures
        r == is_value(*n),
{
    match n {
        TomlNode::Table(_, _) | TomlNode::Tables(_) | TomlNode::Empty => false,
        _ => true,
    }
}

fn string_in(n: &TomlNode) -> (r: Option<String>)
    ensures
        opt_chars(r) == str_of(Some(*n)),
{
    match n {
        TomlNode::Str(s, _) => Some(owned(s.as_str())),
        _ => None,
    }
}

/// Where a value stands (see `value_span`).
fn toml_span(n: &TomlNode, src: &Vec<char>) -> (r: Option<TomlSpan>)
    ensures
        opt_span_view(r) == value_span(src@, *n),
{
    match node_span(n) {
        Some((s, e)) => match (char_index(src, s), char_index(src, e)) {
            (Some(a), Some(b)) => Some(TomlSpan { start: a, end: b, text: string_in(n) }),
            _ => None,
        },
        None => None,
    }
}

// ---------------------------------------------------------------------------
// `pyproject.toml`.

/// The spans of the values among `items`, in order.
pub open spec fn spans_of(items: Seq<TomlNode>, src: Seq<char>) -> Seq<SpanView>
    decreases items.len(),
{
    if items.len() == 0 {
        seq![]
    } else {
        let rest = spans_of(items.drop_last(), src);
        match value_span(src, items.last()) {
            Some(v) => rest.push(v),
            None => rest,
        }
    }
}

/// The spans of the items of an array.
pub open spec fn array_spans(n: Option<TomlNode>, src: Seq<char>) -> Option<Seq<SpanView>> {
    match n {
        Some(TomlNode::Array(items, _)) => Some(spans_of(items@, src)),
        _ => None,
    }
}

/// The entries that are arrays, with the spans of their items.
pub open spec fn groups_of(es: Seq<(String, TomlNode)>, src: Seq<char>) -> Seq<(Seq<char>, Seq<SpanView>)>
    decreases es.len(),
{
    if es.len() == 0 {
        seq![]
    } else {
        let rest = groups_of(es.drop_last(), src);
        match array_spans(Some(es.last().1), src) {
            Some(s) => rest.push((es.last().0@, s)),
            None => rest,
        }
    }
}

pub open spec fn group_view(g: (String, Vec<TomlSpan>)) -> (Seq<char>, Seq<SpanView>) {
    (g.0@, g.1@.map_values(|t: TomlSpan| span_view(t)))
}

/// `project.version`, the items of `project.dependencies` and the array
/// groups of `project.optional-dependencies` of a `pyproject.toml` whose
/// document is `top` and text `src`.
pub open spec fn pyproject_layout(f: PyProjectFields, top: TomlNode, src: Seq<char>) -> bool {
    let project = match table_like(get(Some(top), "project"@)) {
        Some(es) => get(Some(top), "project"@),
        None => None,
    };
    &&& opt_span_view(f.version) == match as_value(get(project, "version"@)) {
        Some(v) => value_span(src, v),
        None => None,
    }
    &&& match f.dependencies {
        Some(d) => array_spans(get(project, "dependencies"@), src) == Some(d@.map_values(|t: TomlSpan| span_view(t))),
        None => array_spans(get(project, "dependencies"@), src) is None,
    }
    &&& match f.optional_dependencies {
        Some(g) => table_like(get(project, "optional-dependencies"@)) matches Some(es) && g@.map_values(
            |x: (String, Vec<TomlSpan>)| group_view(x),
        ) == groups_of(es, src),
        None => table_like(get(project, "optional-dependencies"@)) is None,
    }
}

fn spans_in(items: &Vec<TomlNode>, src: &Vec<char>) -> (r: Vec<TomlSpan>)
    ensures
        r@.map_values(|t: TomlSpan| span_view(t)) == spans_of(items@, src@),
{
    let mut out: Vec<TomlSpan> = Vec::new();
    let mut i: usize = 0;
    assert(items@.take(0) =~= Seq::<TomlNode>::empty());
    while i < items.len()
        invariant
            i <= items.len(),
            out@.map_values(|t: TomlSpan| span_view(t)) == spans_of(items@.take(i as int), src@),
        decreases items.len() - i,
    {
        let ghost before = out@;
        assert(items@.take(i + 1).drop_last() =~= items@.take(i as int));
        assert(items@.take(i + 1).last() == items@[i as int]);
        match toml_span(&items[i], src) {
            Some(t) => {
                out.push(t);
                assert(out@.map_values(|t: TomlSpan| span_view(t)) =~= before.map_values(|t: TomlSpan| span_view(t)).push(
                    span_view(t),
                ));
            },
            None => {},
        }
        i += 1;
    }
    assert(items@.take(items.len() as int) =~= items@);
    out
}

fn array_spans_of(n: Option<&TomlNode>, src: &Vec<char>) -> (r: Option<Vec<TomlSpan>>)
    ensures
        match n {
            Some(x) => match r {
                Some(d) => array_spans(Some(*x), src@) == Some(d@.map_values(|t: TomlSpan| span_view(t))),
                None => array_spans(Some(*x), src@) is None,
            },
            None => r is None,
        },
{
    match n {
        Some(TomlNode::Array(items, _)) => Some(spans_in(items, src)),
        _ => None,
    }
}

fn groups_in(es: &Vec<(String, TomlNode)>, src: &Vec<char>) -> (r: Vec<(String, Vec<TomlSpan>)>)
    ensures
        r@.map_values(|x: (String, Vec<TomlSpan>)| group_view(x)) == groups_of(es@, src@),
{
    let mut out: Vec<(String, Vec<TomlSpan>)> = Vec::new();
    let mut i: usize = 0;
    assert(es@.take(0) =~= Seq::<(String, TomlNode)>::empty());
    while i < es.len()
        invariant
            i <= es.len(),
            out@.map_values(|x: (String, Vec<TomlSpan>)| group_view(x)) == groups_of(es@.take(i as int), src@),
        decreases es.len() - i,
    {
        let ghost before = out@;
        assert(es@.take(i + 1).drop_last() =~= es@.take(i as int));
        assert(es@.take(i + 1).last() == es@[i as int]);
        match array_spans_of(Some(&es[i].1), src) {
            Some(s) => {
                let g = (owned(es[i].0.as_str()), s);
                out.push(g);
                assert(out@.map_values(|x: (String, Vec<TomlSpan>)| group_view(x)) =~= before.map_values(
                    |x: (String, Vec<TomlSpan>)| group_view(x),
                ).push(group_view(g)));
            },
            None => {},
        }
        i += 1;
    }
    assert(es@.take(es.len() as int) =~= es@);
    out
}

/// Where the values a version update reads stand in a `pyproject.toml`
/// (see `pyproject_layout`); a text that is no TOML document gives the
/// parser's message.
pub fn pyproject_fields(input: &str) -> (r: Result<PyProjectFields, String>)
    ensures
        match toml_syntax(input@) {
            Ok(top) => r matches Ok(f) && pyproject_layout(f, top, input@),
            Err(e) => r matches Err(m) && m@ == e,
        },
{
    let top = match toml_syntax_tree(input) {
        Ok(t) => t,
        Err(e) => {
            return Err(e);
        },
    };
    let src = chars_of(input);
    let p = get_in(Some(&top), "project");
    let project = match entries_like(p) {
        Some(_) => p,
        None => None,
    };
    let version = match get_in(project, "version") {
        Some(v) => if value_node(v) {
            toml_span(v, &src)
        } else {
            None
        },
        None => None,
    };
    let dependencies = array_spans_of(get_in(project, "dependencies"), &src);
    let optional_dependencies = match entries_like(get_in(project, "optional-dependencies")) {
        Some(es) => Some(groups_in(es, &src)),
        None => None,
    };
    Ok(PyProjectFields { version, dependencies, optional_dependencies })
}

// ---------------------------------------------------------------------------
// `Cargo.toml`.

/// The first position from `from` on that holds a line break.
pub open spec fn first_newline(src: Seq<char>, from: int) -> Option<int>
    decreases src.len() - from,
{
    if from < 0 || from >= src.len() {
        None
    } else if src[from] == '\n' {
        Some(from)
    } else {
        first_newline(src, from + 1)
    }
}

/// The character that ends the line holding position `from`: its line
/// break, or the last character when that line does not end (an empty
/// text gives position 0 and no text).
pub open spec fn line_end(src: Seq<char>, from: int) -> SpanView {
    match first_newline(src, from) {
        Some(k) => (k, k + 1, Some(seq!['\n'])),
        None => if src.len() > 0 {
            (src.len() - 1, src.len() as int, Some(seq![src.last()]))
        } else {
            (0, 1, Some(seq![]))
        },
    }
}

/// The largest end among the byte ranges of the entries.
pub open spec fn last_end(es: Seq<(String, TomlNode)>) -> Option<usize>
    decreases es.len(),
{
    if es.len() == 0 {
        None
    } else {
        let rest = last_end(es.drop_last());
        match span_of(es.last().1) {
            Some((_, e)) => match rest {
                Some(m) => Some(if e > m {
                    e
                } else {
                    m
                }),
                None => Some(e),
            },
            None => rest,
        }
    }
}

/// A version slot as plain values.
pub type SlotView = (bool, Option<SpanView>, bool, bool, SpanView);

pub open spec fn slot_view(v: VersionSlot) -> SlotView {
    (v.workspace, opt_span_view(v.version), v.inline, v.has_entries, span_view(v.anchor))
}

/// The slot of a table with a header: its `version` value, and, for a new
/// one, the character ending the line of its last entry (of its header
/// when it has none; a byte range that falls inside a character counts
/// as the start of the text).
pub open spec fn table_slot(es: Seq<(String, TomlNode)>, span: Option<(usize, usize)>, workspace: bool, src: Seq<char>) -> SlotView {
    let from = match last_end(es) {
        Some(e) => e,
        None => match span {
            Some((_, e)) => e,
            None => 0,
        },
    };
    let f = match char_at_byte(src, from as int) {
        Some(i) => i,
        None => 0,
    };
    let version = match as_value(entry_of(es, "version"@)) {
        Some(v) => value_span(src, v),
        None => None,
    };
    (workspace, version, false, es.len() > 0, line_end(src, f))
}

/// The slot of an inline table, anchored at its closing brace; none when
/// the parser kept no range for it.
pub open spec fn inline_slot(es: Seq<(String, TomlNode)>, span: Option<(usize, usize)>, workspace: bool, src: Seq<char>) -> Option<SlotView> {
    match span {
        Some((_, e)) => match char_at_byte(src, e as int) {
            Some(c) => if c >= 1 {
                let version = match entry_of(es, "version"@) {
                    Some(v) => value_span(src, v),
                    None => None,
                };
                Some((workspace, version, true, es.len() > 0, (c - 1, c as int, Some(seq!['}']))))
            } else {
                None
            },
            None => None,
        },
        None => None,
    }
}

/// Whether a dependency entry says `workspace = true`.
pub open spec fn workspace_flag(n: Option<TomlNode>) -> bool {
    match get(n, "workspace"@) {
        Some(TomlNode::Bool(b, _)) => b,
        _ => false,
    }
}

/// How a dependency entry is written, as plain values: a bare value, a
/// table, or anything else.
pub enum ItemView {
    Value(SpanView),
    Table(SlotView),
    Other,
}

pub open spec fn item_view(d: DependencyItem) -> ItemView {
    match d {
        DependencyItem::Value(t) => ItemView::Value(span_view(t)),
        DependencyItem::Table(s) => ItemView::Table(slot_view(s)),
        DependencyItem::Other => ItemView::Other,
    }
}

/// How the dependency `n` is written.
pub open spec fn dependency_item(n: TomlNode, src: Seq<char>) -> ItemView {
    let flag = workspace_flag(Some(n));
    match n {
        TomlNode::Table(es, span) => ItemView::Table(table_slot(es@, span, flag, src)),
        TomlNode::Inline(es, span) => match inline_slot(es@, span, flag, src) {
            Some(s) => ItemView::Table(s),
            None => ItemView::Other,
        },
        TomlNode::Tables(_) => ItemView::Other,
        TomlNode::Empty => ItemView::Other,
        _ => match value_span(src, n) {
            Some(v) => ItemView::Value(v),
            None => ItemView::Other,
        },
    }
}

/// `d` is the dependency entry `e`.
pub open spec fn dependency_of(d: CargoDependency, e: (String, TomlNode), src: Seq<char>) -> bool {
    &&& d.key@ == e.0@
    &&& opt_chars(d.package) == str_of(get(Some(e.1), "package"@))
    &&& item_view(d.item) == dependency_item(e.1, src)
}

pub open spec fn dependencies_of(ds: Seq<CargoDependency>, es: Seq<(String, TomlNode)>, src: Seq<char>) -> bool {
    ds.len() == es.len() && forall|i: int| 0 <= i < ds.len() ==> dependency_of(#[trigger] ds[i], es[i], src)
}

/// The entries of a section when it is a table with a header.
pub open spec fn section(t: Option<TomlNode>, name: Seq<char>) -> Seq<(String, TomlNode)> {
    match table_only(get(t, name)) {
        Some(es) => es,
        None => seq![],
    }
}

/// The entries of the three dependency sections of a table.
pub open spec fn sections(t: Option<TomlNode>) -> Seq<(String, TomlNode)> {
    section(t, "dependencies"@) + section(t, "dev-dependencies"@) + section(t, "build-dependencies"@)
}

/// The dependency entries of the `[target.*]` tables, in order.
pub open spec fn target_sections(ts: Seq<(String, TomlNode)>) -> Seq<(String, TomlNode)>
    decreases ts.len(),
{
    if ts.len() == 0 {
        seq![]
    } else {
        target_sections(ts.drop_last()) + match ts.last().1 {
            TomlNode::Table(_, _) => sections(Some(ts.last().1)),
            _ => seq![],
        }
    }
}

/// Every dependency entry of a `Cargo.toml`: its own sections', then each
/// target's.
pub open spec fn all_dependencies(top: TomlNode) -> Seq<(String, TomlNode)> {
    sections(Some(top)) + match table_only(get(Some(top), "target"@)) {
        Some(ts) => target_sections(ts),
        None => seq![],
    }
}

/// The entries of `[workspace.dependencies]`.
pub open spec fn workspace_entries(top: TomlNode) -> Seq<(String, TomlNode)> {
    match table_only(get(get(Some(top), "workspace"@), "dependencies"@)) {
        Some(es) => es,
        None => seq![],
    }
}

/// `[package]`'s slot, when there is such a table.
pub open spec fn package_slot(top: TomlNode, src: Seq<char>) -> Option<SlotView> {
    match get(Some(top), "package"@) {
        Some(TomlNode::Table(es, span)) => Some(
            table_slot(es@, span, workspace_flag(entry_of(es@, "version"@)), src),
        ),
        _ => None,
    }
}

/// `[workspace.package]`'s version.
pub open spec fn workspace_version(top: TomlNode, src: Seq<char>) -> Option<SpanView> {
    let p = get(get(Some(top), "workspace"@), "package"@);
    match (table_only(p), as_value(get(p, "version"@))) {
        (Some(_), Some(v)) => value_span(src, v),
        _ => None,
    }
}

/// Where the values a version update reads stand in a `Cargo.toml` whose
/// document is `top` and text `src`.
pub open spec fn cargo_layout(f: CargoManifestFields, top: TomlNode, src: Seq<char>) -> bool {
    &&& match f.package {
        Some(s) => package_slot(top, src) == Some(slot_view(s)),
        None => package_slot(top, src) is None,
    }
    &&& dependencies_of(f.dependencies@, all_dependencies(top), src)
    &&& dependencies_of(f.workspace_dependencies@, workspace_entries(top), src)
    &&& opt_span_view(f.workspace_version) == workspace_version(top, src)
}

fn newline_from(src: &Vec<char>, from: usize) -> (r: Option<usize>)
    ensures
        match r {
            Some(k) => first_newline(src@, from as int) == Some(k as int) && k < src.len(),
            None => first_newline(src@, from as int) is None,
        },
{
    let mut k: usize = from;
    while k < src.len()
        invariant
            from <= k,
            first_newline(src@, from as int) == first_newline(src@, k as int),
        decreases src.len() - k,
    {
        if src[k] == '\n' {
            return Some(k);
        }
        k += 1;
    }
    None
}

/// The character ending the line at position `from` (see `line_end`).
pub fn line_end_anchor(src: &Vec<char>, from: usize) -> (r: TomlSpan)
    ensures
        span_view(r) == line_end(src@, from as int),
{
    match newline_from(src, from) {
        Some(k) => {
            let t = string_of(&vec!['\n']);
            assert(t@ =~= seq!['\n']);
            TomlSpan { start: k, end: k + 1, text: Some(t) }
        },
        None => if src.len() > 0 {
            let last = src.len() - 1;
            let t = string_of(&vec![src[last]]);
            assert(t@ =~= seq![src@.last()]);
            TomlSpan { start: last, end: src.len(), text: Some(t) }
        } else {
            let t = string_of(&Vec::new());
            assert(t@ =~= Seq::<char>::empty());
            TomlSpan { start: 0, end: 1, text: Some(t) }
        },
    }
}

fn last_end_of(es: &Vec<(String, TomlNode)>) -> (r: Option<usize>)
    ensures
        r == last_end(es@),
{
    let mut m: Option<usize> = None;
    let mut i: usize = 0;
    assert(es@.take(0) =~= Seq::<(String, TomlNode)>::empty());
    while i < es.len()
        invariant
            i <= es.len(),
            m == last_end(es@.take(i as int)),
        decreases es.len() - i,
    {
        assert(es@.take(i + 1).drop_last() =~= es@.take(i as int));
        assert(es@.take(i + 1).last() == es@[i as int]);
        match node_span(&es[i].1) {
            Some((_, e)) => {
                m = match m {
                    Some(x) => Some(
                        if e > x {
                            e
                        } else {
                            x
                        },
                    ),
                    None => Some(e),
                };
            },
            None => {},
        }
        i += 1;
    }
    assert(es@.take(es.len() as int) =~= es@);
    m
}

fn version_value_span(es: &Vec<(String, TomlNode)>, src: &Vec<char>) -> (r: Option<TomlSpan>)
    ensures
        opt_span_view(r) == match as_value(entry_of(es@, "version"@)) {
            Some(v) => value_span(src@, v),
            None => None,
        },
{
    match find_entry(es, "version") {
        Some(v) => if value_node(v) {
            toml_span(v, src)
        } else {
            None
        },
        None => None,
    }
}

fn table_slot_of(es: &Vec<(String, TomlNode)>, span: Option<(usize, usize)>, workspace: bool, src: &Vec<char>) -> (r:
    VersionSlot)
    ensures
        slot_view(r) == table_slot(es@, span, workspace, src@),
{
    let from = match last_end_of(es) {
        Some(e) => e,
        None => match span {
            Some((_, e)) => e,
            None => 0,
        },
    };
    let f = match char_index(src, from) {
        Some(i) => i,
        None => 0,
    };
    VersionSlot {
        workspace,
        version: version_value_span(es, src),
        inline: false,
        has_entries: es.len() > 0,
        anchor: line_end_anchor(src, f),
    }
}

fn inline_slot_of(es: &Vec<(String, TomlNode)>, span: Option<(usize, usize)>, workspace: bool, src: &Vec<char>) -> (r:
    Option<VersionSlot>)
    ensures
        match r {
            Some(s) => inline_slot(es@, span, workspace, src@) == Some(slot_view(s)),
            None => inline_slot(es@, span, workspace, src@) is None,
        },
{
    let e = match span {
        Some((_, e)) => e,
        None => {
            return None;
        },
    };
    let c = match char_index(src, e) {
        Some(c) => c,
        None => {
            return None;
        },
    };
    if c < 1 {
        return None;
    }
    let version = match find_entry(es, "version") {
        Some(v) => toml_span(v, src),
        None => None,
    };
    let t = string_of(&vec!['}']);
    assert(t@ =~= seq!['}']);
    Some(VersionSlot {
        workspace,
        version,
        inline: true,
        has_entries: es.len() > 0,
        anchor: TomlSpan { start: c - 1, end: c, text: Some(t) },
    })
}

fn flag_of(n: Option<&TomlNode>) -> (r: bool)
    ensures
        match n {
            Some(x) => r == workspace_flag(Some(*x)),
            None => !r,
        },
{
    match get_in(n, "workspace") {
        Some(TomlNode::Bool(b, _)) => *b,
        _ => false,
    }
}

fn dependency(key: &String, n: &TomlNode, src: &Vec<char>) -> (r: CargoDependency)
    ensures
        dependency_of(r, (*key, *n), src@),
{
    let flag = flag_of(Some(n));
    let package = match get_in(Some(n), "package") {
        Some(p) => string_in(p),
        None => None,
    };
    let item = match n {
        TomlNode::Table(es, span) => DependencyItem::Table(table_slot_of(es, *span, flag, src)),
        TomlNode::Inline(es, span) => match inline_slot_of(es, *span, flag, src) {
            Some(s) => DependencyItem::Table(s),
            None => DependencyItem::Other,
        },
        TomlNode::Tables(_) | TomlNode::Empty => DependencyItem::Other,
        _ => match toml_span(n, src) {
            Some(t) => DependencyItem::Value(t),
            None => DependencyItem::Other,
        },
    };
    CargoDependency { key: owned(key.as_str()), package, item }
}

/// Appends the dependencies of the entries `es`.
fn push_dependencies(es: &Vec<(String, TomlNode)>, src: &Vec<char>, out: &mut Vec<CargoDependency>)
    ensures
        final(out)@.len() == old(out)@.len() + es@.len(),
        forall|i: int| 0 <= i < old(out)@.len() ==> #[trigger] final(out)@[i] == old(out)@[i],
        forall|i: int| old(out)@.len() <= i < final(out)@.len() ==> dependency_of(#[trigger] final(out)@[i], es@[i - old(out)@.len()], src@),
{
    let ghost start = out@;
    let mut i: usize = 0;
    while i < es.len()
        invariant
            i <= es.len(),
            out@.len() == start.len() + i,
            forall|j: int| 0 <= j < start.len() ==> #[trigger] out@[j] == start[j],
            forall|j: int| start.len() <= j < out@.len() ==> dependency_of(#[trigger] out@[j], es@[j - start.len()], src@),
        decreases es.len() - i,
    {
        let d = dependency(&es[i].0, &es[i].1, src);
        out.push(d);
        i += 1;
    }
}

fn section_entries<'a>(t: &'a TomlNode, name: &str) -> (r: Option<&'a Vec<(String, TomlNode)>>)
    ensures
        match r {
            Some(es) => es@ == section(Some(*t), name@),
            None => section(Some(*t), name@) == Seq::<(String, TomlNode)>::empty(),
        },
{
    entries_of_table(get_in(Some(t), name))
}

fn push_sections(t: &TomlNode, src: &Vec<char>, out: &mut Vec<CargoDependency>)
    ensures
        final(out)@.len() == old(out)@.len() + sections(Some(*t)).len(),
        forall|i: int| 0 <= i < old(out)@.len() ==> #[trigger] final(out)@[i] == old(out)@[i],
        forall|i: int|
            old(out)@.len() <= i < final(out)@.len() ==> dependency_of(#[trigger] final(out)@[i], sections(Some(*t))[i - old(out)@.len()], src@),
{
    let ghost start = out@;
    let ghost a = section(Some(*t), "dependencies"@);
    let ghost b = section(Some(*t), "dev-dependencies"@);
    let ghost c = section(Some(*t), "build-dependencies"@);
    let ghost all = sections(Some(*t));
    assert(all == a + b + c);
    match section_entries(t, "dependencies") {
        Some(es) => push_dependencies(es, src, out),
        None => {},
    }
    let ghost o1 = out@;
    match section_entries(t, "dev-dependencies") {
        Some(es) => push_dependencies(es, src, out),
        None => {},
    }
    let ghost o2 = out@;
    match section_entries(t, "build-dependencies") {
        Some(es) => push_dependencies(es, src, out),
        None => {},
    }
    assert forall|i: int| start.len() <= i < out@.len() implies dependency_of(#[trigger] out@[i], all[i - start.len()], src@) by {
        let k = i - start.len();
        if k < a.len() {
            assert(all[k] == a[k]);
            assert(o2[i] == o1[i]);
            assert(out@[i] == o2[i]);
            assert(dependency_of(o1[i], a[k], src@));
        } else if k < a.len() + b.len() {
            assert(all[k] == b[k - a.len()]);
            assert(out@[i] == o2[i]);
            assert(dependency_of(o2[i], b[i - o1.len()], src@));
        } else {
            assert(all[k] == c[k - a.len() - b.len()]);
            assert(dependency_of(out@[i], c[i - o2.len()], src@));
        }
    }
}

fn push_targets(ts: &Vec<(String, TomlNode)>, src: &Vec<char>, out: &mut Vec<CargoDependency>)
    ensures
        final(out)@.len() == old(out)@.len() + target_sections(ts@).len(),
        forall|i: int| 0 <= i < old(out)@.len() ==> #[trigger] final(out)@[i] == old(out)@[i],
        forall|i: int|
            old(out)@.len() <= i < final(out)@.len() ==> dependency_of(#[trigger] final(out)@[i], target_sections(ts@)[i - old(out)@.len()], src@),
{
    let ghost start = out@;
    let mut k: usize = 0;
    assert(ts@.take(0) =~= Seq::<(String, TomlNode)>::empty());
    while k < ts.len()
        invariant
            k <= ts.len(),
            out@.len() == start.len() + target_sections(ts@.take(k as int)).len(),
            forall|j: int| 0 <= j < start.len() ==> #[trigger] out@[j] == start[j],
            forall|j: int|
                start.len() <= j < out@.len() ==> dependency_of(
                    #[trigger] out@[j],
                    target_sections(ts@.take(k as int))[j - start.len()],
                    src@,
                ),
        decreases ts.len() - k,
    {
        let ghost before = out@;
        let ghost prev = target_sections(ts@.take(k as int));
        assert(ts@.take(k + 1).drop_last() =~= ts@.take(k as int));
        assert(ts@.take(k + 1).last() == ts@[k as int]);
        let ghost extra = match ts@[k as int].1 {
            TomlNode::Table(_, _) => sections(Some(ts@[k as int].1)),
            _ => seq![],
        };
        assert(target_sections(ts@.take(k + 1)) == prev + extra);
        match &ts[k].1 {
            TomlNode::Table(_, _) => {
                push_sections(&ts[k].1, src, out);
            },
            _ => {},
        }
        assert forall|j: int| start.len() <= j < out@.len() implies dependency_of(
            #[trigger] out@[j],
            (prev + extra)[j - start.len()],
            src@,
        ) by {
            let q = j - start.len();
            if q < prev.len() {
                assert(out@[j] == before[j]);
                assert(dependency_of(before[j], prev[q], src@));
            } else {
                assert((prev + extra)[q] == extra[q - prev.len()]);
                assert(dependency_of(out@[j], extra[j - before.len()], src@));
            }
        }
        k += 1;
    }
    assert(ts@.take(ts.len() as int) =~= ts@);
}

/// Where the values a version update reads stand in a `Cargo.toml` (see
/// `cargo_layout`); a text that is no TOML document gives the parser's
/// message.
pub fn cargo_fields(input: &str) -> (r: Result<CargoManifestFields, String>)
    ensures
        match toml_syntax(input@) {
            Ok(top) => r matches Ok(f) && cargo_layout(f, top, input@),
            Err(e) => r matches Err(m) && m@ == e,
        },
{
    let top = match toml_syntax_tree(input) {
        Ok(t) => t,
        Err(e) => {
            return Err(e);
        },
    };
    let src = chars_of(input);
    let package = match get_in(Some(&top), "package") {
        Some(TomlNode::Table(es, span)) => {
            let flag = flag_of(find_entry(es, "version"));
            Some(table_slot_of(es, *span, flag, &src))
        },
        _ => None,
    };
    let mut dependencies: Vec<CargoDependency> = Vec::new();
    push_sections(&top, &src, &mut dependencies);
    let ghost own = dependencies@;
    match entries_of_table(get_in(Some(&top), "target")) {
        Some(ts) => push_targets(ts, &src, &mut dependencies),
        None => {},
    }
    proof {
        let all = all_dependencies(top);
        let s = sections(Some(top));
        let rest = match table_only(get(Some(top), "target"@)) {
            Some(ts) => target_sections(ts),
            None => seq![],
        };
        assert(all == s + rest);
        assert forall|i: int| 0 <= i < all.len() implies dependency_of(#[trigger] dependencies@[i], all[i], src@) by {
            if i < s.len() {
                assert(dependencies@[i] == own[i]);
                assert(dependency_of(own[i], s[i], src@));
            } else {
                assert(all[i] == rest[i - s.len()]);
                assert(dependency_of(dependencies@[i], rest[i - own.len()], src@));
            }
        }
    }
    let mut workspace_dependencies: Vec<CargoDependency> = Vec::new();
    match entries_of_table(get_in(get_in(Some(&top), "workspace"), "dependencies")) {
        Some(es) => push_dependencies(es, &src, &mut workspace_dependencies),
        None => {},
    }
    let p = get_in(get_in(Some(&top), "workspace"), "package");
    let workspace_version = match (entries_of_table(p), get_in(p, "version")) {
        (Some(_), Some(v)) => if value_node(v) {
            toml_span(v, &src)
        } else {
            None
        },
        _ => None,
    };
    Ok(CargoManifestFields { package, dependencies, workspace_dependencies, workspace_version })
}

} // verus!
