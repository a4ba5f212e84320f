//! The elements of an XML document as `tree-sitter-xml` parses it: the
//! syntax tree, node for node, and the elements read from it with their
//! names, their character data and their child elements.
use crate::offsets::{char_range, char_range_of, chars_between};
use crate::pom::{XmlDocument, XmlElement};
use crate::text::{chars_eq, chars_of, owned};
use tree_sitter::Node as XmlNode;
use vstd::prelude::*;

verus! {

#[verifier::external_type_specification]
#[verifier::external_body]
pub struct ExXmlNode<'a>(XmlNode<'a>);

/// A node of the syntax tree: its kind, whether the grammar names it, the
/// byte range of its text and its children, in order.
#[derive(Debug)]
pub struct XmlSyntax {
    pub kind: String,
    pub named: bool,
    pub start: usize,
    pub end: usize,
    pub children: Vec<XmlSyntax>,
}

/// The syntax tree `tree-sitter-xml` gives a text, from its document node;
/// none when the parser gives none.
pub uninterp spec fn xml_syntax(text: Seq<char>) -> Option<XmlSyntax>;

/// A `tree-sitter` node as a syntax node, child for child.
#[verifier::external_body]
fn syntax_of(node: XmlNode<'_>) -> XmlSyntax {
    let mut cursor = node.walk();
    let children = node.children(&mut cursor).map(syntax_of).collect();
    XmlSyntax { kind: node.kind().to_string(), named: node.is_named(), start: node.start_byte(), end: node.end_byte(), children }
}

/// Parses `source` with `tree_sitter::Parser` set to the XML language of
/// `tree-sitter-xml`: the tree from its root node (see `xml_syntax`).
#[verifier::external_body]
fn xml_syntax_tree(source: &str) -> (r: Option<XmlSyntax>)
    ensures
        r == xml_syntax(source@),
{
    let mut parser = tree_sitter::Parser::new();
    parser.set_language(&tree_sitter_xml::LANGUAGE_XML.into()).ok()?;
    let tree = parser.parse(source, None)?;
    Some(syntax_of(tree.root_node()))
}

/// The first of the nodes `s`, from the `i`-th on, of kind `a` or `b` (and
/// named, when `named` says so).
pub open spec fn first_of(s: Seq<XmlSyntax>, a: Seq<char>, b: Seq<char>, named: bool, i: int) -> Option<int>
    decreases s.len() - i,
{
    if i < 0 || i >= s.len() {
        None
    } else if (s[i].kind@ == a || s[i].kind@ == b) && (s[i].named || !named) {
        Some(i)
    } else {
        first_of(s, a, b, named, i + 1)
    }
}

/// The first child of `n` of kind `k`.
pub open spec fn child_of(n: XmlSyntax, k: Seq<char>) -> Option<XmlSyntax> {
    match first_of(n.children@, k, k, false, 0) {
        Some(i) => Some(n.children@[i]),
        None => None,
    }
}

/// The root element of a document: its first named child of kind
/// `element`.
pub open spec fn root_element(doc: XmlSyntax) -> Option<XmlSyntax> {
    match first_of(doc.children@, "element"@, "element"@, true, 0) {
        Some(i) => Some(doc.children@[i]),
        None => None,
    }
}

/// The text of a node, when its byte range falls between characters of
/// `src`: where it starts, in characters, and the text itself.
pub open spec fn node_text(src: Seq<char>, n: XmlSyntax) -> Option<(int, Seq<char>)> {
    match char_range(src, n.start as int, n.end as int) {
        Some((x, y)) => Some((x, src.subrange(x, y))),
        None => None,
    }
}

/// An element's name: the `Name` of its start (or empty-element) tag;
/// empty when it has none.
pub open spec fn tag_name(src: Seq<char>, n: XmlSyntax) -> Seq<char> {
    match first_of(n.children@, "STag"@, "EmptyElemTag"@, false, 0) {
        Some(t) => match child_of(n.children@[t], "Name"@) {
            Some(m) => match node_text(src, m) {
                Some((_, name)) => name,
                None => seq![],
            },
            None => seq![],
        },
        None => seq![],
    }
}

/// Whether every node of `s` is character data.
pub open spec fn all_char_data(s: Seq<XmlSyntax>) -> bool {
    forall|i: int| 0 <= i < s.len() ==> (#[trigger] s[i]).kind@ == "CharData"@
}

/// An element's text: that of its content, when the content is character
/// data alone.
pub open spec fn element_text(src: Seq<char>, n: XmlSyntax) -> Option<(int, Seq<char>)> {
    match child_of(n, "content"@) {
        Some(c) => if all_char_data(c.children@) {
            node_text(src, c)
        } else {
            None
        },
        None => None,
    }
}

/// The nodes of `s` of kind `element`, in order.
pub open spec fn element_kids(s: Seq<XmlSyntax>) -> Seq<XmlSyntax>
    decreases s.len(),
{
    if s.len() == 0 {
        seq![]
    } else if s.last().kind@ == "element"@ {
        element_kids(s.drop_last()).push(s.last())
    } else {
        element_kids(s.drop_last())
    }
}

/// An element's child elements: the elements in its content.
pub open spec fn subelements(n: XmlSyntax) -> Seq<XmlSyntax> {
    match child_of(n, "content"@) {
        Some(c) => element_kids(c.children@),
        None => seq![],
    }
}

pub open spec fn content_view(c: Option<(usize, String)>) -> Option<(int, Seq<char>)> {
    match c {
        Some((x, t)) => Some((x as int, t@)),
        None => None,
    }
}

/// Element `i` of `elems` is read from node `i` of `nodes`: its name, its
/// text, and its children, which are the entries of its child elements.
pub open spec fn element_read(src: Seq<char>, nodes: Seq<XmlSyntax>, elems: Seq<XmlElement>, i: int) -> bool {
    let e = elems[i];
    let subs = subelements(nodes[i]);
    &&& e.name@ == tag_name(src, nodes[i])
    &&& content_view(e.content) == element_text(src, nodes[i])
    &&& e.children.len() == subs.len()
    &&& forall|k: int|
        0 <= k < subs.len() ==> (#[trigger] e.children@[k]) < nodes.len() && nodes[e.children@[k] as int] == subs[k]
}

/// `elems` are the elements read from `nodes` of the text `src`, entry for
/// entry.
pub open spec fn elements_read(src: Seq<char>, nodes: Seq<XmlSyntax>, elems: Seq<XmlElement>) -> bool {
    &&& nodes.len() == elems.len()
    &&& forall|i: int| 0 <= i < elems.len() ==> #[trigger] element_read(src, nodes, elems, i)
}

/// `doc` holds the elements of the document `tree` of `src`: its first entry
/// is the root element, and each entry's children are listed too.
pub open spec fn document_read(tree: XmlSyntax, src: Seq<char>, doc: XmlDocument) -> bool {
    exists|nodes: Seq<XmlSyntax>|
        nodes.len() > 0 && root_element(tree) == Some(nodes[0]) && elements_read(src, nodes, doc.elements@)
}

/// Whether `text` parses into a document with a root element.
pub open spec fn xml_readable(text: Seq<char>) -> bool {
    xml_syntax(text) matches Some(t) && root_element(t) is Some
}

/// `doc` holds the elements of the document that `text` parses into.
pub open spec fn xml_reading(text: Seq<char>, doc: XmlDocument) -> bool {
    xml_syntax(text) matches Some(t) && document_read(t, text, doc)
}

fn first_index_of(s: &Vec<XmlSyntax>, a: &str, b: &str, named: bool) -> (r: Option<usize>)
    ensures
        match first_of(s@, a@, b@, named, 0) {
            Some(i) => r matches Some(k) && k == i && k < s.len(),
            None => r is None,
        },
{
    let ka = chars_of(a);
    let kb = chars_of(b);
    let mut i: usize = 0;
    while i < s.len()
        invariant
            i <= s.len(),
            ka@ == a@,
            kb@ == b@,
            first_of(s@, a@, b@, named, 0) == first_of(s@, a@, b@, named, i as int),
        decreases s.len() - i,
    {
        let k = chars_of(s[i].kind.as_str());
        if (chars_eq(&k, &ka) || chars_eq(&k, &kb)) && (s[i].named || !named) {
            return Some(i);
        }
        i += 1;
    }
    None
}

fn is_kind(n: &XmlSyntax, k: &str) -> (r: bool)
    ensures
        r == (n.kind@ == k@),
{
    chars_eq(&chars_of(n.kind.as_str()), &chars_of(k))
}

fn text_of_node(src: &Vec<char>, n: &XmlSyntax) -> (r: Option<(usize, String)>)
    ensures
        content_view(r) == node_text(src@, *n),
{
    match char_range_of(src, n.start, n.end) {
        Some((x, y)) => Some((x, chars_between(src, x, y))),
        None => None,
    }
}

fn name_of(src: &Vec<char>, n: &XmlSyntax) -> (r: String)
    ensures
        r@ == tag_name(src@, *n),
{
    proof {
        reveal_strlit("");
    }
    match first_index_of(&n.children, "STag", "EmptyElemTag", false) {
        Some(t) => {
            let tag = &n.children[t];
            match first_index_of(&tag.children, "Name", "Name", false) {
                Some(m) => match text_of_node(src, &tag.children[m]) {
                    Some((_, name)) => name,
                    None => owned(""),
                },
                None => owned(""),
            }
        },
        None => owned(""),
    }
}

fn only_char_data(s: &Vec<XmlSyntax>) -> (r: bool)
    ensures
        r == all_char_data(s@),
{
    let mut i: usize = 0;
    while i < s.len()
        invariant
            i <= s.len(),
            forall|j: int| 0 <= j < i ==> (#[trigger] s@[j]).kind@ == "CharData"@,
        decreases s.len() - i,
    {
        if !is_kind(&s[i], "CharData") {
            return false;
        }
        i += 1;
    }
    true
}

fn text_of_element(src: &Vec<char>, n: &XmlSyntax) -> (r: Option<(usize, String)>)
    ensures
        content_view(r) == element_text(src@, *n),
{
    match first_index_of(&n.children, "content", "content", false) {
        Some(c) => if only_char_data(&n.children[c].children) {
            text_of_node(src, &n.children[c])
        } else {
            None
        },
        None => None,
    }
}

/// Reads the element `n` and, after it, the elements under it, into `out`;
/// `nodes` are the nodes the entries of `out` were read from. Returns the
/// position of the element's entry.
fn add_element(n: &XmlSyntax, src: &Vec<char>, out: &mut Vec<XmlElement>, nodes: Ghost<Seq<XmlSyntax>>) -> (r: (
    usize,
    Ghost<Seq<XmlSyntax>>,
))
    requires
        nodes@.len() == old(out).len(),
    ensures
        r.0 == old(out).len(),
        r.1@.len() == final(out).len(),
        final(out).len() > old(out).len(),
        r.1@[r.0 as int] == *n,
        forall|i: int| 0 <= i < old(out).len() ==> #[trigger] final(out)@[i] == old(out)@[i],
        forall|i: int| 0 <= i < old(out).len() ==> #[trigger] r.1@[i] == nodes@[i],
        forall|i: int| old(out).len() <= i < final(out).len() ==> element_read(src@, r.1@, final(out)@, i),
    decreases n,
{
    let idx = out.len();
    out.push(XmlElement { name: name_of(src, n), content: text_of_element(src, n), children: Vec::new() });
    let ghost mut ns = nodes@.push(*n);
    let mut kids: Vec<usize> = Vec::new();
    match first_index_of(&n.children, "content", "content", false) {
        Some(ci) => {
            let c = &n.children[ci];
            let mut j: usize = 0;
            while j < c.children.len()
                invariant
                    j <= c.children.len(),
                    ci < n.children.len(),
                    *c == n.children@[ci as int],
                    ns.len() == out.len(),
                    out.len() > idx,
                    ns[idx as int] == *n,
                    forall|i: int| 0 <= i < idx ==> #[trigger] out@[i] == old(out)@[i],
                    forall|i: int| 0 <= i < idx ==> #[trigger] ns[i] == nodes@[i],
                    out@[idx as int].name@ == tag_name(src@, *n),
                    content_view(out@[idx as int].content) == element_text(src@, *n),
                    forall|i: int| idx < i < out.len() ==> element_read(src@, ns, out@, i),
                    kids.len() == element_kids(c.children@.take(j as int)).len(),
                    forall|k: int|
                        0 <= k < kids.len() ==> (#[trigger] kids@[k]) < ns.len() && ns[kids@[k] as int]
                            == element_kids(c.children@.take(j as int))[k],
                decreases c.children.len() - j,
            {
                assert(c.children@.take(j + 1).drop_last() =~= c.children@.take(j as int));
                if is_kind(&c.children[j], "element") {
                    proof {
                        vstd::std_specs::vec::axiom_vec_index_decreases(n.children, ci as int);
                        vstd::std_specs::vec::axiom_vec_index_decreases(c.children, j as int);
                        assert(decreases_to!(*n => n.children));
                        assert(decreases_to!(*c => c.children));
                    }
                    let ghost before = ns;
                    let ghost out_before = out@;
                    let (k, g) = add_element(&c.children[j], src, out, Ghost(ns));
                    proof {
                        ns = g@;
                        assert forall|i: int| 0 <= i < idx implies #[trigger] out@[i] == old(out)@[i] by {
                            assert(out@[i] == out_before[i]);
                        }
                        assert forall|i: int| 0 <= i < idx implies #[trigger] ns[i] == nodes@[i] by {
                            assert(ns[i] == before[i]);
                        }
                        assert forall|i: int| idx < i < out.len() implies element_read(src@, ns, out@, i) by {
                            if i < out_before.len() {
                                assert(element_read(src@, before, out_before, i));
                                let sub = subelements(before[i]);
                                assert forall|q: int| 0 <= q < sub.len() implies (#[trigger] out@[i].children@[q])
                                    < ns.len() && ns[out@[i].children@[q] as int] == sub[q] by {
                                    assert(out@[i].children@[q] == out_before[i].children@[q]);
                                }
                            }
                        }
                    }
                    kids.push(k);
                }
                proof {
                    assert(c.children@.take(j + 1).last() == c.children@[j as int]);
                }
                j += 1;
            }
            assert(c.children@.take(c.children.len() as int) =~= c.children@);
        },
        None => {},
    }
    let e = XmlElement { name: name_of(src, n), content: text_of_element(src, n), children: kids };
    let ghost out_pre = out@;
    out.set(idx, e);
    proof {
        assert(element_read(src@, ns, out@, idx as int));
        assert forall|i: int| idx < i < out.len() implies element_read(src@, ns, out@, i) by {
            assert(element_read(src@, ns, out_pre, i));
            assert(out@[i] == out_pre[i]);
        }
        assert forall|i: int| 0 <= i < idx implies #[trigger] out@[i] == old(out)@[i] by {
            assert(out@[i] == out_pre[i]);
        }
    }
    (idx, Ghost(ns))
}

/// Reads an XML document with `tree-sitter-xml`: its elements, the root
/// element first, each with its name, its character data when its content
/// is nothing else, and its child elements; none when it does not parse or
/// has no root element.
pub fn xml_document(source: &str) -> (r: Option<XmlDocument>)
    ensures
        xml_readable(source@) ==> (r matches Some(doc) && xml_reading(source@, doc)),
        !xml_readable(source@) ==> r is None,
{
    let tree = match xml_syntax_tree(source) {
        Some(t) => t,
        None => return None,
    };
    let ri = match first_index_of(&tree.children, "element", "element", true) {
        Some(i) => i,
        None => return None,
    };
    let src = chars_of(source);
    let mut out: Vec<XmlElement> = Vec::new();
    let (_, g) = add_element(&tree.children[ri], &src, &mut out, Ghost(Seq::empty()));
    let doc = XmlDocument { elements: out };
    proof {
        assert(g@.len() > 0 && root_element(tree) == Some(g@[0]) && elements_read(source@, g@, doc.elements@));
    }
    Some(doc)
}

} // verus!
