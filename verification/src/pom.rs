//! Maven POMs: the elements of a parsed `pom.xml` read into a project model,
//! the places a version update splices, and the update itself.
use crate::cargo::first_value;
use crate::errors::SampoError;
use crate::xml_layout::{xml_document, xml_readable, xml_reading};
use crate::manifest::opt_text;
use crate::maven::{static_version, is_static_version};
use crate::npm::{apply_rewrites, push_rewrite, rewrite_views, rewritten, Rewrite};
use crate::pip::entry_views;
use crate::sorted::{insert_sorted, strictly_sorted, strs};
use crate::types::{identifier_of, PackageInfo, PackageKind};
use crate::text::{
    char_is_ws, chars_eq, chars_of, contains, contains_exec, is_ws, join2, join3, lower, owned, string_of,
    trim, trim_chars, trim_start,
};
use vstd::prelude::*;

verus! {

/// An element of a parsed XML document.
#[derive(Debug, Clone)]
pub struct XmlElement {
    /// The tag name.
    pub name: String,
    /// Where the content starts (in characters) and its text, when the
    /// content is character data alone.
    pub content: Option<(usize, String)>,
    /// The child elements, as positions in the document's element list.
    pub children: Vec<usize>,
}

/// The elements of a parsed XML document, its root element first.
#[derive(Debug, Clone)]
pub struct XmlDocument {
    pub elements: Vec<XmlElement>,
}

/// The trimmed text of a leaf element.
pub open spec fn elem_text(e: XmlElement) -> Option<Seq<char>> {
    match e.content {
        Some((_, raw)) => Some(trim(raw@)),
        None => None,
    }
}

/// The first of the children `kids`, from the `k`-th on, named `name`.
pub open spec fn child_from(elems: Seq<XmlElement>, kids: Seq<usize>, name: Seq<char>, k: int) -> Option<int>
    decreases kids.len() - k,
{
    if k < 0 || k >= kids.len() {
        None
    } else if kids[k] < elems.len() && elems[kids[k] as int].name@ == name {
        Some(kids[k] as int)
    } else {
        child_from(elems, kids, name, k + 1)
    }
}

/// The first child of element `e` named `name`.
pub open spec fn child(elems: Seq<XmlElement>, e: Option<int>, name: Seq<char>) -> Option<int> {
    match e {
        Some(i) => if 0 <= i < elems.len() {
            child_from(elems, elems[i].children@, name, 0)
        } else {
            None
        },
        None => None,
    }
}

/// The text of the first child of `e` named `name`.
pub open spec fn child_text(elems: Seq<XmlElement>, e: Option<int>, name: Seq<char>) -> Option<Seq<char>> {
    match child(elems, e, name) {
        Some(c) => elem_text(elems[c]),
        None => None,
    }
}

proof fn lemma_child_from_range(elems: Seq<XmlElement>, kids: Seq<usize>, name: Seq<char>, k: int)
    ensures
        child_from(elems, kids, name, k) matches Some(c) ==> 0 <= c < elems.len() && elems[c].name@ == name,
    decreases kids.len() - k,
{
    if 0 <= k < kids.len() && !(kids[k] < elems.len() && elems[kids[k] as int].name@ == name) {
        lemma_child_from_range(elems, kids, name, k + 1);
    }
}

/// The first child of element `e` named `name`.
fn find_child(doc: &XmlDocument, e: Option<usize>, name: &str) -> (r: Option<usize>)
    ensures
        opt_int(r) == child(doc.elements@, opt_int(e), name@),
        r matches Some(c) ==> c < doc.elements.len() && doc.elements@[c as int].name@ == name@,
{
    let i = match e {
        Some(i) => i,
        None => return None,
    };
    if i >= doc.elements.len() {
        return None;
    }
    let ghost elems = doc.elements@;
    let kids = &doc.elements[i].children;
    assert(child(elems, Some(i as int), name@) == child_from(elems, kids@, name@, 0));
    let key = chars_of(name);
    let mut k: usize = 0;
    while k < kids.len()
        invariant
            k <= kids.len(),
            i < doc.elements.len(),
            e == Some(i),
            elems == doc.elements@,
            *kids == elems[i as int].children,
            key@ == name@,
            child_from(elems, kids@, name@, 0) == child_from(elems, kids@, name@, k as int),
        decreases kids.len() - k,
    {
        let c = kids[k];
        if c < doc.elements.len() && chars_eq(&chars_of(doc.elements[c].name.as_str()), &key) {
            assert(child_from(elems, kids@, name@, k as int) == Some(c as int));
            return Some(c);
        }
        k += 1;
    }
    None
}

/// The number of leading white-space characters.
fn leading_ws(v: &Vec<char>) -> (a: usize)
    ensures
        a + trim_start(v@).len() == v.len(),
        trim_start(v@) == v@.skip(a as int),
{
    let mut a: usize = 0;
    while a < v.len() && char_is_ws(v[a])
        invariant
            a <= v.len(),
            forall|j: int| 0 <= j < a ==> is_ws(#[trigger] v@[j]),
        decreases v.len() - a,
    {
        a += 1;
    }
    proof {
        crate::text::lemma_trim_start_skip(v@, a as int);
        assert(trim_start(v@.skip(a as int)) == v@.skip(a as int));
    }
    a
}

/// A leaf element's trimmed text and where it stands, in characters.
#[derive(Debug, Clone)]
pub struct TextSpan {
    pub start: usize,
    pub end: usize,
    pub value: String,
}

/// The span of a leaf element's trimmed text (when its positions are
/// machine integers).
pub open spec fn elem_span(e: XmlElement) -> Option<(int, int, Seq<char>)> {
    match e.content {
        Some((start, raw)) => if start + raw@.len() > usize::MAX {
            None
        } else {
            let lead = raw@.len() - trim_start(raw@).len();
            Some((start + lead, start + lead + trim(raw@).len(), trim(raw@)))
        },
        None => None,
    }
}

/// A span as plain values.
pub open spec fn span_view(s: Option<TextSpan>) -> Option<(int, int, Seq<char>)> {
    match s {
        Some(t) => Some((t.start as int, t.end as int, t.value@)),
        None => None,
    }
}

/// The span of the text of the first child of `e` named `name`.
pub open spec fn child_span(elems: Seq<XmlElement>, e: Option<int>, name: Seq<char>) -> Option<(int, int, Seq<char>)> {
    match child(elems, e, name) {
        Some(c) => elem_span(elems[c]),
        None => None,
    }
}

fn text_of(doc: &XmlDocument, e: Option<usize>) -> (r: Option<String>)
    requires
        e matches Some(i) ==> i < doc.elements.len(),
    ensures
        opt_text(r) == match e {
            Some(i) => elem_text(doc.elements@[i as int]),
            None => None,
        },
{
    match e {
        Some(i) => match &doc.elements[i].content {
            Some((_, raw)) => Some(string_of(&trim_chars(&chars_of(raw.as_str())))),
            None => None,
        },
        None => None,
    }
}

fn span_of(doc: &XmlDocument, e: Option<usize>) -> (r: Option<TextSpan>)
    requires
        e matches Some(i) ==> i < doc.elements.len(),
    ensures
        span_view(r) == match e {
            Some(i) => elem_span(doc.elements@[i as int]),
            None => None,
        },
{
    match e {
        Some(i) => match &doc.elements[i].content {
            Some((start, raw)) => {
                let v = chars_of(raw.as_str());
                let lead = leading_ws(&v);
                let t = trim_chars(&v);
                proof {
                    crate::text::lemma_trim_end_len(trim_start(raw@));
                }
                if *start > usize::MAX - v.len() {
                    return None;
                }
                let s = start + lead;
                Some(TextSpan { start: s, end: s + t.len(), value: string_of(&t) })
            },
            None => None,
        },
        None => None,
    }
}

/// A position as a mathematical integer.
pub open spec fn opt_int(e: Option<usize>) -> Option<int> {
    match e {
        Some(i) => Some(i as int),
        None => None,
    }
}

fn child_text_of(doc: &XmlDocument, e: Option<usize>, name: &str) -> (r: Option<String>)
    ensures
        opt_text(r) == child_text(doc.elements@, opt_int(e), name@),
{
    let c = find_child(doc, e, name);
    text_of(doc, c)
}

/// The first `n` of the children `kids` named `name`, in order.
pub open spec fn named_kids(elems: Seq<XmlElement>, kids: Seq<usize>, name: Seq<char>, n: int) -> Seq<usize>
    decreases n,
{
    if n <= 0 {
        seq![]
    } else {
        named_kids(elems, kids, name, n - 1) + if kids[n - 1] < elems.len() && elems[kids[n - 1] as int].name@
            == name {
            seq![kids[n - 1]]
        } else {
            Seq::empty()
        }
    }
}

/// The children of element `e` named `name`, in order.
pub open spec fn kids_named(elems: Seq<XmlElement>, e: Option<int>, name: Seq<char>) -> Seq<usize> {
    match e {
        Some(i) => if 0 <= i < elems.len() {
            named_kids(elems, elems[i].children@, name, elems[i].children.len() as int)
        } else {
            seq![]
        },
        None => seq![],
    }
}

proof fn lemma_named_kids_range(elems: Seq<XmlElement>, kids: Seq<usize>, name: Seq<char>, n: int)
    requires
        n <= kids.len(),
    ensures
        forall|k: int| 0 <= k < named_kids(elems, kids, name, n).len() ==> #[trigger] named_kids(elems, kids, name, n)[k]
            < elems.len(),
    decreases n,
{
    if n > 0 {
        lemma_named_kids_range(elems, kids, name, n - 1);
        let a = named_kids(elems, kids, name, n - 1);
        let full = named_kids(elems, kids, name, n);
        assert forall|k: int| 0 <= k < full.len() implies #[trigger] full[k] < elems.len() by {
            if k < a.len() {
                assert(full[k] == a[k]);
            }
        }
    }
}

fn kids_named_of(doc: &XmlDocument, e: Option<usize>, name: &str) -> (r: Vec<usize>)
    ensures
        r@ == kids_named(doc.elements@, opt_int(e), name@),
        forall|k: int| 0 <= k < r.len() ==> #[trigger] r@[k] < doc.elements.len(),
{
    let mut r: Vec<usize> = Vec::new();
    let i = match e {
        Some(i) => i,
        None => return r,
    };
    if i >= doc.elements.len() {
        return r;
    }
    let ghost elems = doc.elements@;
    let kids = &doc.elements[i].children;
    let key = chars_of(name);
    let mut k: usize = 0;
    while k < kids.len()
        invariant
            k <= kids.len(),
            i < doc.elements.len(),
            elems == doc.elements@,
            *kids == elems[i as int].children,
            key@ == name@,
            r@ == named_kids(elems, kids@, name@, k as int),
        decreases kids.len() - k,
    {
        let c = kids[k];
        let ghost before = r@;
        if c < doc.elements.len() && chars_eq(&chars_of(doc.elements[c].name.as_str()), &key) {
            r.push(c);
        }
        assert(r@ =~= named_kids(elems, kids@, name@, k + 1));
        k += 1;
    }
    proof {
        lemma_named_kids_range(elems, kids@, name@, kids.len() as int);
    }
    r
}

/// The texts of the elements `ids` (the first `n`) that have one.
pub open spec fn texts_of(elems: Seq<XmlElement>, ids: Seq<usize>, n: int) -> Seq<Seq<char>>
    decreases n,
{
    if n <= 0 {
        seq![]
    } else {
        texts_of(elems, ids, n - 1) + match elem_text(elems[ids[n - 1] as int]) {
            Some(t) => seq![t],
            None => Seq::empty(),
        }
    }
}

/// The `<parent>` block of a POM.
#[derive(Debug, Clone)]
pub struct ParentRef {
    pub group_id: Option<String>,
    pub artifact_id: Option<String>,
    pub version: Option<String>,
    /// `<relativePath>` as written: absent, or its text (empty when it has
    /// none).
    pub relative_path: Option<String>,
}

/// A `<dependency>` of a POM.
#[derive(Debug, Clone)]
pub struct PomDep {
    pub group_id: Option<String>,
    pub artifact_id: Option<String>,
    pub scope: Option<String>,
    /// Declared under `<dependencyManagement>`.
    pub managed: bool,
}

/// What a POM declares.
#[derive(Debug, Clone)]
pub struct ParsedPom {
    pub group_id: Option<String>,
    pub artifact_id: Option<String>,
    pub version: Option<String>,
    pub parent: Option<ParentRef>,
    pub modules: Vec<String>,
    pub dependencies: Vec<PomDep>,
    /// `maven.deploy.skip` from the POM's own `<properties>`.
    pub deploy_skip: Option<bool>,
    /// The URL of the `<distributionManagement>` release repository.
    pub deploy_repository_url: Option<String>,
}

/// The project element.
pub open spec fn project() -> Option<int> {
    Some(0)
}

/// The `<dependency>` elements of `<dependencies>` and then of
/// `<dependencyManagement><dependencies>`, the latter flagged managed.
pub open spec fn dependency_elements(elems: Seq<XmlElement>) -> Seq<(usize, bool)> {
    kids_named(elems, child(elems, project(), "dependencies"@), "dependency"@).map_values(|x: usize| (x, false))
        + kids_named(
        elems,
        child(elems, child(elems, project(), "dependencyManagement"@), "dependencies"@),
        "dependency"@,
    ).map_values(|x: usize| (x, true))
}

/// `d` is what the dependency element `e` declares.
pub open spec fn dep_declared(elems: Seq<XmlElement>, e: (usize, bool), d: PomDep) -> bool {
    let at = Some(e.0 as int);
    &&& opt_text(d.group_id) == child_text(elems, at, "groupId"@)
    &&& opt_text(d.artifact_id) == child_text(elems, at, "artifactId"@)
    &&& opt_text(d.scope) == child_text(elems, at, "scope"@)
    &&& d.managed == e.1
}

/// `p` is what the `<parent>` block declares.
pub open spec fn parent_declared(elems: Seq<XmlElement>, p: Option<ParentRef>) -> bool {
    match child(elems, project(), "parent"@) {
        None => p is None,
        Some(pe) => p matches Some(r) && ({
            let at = Some(pe);
            &&& opt_text(r.group_id) == child_text(elems, at, "groupId"@)
            &&& opt_text(r.artifact_id) == child_text(elems, at, "artifactId"@)
            &&& opt_text(r.version) == child_text(elems, at, "version"@)
            &&& opt_text(r.relative_path) == match child(elems, at, "relativePath"@) {
                Some(c) => Some(
                    match elem_text(elems[c]) {
                        Some(t) => t,
                        None => seq![],
                    },
                ),
                None => None,
            }
        }),
    }
}

/// The `maven.deploy.skip` property: whether it reads `true`, in any case.
pub open spec fn deploy_skip_declared(elems: Seq<XmlElement>) -> Option<bool> {
    match child_text(elems, child(elems, project(), "properties"@), "maven.deploy.skip"@) {
        Some(v) => Some(lower(trim(v)) == "true"@),
        None => None,
    }
}

/// The release repository URL, empty when the repository names none.
pub open spec fn repository_declared(elems: Seq<XmlElement>) -> Option<Seq<char>> {
    match child(elems, child(elems, project(), "distributionManagement"@), "repository"@) {
        Some(r) => Some(
            match child_text(elems, Some(r), "url"@) {
                Some(u) => u,
                None => seq![],
            },
        ),
        None => None,
    }
}

/// `p` is what the POM whose elements are `elems` declares.
pub open spec fn pom_declared(elems: Seq<XmlElement>, p: ParsedPom) -> bool {
    let modules = kids_named(elems, child(elems, project(), "modules"@), "module"@);
    let deps = dependency_elements(elems);
    &&& opt_text(p.group_id) == child_text(elems, project(), "groupId"@)
    &&& opt_text(p.artifact_id) == child_text(elems, project(), "artifactId"@)
    &&& opt_text(p.version) == child_text(elems, project(), "version"@)
    &&& parent_declared(elems, p.parent)
    &&& strs(p.modules@) == texts_of(elems, modules, modules.len() as int)
    &&& p.dependencies.len() == deps.len()
    &&& forall|i: int| 0 <= i < deps.len() ==> dep_declared(elems, deps[i], #[trigger] p.dependencies@[i])
    &&& p.deploy_skip == deploy_skip_declared(elems)
    &&& opt_text(p.deploy_repository_url) == repository_declared(elems)
}

/// Whether the document is a POM: its root element is `<project>`.
pub open spec fn is_pom(elems: Seq<XmlElement>) -> bool {
    elems.len() > 0 && elems[0].name@ == "project"@
}

fn collect_texts(doc: &XmlDocument, ids: &Vec<usize>) -> (r: Vec<String>)
    requires
        forall|k: int| 0 <= k < ids.len() ==> #[trigger] ids@[k] < doc.elements.len(),
    ensures
        strs(r@) == texts_of(doc.elements@, ids@, ids.len() as int),
{
    let mut r: Vec<String> = Vec::new();
    let mut k: usize = 0;
    while k < ids.len()
        invariant
            k <= ids.len(),
            forall|j: int| 0 <= j < ids.len() ==> #[trigger] ids@[j] < doc.elements.len(),
            strs(r@) == texts_of(doc.elements@, ids@, k as int),
        decreases ids.len() - k,
    {
        let ghost before = r@;
        match text_of(doc, Some(ids[k])) {
            Some(t) => {
                r.push(t);
                assert(strs(r@) =~= strs(before).push(r@.last()@));
            },
            None => {},
        }
        assert(strs(r@) =~= texts_of(doc.elements@, ids@, k + 1));
        k += 1;
    }
    r
}

fn collect_deps(doc: &XmlDocument, ids: &Vec<usize>, managed: bool, out: &mut Vec<PomDep>)
    requires
        forall|k: int| 0 <= k < ids.len() ==> #[trigger] ids@[k] < doc.elements.len(),
    ensures
        final(out).len() == old(out).len() + ids.len(),
        forall|k: int| 0 <= k < old(out).len() ==> #[trigger] final(out)@[k] == old(out)@[k],
        forall|k: int|
            0 <= k < ids.len() ==> dep_declared(doc.elements@, (ids@[k], managed), #[trigger] final(out)@[old(out).len() + k]),
{
    let ghost start = out@;
    let mut k: usize = 0;
    while k < ids.len()
        invariant
            k <= ids.len(),
            forall|j: int| 0 <= j < ids.len() ==> #[trigger] ids@[j] < doc.elements.len(),
            out.len() == start.len() + k,
            forall|j: int| 0 <= j < start.len() ==> #[trigger] out@[j] == start[j],
            forall|j: int| 0 <= j < k ==> dep_declared(doc.elements@, (ids@[j], managed), #[trigger] out@[start.len() + j]),
        decreases ids.len() - k,
    {
        let at = Some(ids[k]);
        let d = PomDep {
            group_id: child_text_of(doc, at, "groupId"),
            artifact_id: child_text_of(doc, at, "artifactId"),
            scope: child_text_of(doc, at, "scope"),
            managed,
        };
        out.push(d);
        k += 1;
    }
}

/// What a POM's text declares, read from the elements `xml_document`
/// finds; `None` when it does not parse or is no POM.
pub fn parse_pom(text: &str) -> (r: Option<ParsedPom>)
    ensures
        xml_readable(text@) ==> exists|doc: XmlDocument|
            xml_reading(text@, doc) && (r is Some <==> is_pom(doc.elements@)) && (r matches Some(p) ==> pom_declared(
                doc.elements@,
                p,
            )),
        !xml_readable(text@) ==> r is None,
{
    match xml_document(text) {
        Some(doc) => {
            let r = parse_pom_node(&doc);
            proof {
                assert(xml_reading(text@, doc));
            }
            r
        },
        None => None,
    }
}

/// What a POM declares, read from its parsed elements; `None` when the root
/// element is not `<project>`.
pub fn parse_pom_node(doc: &XmlDocument) -> (r: Option<ParsedPom>)
    ensures
        r is Some <==> is_pom(doc.elements@),
        r matches Some(p) ==> pom_declared(doc.elements@, p),
{
    if doc.elements.len() == 0 || !chars_eq(&chars_of(doc.elements[0].name.as_str()), &chars_of("project")) {
        return None;
    }
    let ghost elems = doc.elements@;
    let root = Some(0usize);
    let parent_el = find_child(doc, root, "parent");
    let parent = match parent_el {
        Some(pe) => {
            let at = Some(pe);
            let rel = match find_child(doc, at, "relativePath") {
                Some(c) => Some(
                    match text_of(doc, Some(c)) {
                        Some(t) => t,
                        None => String::new(),
                    },
                ),
                None => None,
            };
            Some(
                ParentRef {
                    group_id: child_text_of(doc, at, "groupId"),
                    artifact_id: child_text_of(doc, at, "artifactId"),
                    version: child_text_of(doc, at, "version"),
                    relative_path: rel,
                },
            )
        },
        None => None,
    };
    let module_ids = kids_named_of(doc, find_child(doc, root, "modules"), "module");
    let modules = collect_texts(doc, &module_ids);
    let direct = kids_named_of(doc, find_child(doc, root, "dependencies"), "dependency");
    let managed = kids_named_of(doc, find_child(doc, find_child(doc, root, "dependencyManagement"), "dependencies"), "dependency");
    let mut dependencies: Vec<PomDep> = Vec::new();
    collect_deps(doc, &direct, false, &mut dependencies);
    let ghost mid = dependencies@;
    collect_deps(doc, &managed, true, &mut dependencies);
    let ghost deps = dependency_elements(elems);
    assert(deps =~= direct@.map_values(|x: usize| (x, false)) + managed@.map_values(|x: usize| (x, true)));
    assert(deps.len() == direct.len() + managed.len());
    assert forall|i: int| 0 <= i < deps.len() implies dep_declared(elems, deps[i], #[trigger] dependencies@[i]) by {
        if i < direct.len() {
            assert(deps[i] == (direct@[i], false));
            assert(dependencies@[i] == mid[i]);
            assert(dep_declared(elems, (direct@[i], false), mid[0 + i]));
        } else {
            assert(deps[i] == (managed@[i - direct.len()], true));
            assert(dependencies@[direct.len() + (i - direct.len())] == dependencies@[i]);
        }
    }
    let deploy_skip = match child_text_of(doc, find_child(doc, root, "properties"), "maven.deploy.skip") {
        Some(v) => {
            let t = crate::text::lower_chars(&trim_chars(&chars_of(v.as_str())));
            Some(chars_eq(&t, &chars_of("true")))
        },
        None => None,
    };
    let repository = match find_child(doc, find_child(doc, root, "distributionManagement"), "repository") {
        Some(r) => Some(
            match child_text_of(doc, Some(r), "url") {
                Some(u) => u,
                None => String::new(),
            },
        ),
        None => None,
    };
    Some(
        ParsedPom {
            group_id: child_text_of(doc, root, "groupId"),
            artifact_id: child_text_of(doc, root, "artifactId"),
            version: child_text_of(doc, root, "version"),
            parent,
            modules,
            dependencies,
            deploy_skip,
            deploy_repository_url: repository,
        },
    )
}

/// A trimmed text that names something literally: not empty, no `${`.
pub open spec fn literal(t: Seq<char>) -> bool {
    t.len() > 0 && !contains(t, "${"@)
}

/// The parent's `group/artifact` key, when both coordinates are literal
/// (the artifact may not be empty).
pub open spec fn parent_key(p: ParentRef) -> Option<Seq<char>> {
    match (p.group_id, p.artifact_id) {
        (Some(g), Some(a)) => {
            let g = trim(g@);
            let a = trim(a@);
            if g.len() == 0 || a.len() == 0 || contains(g, "${"@) {
                None
            } else {
                Some(g + "/"@ + a)
            }
        },
        _ => None,
    }
}

/// The parent's literal groupId.
pub open spec fn literal_group(p: Option<ParentRef>) -> Option<Seq<char>> {
    match p {
        Some(r) => match r.group_id {
            Some(g) => if literal(trim(g@)) {
                Some(trim(g@))
            } else {
                None
            },
            None => None,
        },
        None => None,
    }
}

/// The module's groupId: its own literal one, else the parent's.
pub open spec fn effective_group(p: ParsedPom) -> Option<Seq<char>> {
    match p.group_id {
        Some(g) => if literal(trim(g@)) {
            Some(trim(g@))
        } else {
            literal_group(p.parent)
        },
        None => literal_group(p.parent),
    }
}

/// The `<version>` text that applies: the module's own, else the parent's.
pub open spec fn effective_raw_version(p: ParsedPom) -> Option<Seq<char>> {
    match p.version {
        Some(v) => Some(v@),
        None => match p.parent {
            Some(r) => opt_text(r.version),
            None => None,
        },
    }
}

/// The `group/artifact` key of a dependency: `${project.groupId}` reads as
/// the module's groupId, `${project.parent.groupId}` and `${parent.groupId}`
/// as the parent's; any other property, or a blank, gives none.
pub open spec fn dependency_key(
    group: Option<Seq<char>>,
    artifact: Option<Seq<char>>,
    own_group: Option<Seq<char>>,
    parent_group: Option<Seq<char>>,
) -> Option<Seq<char>> {
    match artifact {
        None => None,
        Some(a) => {
            let a = trim(a);
            if a.len() == 0 || contains(a, "${"@) {
                None
            } else {
                let g = match group {
                    Some(g) => {
                        let g = trim(g);
                        if g == "${project.groupId}"@ {
                            own_group
                        } else if g == "${project.parent.groupId}"@ || g == "${parent.groupId}"@ {
                            parent_group
                        } else if literal(g) {
                            Some(g)
                        } else {
                            None
                        }
                    },
                    None => None,
                };
                match g {
                    Some(g) => Some(g + "/"@ + a),
                    None => None,
                }
            }
        },
    }
}

/// The module's own `group/artifact` key.
pub open spec fn own_key(p: ParsedPom) -> Option<Seq<char>> {
    match (effective_group(p), p.artifact_id) {
        (Some(g), Some(a)) => if literal(trim(a@)) {
            Some(g + "/"@ + trim(a@))
        } else {
            None
        },
        _ => None,
    }
}

fn literal_text(t: &Vec<char>) -> (r: bool)
    ensures
        r == literal(t@),
{
    t.len() > 0 && !contains_exec(t, &chars_of("${"))
}

impl ParentRef {
    /// The parent's `group/artifact` key.
    pub fn key(&self) -> (r: Option<String>)
        ensures
            opt_text(r) == parent_key(*self),
    {
        match (&self.group_id, &self.artifact_id) {
            (Some(g), Some(a)) => {
                let g = trim_chars(&chars_of(g.as_str()));
                let a = trim_chars(&chars_of(a.as_str()));
                if g.len() == 0 || a.len() == 0 || contains_exec(&g, &chars_of("${")) {
                    None
                } else {
                    let gs = string_of(&g);
                    let as_ = string_of(&a);
                    Some(join3(gs.as_str(), "/", as_.as_str()))
                }
            },
            _ => None,
        }
    }
}

fn literal_group_of(p: &Option<ParentRef>) -> (r: Option<String>)
    ensures
        opt_text(r) == literal_group(*p),
{
    match p {
        Some(r) => match &r.group_id {
            Some(g) => {
                let t = trim_chars(&chars_of(g.as_str()));
                if literal_text(&t) {
                    Some(string_of(&t))
                } else {
                    None
                }
            },
            None => None,
        },
        None => None,
    }
}

impl ParsedPom {
    /// The module's groupId, falling back to the parent's.
    pub fn effective_group_id(&self) -> (r: Option<String>)
        ensures
            opt_text(r) == effective_group(*self),
    {
        match &self.group_id {
            Some(g) => {
                let t = trim_chars(&chars_of(g.as_str()));
                if literal_text(&t) {
                    Some(string_of(&t))
                } else {
                    literal_group_of(&self.parent)
                }
            },
            None => literal_group_of(&self.parent),
        }
    }

    /// The module's version, falling back to the parent's.
    pub fn effective_version(&self) -> (r: crate::maven::EffectiveVersion)
        ensures
            match effective_raw_version(*self) {
                Some(raw) => crate::maven::class_view(r) == crate::maven::version_class(raw),
                None => r == crate::maven::EffectiveVersion::Absent,
            },
    {
        match &self.version {
            Some(v) => crate::maven::classify_version(v.as_str()),
            None => match &self.parent {
                Some(p) => match &p.version {
                    Some(v) => crate::maven::classify_version(v.as_str()),
                    None => crate::maven::EffectiveVersion::Absent,
                },
                None => crate::maven::EffectiveVersion::Absent,
            },
        }
    }

    /// The module's own `group/artifact` key.
    pub fn own_key(&self) -> (r: Option<String>)
        ensures
            opt_text(r) == own_key(*self),
    {
        let g = match self.effective_group_id() {
            Some(g) => g,
            None => return None,
        };
        match &self.artifact_id {
            Some(a) => {
                let t = trim_chars(&chars_of(a.as_str()));
                if literal_text(&t) {
                    let at = string_of(&t);
                    Some(join3(g.as_str(), "/", at.as_str()))
                } else {
                    None
                }
            },
            None => None,
        }
    }

    /// The `group/artifact` keys of the dependencies that have one, each
    /// flagged when it does not order publishing (test scope, or a
    /// `<dependencyManagement>` pin).
    pub fn dependency_keys(&self) -> (r: Vec<(String, bool)>)
        ensures
            key_pairs(r@) == declared_keys(*self, self.dependencies.len() as int),
    {
        let own = self.effective_group_id();
        let parent = literal_group_of(&self.parent);
        let mut r: Vec<(String, bool)> = Vec::new();
        let mut i: usize = 0;
        while i < self.dependencies.len()
            invariant
                i <= self.dependencies.len(),
                opt_text(own) == effective_group(*self),
                opt_text(parent) == literal_group(self.parent),
                key_pairs(r@) == declared_keys(*self, i as int),
            decreases self.dependencies.len() - i,
        {
            let d = &self.dependencies[i];
            let ghost before = r@;
            match dependency_key_of(&d.group_id, &d.artifact_id, &own, &parent) {
                Some(k) => {
                    let test = match &d.scope {
                        Some(sc) => chars_eq(&trim_chars(&chars_of(sc.as_str())), &chars_of("test")),
                        None => false,
                    };
                    let pair = (k, d.managed || test);
                    r.push(pair);
                    assert(key_pairs(r@) =~= key_pairs(before).push((pair.0@, pair.1)));
                },
                None => {},
            }
            assert(key_pairs(r@) =~= declared_keys(*self, i + 1));
            i += 1;
        }
        r
    }
}

/// Key pairs as plain values.
pub open spec fn key_pairs(v: Seq<(String, bool)>) -> Seq<(Seq<char>, bool)> {
    v.map_values(|p: (String, bool)| (p.0@, p.1))
}

/// Whether a dependency does not order publishing: a `<dependencyManagement>`
/// pin, or test-scoped.
pub open spec fn ordering_exempt(d: PomDep) -> bool {
    d.managed || (d.scope matches Some(sc) && trim(sc@) == "test"@)
}

/// The keys of the first `n` dependencies that have one, with their
/// exemption flags.
pub open spec fn declared_keys(p: ParsedPom, n: int) -> Seq<(Seq<char>, bool)>
    decreases n,
{
    if n <= 0 {
        seq![]
    } else {
        let d = p.dependencies@[n - 1];
        declared_keys(p, n - 1) + match dependency_key(
            opt_text(d.group_id),
            opt_text(d.artifact_id),
            effective_group(p),
            literal_group(p.parent),
        ) {
            Some(k) => seq![(k, ordering_exempt(d))],
            None => Seq::empty(),
        }
    }
}

fn dependency_key_of(
    group: &Option<String>,
    artifact: &Option<String>,
    own_group: &Option<String>,
    parent_group: &Option<String>,
) -> (r: Option<String>)
    ensures
        opt_text(r) == dependency_key(opt_text(*group), opt_text(*artifact), opt_text(*own_group), opt_text(*parent_group)),
{
    let a = match artifact {
        Some(a) => trim_chars(&chars_of(a.as_str())),
        None => return None,
    };
    if a.len() == 0 || contains_exec(&a, &chars_of("${")) {
        return None;
    }
    let g: Option<String> = match group {
        Some(g) => {
            let t = trim_chars(&chars_of(g.as_str()));
            if chars_eq(&t, &chars_of("${project.groupId}")) {
                match own_group {
                    Some(o) => Some(owned(o.as_str())),
                    None => None,
                }
            } else if chars_eq(&t, &chars_of("${project.parent.groupId}")) || chars_eq(&t, &chars_of("${parent.groupId}")) {
                match parent_group {
                    Some(o) => Some(owned(o.as_str())),
                    None => None,
                }
            } else if literal_text(&t) {
                Some(string_of(&t))
            } else {
                None
            }
        },
        None => None,
    };
    match g {
        Some(g) => {
            let at = string_of(&a);
            Some(join3(g.as_str(), "/", at.as_str()))
        },
        None => None,
    }
}

/// The `<parent>` block's key and `<version>` span.
#[derive(Debug, Clone)]
pub struct ParentSpans {
    pub key: Option<String>,
    pub version: Option<TextSpan>,
}

/// A dependency's key and `<version>` span.
#[derive(Debug, Clone)]
pub struct DepSpans {
    pub key: Option<String>,
    pub version: Option<TextSpan>,
}

/// Everything a version update of a POM may splice.
#[derive(Debug, Clone)]
pub struct PomSpans {
    pub own_version: Option<TextSpan>,
    pub parent: Option<ParentSpans>,
    pub dependencies: Vec<DepSpans>,
}

/// `s` locates the splice targets of the POM whose elements are `elems`
/// and whose declarations are `p`.
pub open spec fn spans_located(elems: Seq<XmlElement>, p: ParsedPom, s: PomSpans) -> bool {
    let deps = dependency_elements(elems);
    &&& span_view(s.own_version) == child_span(elems, project(), "version"@)
    &&& match child(elems, project(), "parent"@) {
        None => s.parent is None,
        Some(pe) => s.parent matches Some(ps) && opt_text(ps.key) == match p.parent {
            Some(r) => parent_key(r),
            None => None,
        } && span_view(ps.version) == child_span(elems, Some(pe), "version"@),
    }
    &&& s.dependencies.len() == deps.len()
    &&& forall|i: int|
        0 <= i < deps.len() ==> {
            let ds = #[trigger] s.dependencies@[i];
            let at = Some(deps[i].0 as int);
            &&& opt_text(ds.key) == dependency_key(
                child_text(elems, at, "groupId"@),
                child_text(elems, at, "artifactId"@),
                effective_group(p),
                literal_group(p.parent),
            )
            &&& span_view(ds.version) == child_span(elems, at, "version"@)
        }
}

fn child_span_of(doc: &XmlDocument, e: Option<usize>, name: &str) -> (r: Option<TextSpan>)
    ensures
        span_view(r) == child_span(doc.elements@, opt_int(e), name@),
{
    let c = find_child(doc, e, name);
    span_of(doc, c)
}

/// Locate the splice targets of a POM: its own `<version>`, the `<parent>`
/// block, and each dependency's `<version>`; `None` when it is no POM.
pub fn locate_pom_spans(doc: &XmlDocument) -> (r: Option<PomSpans>)
    ensures
        r is Some <==> is_pom(doc.elements@),
        r matches Some(s) ==> exists|p: ParsedPom| pom_declared(doc.elements@, p) && spans_located(doc.elements@, p, s),
{
    let parsed = match parse_pom_node(doc) {
        Some(p) => p,
        None => return None,
    };
    let ghost elems = doc.elements@;
    let root = Some(0usize);
    let own_group = parsed.effective_group_id();
    let parent_group = literal_group_of(&parsed.parent);
    let own_version = child_span_of(doc, root, "version");
    let parent = match find_child(doc, root, "parent") {
        Some(pe) => Some(
            ParentSpans {
                key: match &parsed.parent {
                    Some(r) => r.key(),
                    None => None,
                },
                version: child_span_of(doc, Some(pe), "version"),
            },
        ),
        None => None,
    };
    let direct = kids_named_of(doc, find_child(doc, root, "dependencies"), "dependency");
    let managed = kids_named_of(doc, find_child(doc, find_child(doc, root, "dependencyManagement"), "dependencies"), "dependency");
    let ghost deps = dependency_elements(elems);
    assert(deps =~= direct@.map_values(|x: usize| (x, false)) + managed@.map_values(|x: usize| (x, true)));
    let mut all: Vec<usize> = Vec::new();
    let mut k: usize = 0;
    while k < direct.len()
        invariant
            k <= direct.len(),
            all@ == direct@.take(k as int),
        decreases direct.len() - k,
    {
        all.push(direct[k]);
        assert(direct@.take(k + 1) =~= direct@.take(k as int).push(direct@[k as int]));
        k += 1;
    }
    k = 0;
    while k < managed.len()
        invariant
            k <= managed.len(),
            direct.len() <= all.len(),
            all@ == direct@ + managed@.take(k as int),
        decreases managed.len() - k,
    {
        all.push(managed[k]);
        assert(managed@.take(k + 1) =~= managed@.take(k as int).push(managed@[k as int]));
        k += 1;
    }
    assert(all@ =~= direct@ + managed@);
    let mut dependencies: Vec<DepSpans> = Vec::new();
    let mut i: usize = 0;
    while i < all.len()
        invariant
            i <= all.len(),
            all@ == direct@ + managed@,
            deps.len() == all.len(),
            forall|j: int| 0 <= j < all.len() ==> #[trigger] deps[j].0 == all@[j],
            opt_text(own_group) == effective_group(parsed),
            opt_text(parent_group) == literal_group(parsed.parent),
            dependencies.len() == i,
            forall|j: int|
                0 <= j < i ==> {
                    let ds = #[trigger] dependencies@[j];
                    let at = Some(deps[j].0 as int);
                    &&& opt_text(ds.key) == dependency_key(
                        child_text(elems, at, "groupId"@),
                        child_text(elems, at, "artifactId"@),
                        effective_group(parsed),
                        literal_group(parsed.parent),
                    )
                    &&& span_view(ds.version) == child_span(elems, at, "version"@)
                },
            elems == doc.elements@,
        decreases all.len() - i,
    {
        let at = Some(all[i]);
        let group = child_text_of(doc, at, "groupId");
        let artifact = child_text_of(doc, at, "artifactId");
        let ds = DepSpans {
            key: dependency_key_of(&group, &artifact, &own_group, &parent_group),
            version: child_span_of(doc, at, "version"),
        };
        dependencies.push(ds);
        i += 1;
    }
    let spans = PomSpans { own_version, parent, dependencies };
    assert(spans_located(elems, parsed, spans));
    Some(spans)
}

/// The planned version of `key`.
pub open spec fn planned(entries: Seq<(Seq<char>, Seq<char>)>, key: Seq<char>) -> Option<Seq<char>> {
    first_value(entries, key, entries.len() as int)
}

/// Why a module whose version is inherited is planned apart from its parent.
pub open spec fn inherited_mismatch(path: Seq<char>, target: Seq<char>, parent_version: Seq<char>) -> Seq<char> {
    "Manifest "@ + path + " inherits its version from its parent POM, but is planned for "@ + target
        + " while the parent releases "@ + parent_version
        + "; align them via a fixed group or declare an explicit <version>"@
}

/// Why a module whose version is inherited is planned without its parent.
pub open spec fn inherited_alone(path: Seq<char>) -> Seq<char> {
    "Manifest "@ + path
        + " inherits its version from its parent POM; release the parent to the same version (e.g. via a fixed group) or declare an explicit <version>"@
}

/// The rewrite of the module's own version to `target`, or why it cannot
/// move: a property or range stands there, or it is inherited from a parent
/// that is not released to the same version.
pub open spec fn own_version_rewrites(
    s: PomSpans,
    target: Option<Seq<char>>,
    entries: Seq<(Seq<char>, Seq<char>)>,
    path: Seq<char>,
) -> Result<Seq<Rewrite>, Seq<char>> {
    match target {
        None => Ok(seq![]),
        Some(t) => match s.own_version {
            Some(sp) => if static_version(sp.value@) {
                if sp.value@ != t {
                    Ok(seq![(sp.start as int, sp.end as int, t)])
                } else {
                    Ok(seq![])
                }
            } else {
                Err("Manifest "@ + path + " has no static <version> to update (found `"@ + sp.value@ + "`)"@)
            },
            None => {
                let pt = match s.parent {
                    Some(p) => match p.key {
                        Some(k) => planned(entries, k@),
                        None => None,
                    },
                    None => None,
                };
                match pt {
                    Some(pv) => if pv == t {
                        Ok(seq![])
                    } else {
                        Err(inherited_mismatch(path, t, pv))
                    },
                    None => Err(inherited_alone(path)),
                }
            },
        },
    }
}

/// The version a reference to `key` at `version` is rewritten to: the
/// planned one, when the reference is a literal that differs.
pub open spec fn reference_update(key: Option<String>, version: Option<TextSpan>, entries: Seq<(Seq<char>, Seq<char>)>) -> Option<(Rewrite, Seq<char>)> {
    match (key, version) {
        (Some(k), Some(sp)) => match planned(entries, k@) {
            Some(nv) => if static_version(sp.value@) && sp.value@ != nv {
                Some(((sp.start as int, sp.end as int, nv), k@))
            } else {
                None
            },
            None => None,
        },
        _ => None,
    }
}

/// The rewrites of the references among the first `n` dependencies.
pub open spec fn dep_rewrites(deps: Seq<DepSpans>, entries: Seq<(Seq<char>, Seq<char>)>, n: int) -> Seq<Rewrite>
    decreases n,
{
    if n <= 0 {
        seq![]
    } else {
        dep_rewrites(deps, entries, n - 1) + match reference_update(deps[n - 1].key, deps[n - 1].version, entries) {
            Some((rw, _)) => seq![rw],
            None => Seq::empty(),
        }
    }
}

/// The keys of the rewritten references among the first `n` dependencies.
pub open spec fn dep_updated(deps: Seq<DepSpans>, entries: Seq<(Seq<char>, Seq<char>)>, n: int) -> Set<Seq<char>>
    decreases n,
{
    if n <= 0 {
        Set::empty()
    } else {
        let rest = dep_updated(deps, entries, n - 1);
        match reference_update(deps[n - 1].key, deps[n - 1].version, entries) {
            Some((_, k)) => rest.insert(k),
            None => rest,
        }
    }
}

/// The rewrite of the `<parent>` reference, if any.
pub open spec fn parent_update(s: PomSpans, entries: Seq<(Seq<char>, Seq<char>)>) -> Option<(Rewrite, Seq<char>)> {
    match s.parent {
        Some(p) => reference_update(p.key, p.version, entries),
        None => None,
    }
}

/// All rewrites of an update whose own version needs `own`.
pub open spec fn pom_rewrites(s: PomSpans, own: Seq<Rewrite>, entries: Seq<(Seq<char>, Seq<char>)>) -> Seq<Rewrite> {
    own + match parent_update(s, entries) {
        Some((rw, _)) => seq![rw],
        None => Seq::empty(),
    } + dep_rewrites(s.dependencies@, entries, s.dependencies.len() as int)
}

/// The keys whose references are rewritten.
pub open spec fn pom_updated(s: PomSpans, entries: Seq<(Seq<char>, Seq<char>)>) -> Set<Seq<char>> {
    let d = dep_updated(s.dependencies@, entries, s.dependencies.len() as int);
    match parent_update(s, entries) {
        Some((_, k)) => d.insert(k),
        None => d,
    }
}

fn reference_update_of(key: &Option<String>, version: &Option<TextSpan>, entries: &[(String, String)]) -> (r: Option<((usize, usize, String), String)>)
    ensures
        match reference_update(*key, *version, entry_views(entries@)) {
            Some((rw, k)) => r matches Some(x) && (x.0.0 as int, x.0.1 as int, x.0.2@) == rw && x.1@ == k,
            None => r is None,
        },
{
    match (key, version) {
        (Some(k), Some(sp)) => match crate::cargo::first_value_of(entries, k.as_str()) {
            Some(nv) => {
                if is_static_version(sp.value.as_str()) && !chars_eq(&chars_of(sp.value.as_str()), &chars_of(nv.as_str())) {
                    Some(((sp.start, sp.end, nv), owned(k.as_str())))
                } else {
                    None
                }
            },
            None => None,
        },
        _ => None,
    }
}

/// What a rewrite of a POM's text gives, `spans` locating its values
/// (`None`: it is no POM).
pub open spec fn pom_update(
    spans: Option<PomSpans>,
    manifest_path: Seq<char>,
    input: Seq<char>,
    new_pkg_version: Option<&str>,
    new_version_by_name: Seq<(String, String)>,
    r: Result<(String, Vec<(String, String)>), SampoError>,
) -> bool {
    match spans {
        None => r matches Err(SampoError::Release(m)) && m@ == "Manifest "@ + manifest_path + " is not a valid Maven POM"@,
        Some(s) => {
            let e = entry_views(new_version_by_name);
            match own_version_rewrites(s, crate::cargo::opt_chars(new_pkg_version), e, manifest_path) {
                Err(m) => r matches Err(SampoError::Release(x)) && x@ == m,
                Ok(own) => r matches Ok(out) && out.0@ == rewritten(input, pom_rewrites(s, own, e), 0)
                    && strictly_sorted(strs(out.1@.map_values(|p: (String, String)| p.0)))
                    && strs(out.1@.map_values(|p: (String, String)| p.0)).to_set() == pom_updated(s, e)
                    && forall|i: int| 0 <= i < out.1.len() ==> planned(e, (#[trigger] out.1@[i]).0@) == Some(out.1@[i].1@),
            }
        },
    }
}

/// The spans of a POM's text: those of the document `xml_document` reads,
/// when it is a POM.
pub fn pom_spans(input: &str) -> (r: Option<PomSpans>)
    ensures
        xml_readable(input@) ==> exists|doc: XmlDocument|
            xml_reading(input@, doc) && (r is Some <==> is_pom(doc.elements@)) && (r matches Some(s) ==> exists|
                p: ParsedPom,
            | pom_declared(doc.elements@, p) && spans_located(doc.elements@, p, s)),
        !xml_readable(input@) ==> r is None,
{
    match xml_document(input) {
        Some(doc) => {
            let r = locate_pom_spans(&doc);
            proof {
                assert(xml_reading(input@, doc));
            }
            r
        },
        None => None,
    }
}

/// Rewrite the versions in a POM's text, located by `pom_spans` (see
/// `rewrite_manifest_versions`): a text that is no POM is refused.
pub fn update_manifest_versions(
    manifest_path: &str,
    input: &str,
    new_pkg_version: Option<&str>,
    new_version_by_name: &[(String, String)],
) -> (r: Result<(String, Vec<(String, String)>), SampoError>)
    ensures
        xml_readable(input@) ==> exists|doc: XmlDocument|
            xml_reading(input@, doc) && if is_pom(doc.elements@) {
                exists|p: ParsedPom, s: PomSpans|
                    pom_declared(doc.elements@, p) && spans_located(doc.elements@, p, s) && pom_update(
                        Some(s),
                        manifest_path@,
                        input@,
                        new_pkg_version,
                        new_version_by_name@,
                        r,
                    )
            } else {
                r matches Err(SampoError::Release(m)) && m@ == "Manifest "@ + manifest_path@ + " is not a valid Maven POM"@
            },
        !xml_readable(input@) ==> (r matches Err(SampoError::Release(m)) && m@ == "Manifest "@ + manifest_path@
            + " is not a valid Maven POM"@),
{
    let spans = pom_spans(input);
    let r = rewrite_manifest_versions(manifest_path, input, &spans, new_pkg_version, new_version_by_name);
    proof {
        if xml_readable(input@) {
            let doc = choose|doc: XmlDocument|
                xml_reading(input@, doc) && (spans is Some <==> is_pom(doc.elements@)) && (spans matches Some(s)
                    ==> exists|p: ParsedPom| pom_declared(doc.elements@, p) && spans_located(doc.elements@, p, s));
            if is_pom(doc.elements@) {
                let s = spans->Some_0;
                let p = choose|p: ParsedPom| pom_declared(doc.elements@, p) && spans_located(doc.elements@, p, s);
                assert(pom_declared(doc.elements@, p) && spans_located(doc.elements@, p, s));
            }
            assert(xml_reading(input@, doc));
        }
    }
    r
}

/// Rewrite the versions in a POM's text: the module's own `<version>` (when
/// `new_pkg_version` is given) and the literal versions of `<parent>` and of
/// the dependencies that `new_version_by_name` plans, keeping the rest of
/// the text. `spans` locates them in `input` (`None`: it is no POM).
/// Returns the new text and the updated keys, in key order, with their
/// planned versions.
pub fn rewrite_manifest_versions(
    manifest_path: &str,
    input: &str,
    spans: &Option<PomSpans>,
    new_pkg_version: Option<&str>,
    new_version_by_name: &[(String, String)],
) -> (r: Result<(String, Vec<(String, String)>), SampoError>)
    ensures
        pom_update(*spans, manifest_path@, input@, new_pkg_version, new_version_by_name@, r),
{
    let s = match spans {
        None => return Err(SampoError::Release(join3("Manifest ", manifest_path, " is not a valid Maven POM"))),
        Some(s) => s,
    };
    let ghost e = entry_views(new_version_by_name@);
    let mut rs: Vec<(usize, usize, String)> = Vec::new();
    assert(rewrite_views(rs@) =~= Seq::<Rewrite>::empty());
    match new_pkg_version {
        Some(t) => match &s.own_version {
            Some(sp) => {
                if is_static_version(sp.value.as_str()) {
                    if !chars_eq(&chars_of(sp.value.as_str()), &chars_of(t)) {
                        push_rewrite(&mut rs, (sp.start, sp.end, owned(t)));
                        assert(rewrite_views(rs@) =~= seq![(sp.start as int, sp.end as int, t@)]);
                    }
                } else {
                    let a = join3("Manifest ", manifest_path, " has no static <version> to update (found `");
                    return Err(SampoError::Release(join3(a.as_str(), sp.value.as_str(), "`)")));
                }
            },
            None => {
                let pt = match &s.parent {
                    Some(p) => match &p.key {
                        Some(k) => crate::cargo::first_value_of(new_version_by_name, k.as_str()),
                        None => None,
                    },
                    None => None,
                };
                match pt {
                    Some(pv) => {
                        assert(e.len() == new_version_by_name.len());
                        if !chars_eq(&chars_of(pv.as_str()), &chars_of(t)) {
                            let a = join3("Manifest ", manifest_path, " inherits its version from its parent POM, but is planned for ");
                            let b = join3(a.as_str(), t, " while the parent releases ");
                            let m = join3(b.as_str(), pv.as_str(), "; align them via a fixed group or declare an explicit <version>");
                            return Err(SampoError::Release(m));
                        }
                    },
                    None => {
                        return Err(
                            SampoError::Release(
                                join3(
                                    "Manifest ",
                                    manifest_path,
                                    " inherits its version from its parent POM; release the parent to the same version (e.g. via a fixed group) or declare an explicit <version>",
                                ),
                            ),
                        );
                    },
                }
            },
        },
        None => {},
    }
    let ghost own = rewrite_views(rs@);
    assert(own_version_rewrites(*s, crate::cargo::opt_chars(new_pkg_version), e, manifest_path@) == Ok::<Seq<Rewrite>, Seq<char>>(own));
    let mut keys: Vec<String> = Vec::new();
    assert(strs(keys@).to_set() =~= Set::empty());
    match &s.parent {
        Some(p) => match reference_update_of(&p.key, &p.version, new_version_by_name) {
            Some((rw, k)) => {
                push_rewrite(&mut rs, rw);
                insert_sorted(&mut keys, k);
            },
            None => {},
        },
        None => {},
    }
    let ghost after_parent = rewrite_views(rs@);
    assert(after_parent == own + match parent_update(*s, e) {
        Some((rw, _)) => seq![rw],
        None => Seq::<Rewrite>::empty(),
    });
    let ghost pkeys = strs(keys@).to_set();
    let mut i: usize = 0;
    while i < s.dependencies.len()
        invariant
            i <= s.dependencies.len(),
            e == entry_views(new_version_by_name@),
            strictly_sorted(strs(keys@)),
            rewrite_views(rs@) == after_parent + dep_rewrites(s.dependencies@, e, i as int),
            strs(keys@).to_set() == pkeys + dep_updated(s.dependencies@, e, i as int),
        decreases s.dependencies.len() - i,
    {
        let d = &s.dependencies[i];
        let ghost before = rewrite_views(rs@);
        let ghost kb = strs(keys@).to_set();
        match reference_update_of(&d.key, &d.version, new_version_by_name) {
            Some((rw, k)) => {
                push_rewrite(&mut rs, rw);
                insert_sorted(&mut keys, k);
            },
            None => {},
        }
        assert(rewrite_views(rs@) =~= after_parent + dep_rewrites(s.dependencies@, e, i + 1));
        assert(strs(keys@).to_set() =~= pkeys + dep_updated(s.dependencies@, e, i + 1));
        i += 1;
    }
    assert(pkeys + dep_updated(s.dependencies@, e, s.dependencies.len() as int) =~= pom_updated(*s, e));
    let mut applied: Vec<(String, String)> = Vec::new();
    let mut j: usize = 0;
    while j < keys.len()
        invariant
            j <= keys.len(),
            e == entry_views(new_version_by_name@),
            strs(keys@).to_set() == pom_updated(*s, e),
            applied.len() == j,
            forall|q: int| 0 <= q < j ==> (#[trigger] applied@[q]).0@ == keys@[q]@,
            forall|q: int| 0 <= q < j ==> planned(e, (#[trigger] applied@[q]).0@) == Some(applied@[q].1@),
        decreases keys.len() - j,
    {
        assert(pom_updated(*s, e).contains(keys@[j as int]@)) by {
            assert(strs(keys@)[j as int] == keys@[j as int]@);
        }
        proof {
            lemma_updated_planned(*s, e, keys@[j as int]@);
        }
        let v = match crate::cargo::first_value_of(new_version_by_name, keys[j].as_str()) {
            Some(v) => v,
            None => String::new(),
        };
        applied.push((owned(keys[j].as_str()), v));
        j += 1;
    }
    assert(strs(applied@.map_values(|p: (String, String)| p.0)) =~= strs(keys@));
    Ok((apply_rewrites(input, &rs), applied))
}

proof fn lemma_dep_updated_planned(deps: Seq<DepSpans>, e: Seq<(Seq<char>, Seq<char>)>, n: int, k: Seq<char>)
    requires
        dep_updated(deps, e, n).contains(k),
    ensures
        planned(e, k) is Some,
    decreases n,
{
    if n > 0 {
        match reference_update(deps[n - 1].key, deps[n - 1].version, e) {
            Some((_, k2)) => if k2 != k {
                lemma_dep_updated_planned(deps, e, n - 1, k);
            },
            None => lemma_dep_updated_planned(deps, e, n - 1, k),
        }
    }
}

proof fn lemma_updated_planned(s: PomSpans, e: Seq<(Seq<char>, Seq<char>)>, k: Seq<char>)
    requires
        pom_updated(s, e).contains(k),
    ensures
        planned(e, k) is Some,
{
    match parent_update(s, e) {
        Some((_, k2)) => if k2 != k {
            lemma_dep_updated_planned(s.dependencies@, e, s.dependencies.len() as int, k);
        },
        None => lemma_dep_updated_planned(s.dependencies@, e, s.dependencies.len() as int, k),
    }
}

/// The version a POM states for the planned dependency `dep_name`: its
/// `<parent>` block's when that is the dependency, else that of the first
/// dependency with that key that states one (a versionless usage does not
/// hide the `<dependencyManagement>` pin).
pub open spec fn dependency_version_value(s: PomSpans, dep_name: Seq<char>) -> Option<Seq<char>> {
    match s.parent {
        Some(p) if opt_text(p.key) == Some(dep_name) => match p.version {
            Some(sp) => Some(sp.value@),
            None => None,
        },
        _ => first_dep_version(s.dependencies@, dep_name, 0),
    }
}

/// The version of the first dependency, from the `i`-th on, keyed
/// `dep_name` and stating one.
pub open spec fn first_dep_version(deps: Seq<DepSpans>, dep_name: Seq<char>, i: int) -> Option<Seq<char>>
    decreases deps.len() - i,
{
    if i < 0 || i >= deps.len() {
        None
    } else if opt_text(deps[i].key) == Some(dep_name) && deps[i].version is Some {
        Some(deps[i].version->Some_0.value@)
    } else {
        first_dep_version(deps, dep_name, i + 1)
    }
}

/// The version value a POM (located by `spans`, `None` when it is no POM)
/// gives the dependency `dep_name`.
pub fn find_dependency_version(spans: &Option<PomSpans>, dep_name: &str) -> (r: Option<String>)
    ensures
        opt_text(r) == match *spans {
            Some(s) => dependency_version_value(s, dep_name@),
            None => None,
        },
{
    let s = match spans {
        Some(s) => s,
        None => return None,
    };
    let key = chars_of(dep_name);
    match &s.parent {
        Some(p) => {
            let hit = match &p.key {
                Some(k) => chars_eq(&chars_of(k.as_str()), &key),
                None => false,
            };
            if hit {
                return match &p.version {
                    Some(sp) => Some(owned(sp.value.as_str())),
                    None => None,
                };
            }
        },
        None => {},
    }
    let mut i: usize = 0;
    while i < s.dependencies.len()
        invariant
            i <= s.dependencies.len(),
            key@ == dep_name@,
            *spans == Some(*s),
            dependency_version_value(*s, dep_name@) == first_dep_version(s.dependencies@, dep_name@, 0),
            first_dep_version(s.dependencies@, dep_name@, 0) == first_dep_version(s.dependencies@, dep_name@, i as int),
        decreases s.dependencies.len() - i,
    {
        let d = &s.dependencies[i];
        let hit = match &d.key {
            Some(k) => chars_eq(&chars_of(k.as_str()), &key),
            None => false,
        };
        if hit {
            match &d.version {
                Some(sp) => {
                    return Some(owned(sp.value.as_str()));
                },
                None => {},
            }
        }
        i += 1;
    }
    None
}

/// The warning for a module left out of discovery.
pub open spec fn skip_warning(name: Seq<char>, path: Seq<char>, reason: Seq<char>) -> Seq<char> {
    "Warning: skipping '"@ + name + "' ("@ + path + "): "@ + reason
}

/// A reactor module's `group/artifact` name and version, or the warning
/// that leaves it out: no artifactId, no groupId (own or inherited), no
/// version, or one Sampo cannot manage.
pub open spec fn pom_member(path: Seq<char>, p: ParsedPom) -> Result<(Seq<char>, Seq<char>), Seq<char>> {
    let artifact = match p.artifact_id {
        Some(a) => trim(a@),
        None => seq![],
    };
    if artifact.len() == 0 {
        Err("Warning: skipping "@ + path + ": it declares no <artifactId>"@)
    } else {
        match effective_group(p) {
            None => Err(skip_warning(artifact, path, "it declares no <groupId> (own or inherited from <parent>)"@)),
            Some(g) => {
                let name = g + "/"@ + artifact;
                match effective_raw_version(p) {
                    None => Err(skip_warning(name, path, "it declares no <version> (own or inherited)"@)),
                    Some(raw) => {
                        let (c, v, why) = crate::maven::version_class(raw);
                        if c == 0 {
                            Err(skip_warning(name, path, "it declares no <version> (own or inherited)"@))
                        } else if c == 1 {
                            Err(skip_warning(name, path, "its version `"@ + v + "` "@ + why))
                        } else {
                            Ok((name, v))
                        }
                    },
                }
            },
        }
    }
}

/// The name of module `i`, when discovery keeps it.
pub open spec fn kept_name(reactor: Seq<(String, String, ParsedPom)>, i: int) -> Option<Seq<char>> {
    match pom_member(reactor[i].1@, reactor[i].2) {
        Ok((n, _)) => Some(n),
        Err(_) => None,
    }
}

/// The names of the first `n` reactor modules discovery keeps.
pub open spec fn names_upto(reactor: Seq<(String, String, ParsedPom)>, n: int) -> Set<Seq<char>> {
    Set::new(|m: Seq<char>| exists|i: int| 0 <= i < n && #[trigger] kept_name(reactor, i) == Some(m))
}

/// The names of the reactor modules discovery keeps.
pub open spec fn member_names(reactor: Seq<(String, String, ParsedPom)>) -> Set<Seq<char>> {
    names_upto(reactor, reactor.len() as int)
}

/// The positions, among the first `n` modules, of those discovery keeps.
pub open spec fn kept(reactor: Seq<(String, String, ParsedPom)>, n: int) -> Seq<int>
    decreases n,
{
    if n <= 0 {
        seq![]
    } else {
        kept(reactor, n - 1) + if pom_member(reactor[n - 1].1@, reactor[n - 1].2) is Ok {
            seq![n - 1]
        } else {
            Seq::empty()
        }
    }
}

/// The warnings for the first `n` modules.
pub open spec fn skip_warnings(reactor: Seq<(String, String, ParsedPom)>, n: int) -> Seq<Seq<char>>
    decreases n,
{
    if n <= 0 {
        seq![]
    } else {
        skip_warnings(reactor, n - 1) + match pom_member(reactor[n - 1].1@, reactor[n - 1].2) {
            Err(w) => seq![w],
            Ok(_) => Seq::empty(),
        }
    }
}

/// The identifiers of the kept modules that module `p`, named `name`, must
/// be published after: its parent, and each dependency that orders
/// publishing (not test-scoped, not a `<dependencyManagement>` pin).
pub open spec fn maven_internal_ids(p: ParsedPom, name: Seq<char>, names: Set<Seq<char>>) -> Set<Seq<char>> {
    let by_parent = match p.parent {
        Some(r) => match parent_key(r) {
            Some(k) => if k != name && names.contains(k) {
                set![identifier_of(PackageKind::Maven, k)]
            } else {
                Set::empty()
            },
            None => Set::empty(),
        },
        None => Set::empty(),
    };
    let keys = declared_keys(p, p.dependencies.len() as int);
    by_parent + Set::new(
        |id: Seq<char>|
            exists|k: int|
                0 <= k < keys.len() && (#[trigger] keys[k]).0 != name && names.contains(keys[k].0) && !keys[k].1 && id
                    == identifier_of(PackageKind::Maven, keys[k].0),
    )
}

/// The identifiers of the kept modules that module `p` refers to without
/// being ordered by them: its test-scoped dependencies and its
/// `<dependencyManagement>` pins.
pub open spec fn maven_internal_dev_ids(p: ParsedPom, name: Seq<char>, names: Set<Seq<char>>) -> Set<Seq<char>> {
    let keys = declared_keys(p, p.dependencies.len() as int);
    Set::new(
        |id: Seq<char>|
            exists|k: int|
                0 <= k < keys.len() && (#[trigger] keys[k]).0 != name && names.contains(keys[k].0) && keys[k].1 && id
                    == identifier_of(PackageKind::Maven, keys[k].0),
    )
}

/// `pkg` is the package of reactor module `i`.
pub open spec fn maven_package(reactor: Seq<(String, String, ParsedPom)>, i: int, pkg: PackageInfo) -> bool {
    let m = pom_member(reactor[i].1@, reactor[i].2);
    &&& m is Ok
    &&& pkg.name@ == (m->Ok_0).0
    &&& pkg.version@ == (m->Ok_0).1
    &&& pkg.identifier@ == identifier_of(PackageKind::Maven, (m->Ok_0).0)
    &&& pkg.path@ == reactor[i].0@
    &&& pkg.kind == PackageKind::Maven
    &&& strictly_sorted(strs(pkg.internal_deps@))
    &&& strs(pkg.internal_deps@).to_set() == maven_internal_ids(reactor[i].2, (m->Ok_0).0, member_names(reactor))
    &&& strictly_sorted(strs(pkg.internal_dev_deps@))
    &&& strs(pkg.internal_dev_deps@).to_set() == maven_internal_dev_ids(reactor[i].2, (m->Ok_0).0, member_names(reactor))
}

fn pom_member_of(path: &str, p: &ParsedPom) -> (r: Result<(String, String), String>)
    ensures
        match pom_member(path@, *p) {
            Ok((n, v)) => r matches Ok(x) && x.0@ == n && x.1@ == v,
            Err(w) => r matches Err(x) && x@ == w,
        },
{
    let artifact = match &p.artifact_id {
        Some(a) => trim_chars(&chars_of(a.as_str())),
        None => Vec::new(),
    };
    if artifact.len() == 0 {
        return Err(join3("Warning: skipping ", path, ": it declares no <artifactId>"));
    }
    let a = string_of(&artifact);
    let g = match p.effective_group_id() {
        Some(g) => g,
        None => {
            let x = join3("Warning: skipping '", a.as_str(), "' (");
            let y = join3(x.as_str(), path, "): ");
            return Err(join2(y.as_str(), "it declares no <groupId> (own or inherited from <parent>)"));
        },
    };
    let name = join3(g.as_str(), "/", a.as_str());
    let x = join3("Warning: skipping '", name.as_str(), "' (");
    let head = join3(x.as_str(), path, "): ");
    match p.effective_version() {
        crate::maven::EffectiveVersion::Static(v) => Ok((name, v)),
        crate::maven::EffectiveVersion::Unmanageable(raw, why) => {
            let b = join3("its version `", raw.as_str(), "` ");
            let c = join2(b.as_str(), why.as_str());
            Err(join2(head.as_str(), c.as_str()))
        },
        crate::maven::EffectiveVersion::Absent => Err(join2(head.as_str(), "it declares no <version> (own or inherited)")),
    }
}

fn name_listed(names: &Vec<String>, k: &str) -> (r: bool)
    ensures
        r == strs(names@).contains(k@),
{
    let key = chars_of(k);
    let mut i: usize = 0;
    while i < names.len()
        invariant
            i <= names.len(),
            key@ == k@,
            forall|j: int| 0 <= j < i ==> strs(names@)[j] != k@,
        decreases names.len() - i,
    {
        if chars_eq(&chars_of(names[i].as_str()), &key) {
            assert(strs(names@)[i as int] == k@);
            return true;
        }
        i += 1;
    }
    false
}

/// The packages of a Maven reactor: each module `(directory, POM path,
/// parsed POM)` in order, those left out named in warnings. A package
/// depends on its parent and on the dependencies that order publishing,
/// among the kept modules.
pub fn discover_members(reactor: &[(String, String, ParsedPom)]) -> (r: (Vec<PackageInfo>, Vec<String>))
    ensures
        strs(r.1@) == skip_warnings(reactor@, reactor.len() as int),
        r.0.len() == kept(reactor@, reactor.len() as int).len(),
        forall|k: int|
            0 <= k < r.0.len() ==> maven_package(reactor@, kept(reactor@, reactor.len() as int)[k], #[trigger] r.0@[k]),
{
    let mut outcomes: Vec<Option<(String, String)>> = Vec::new();
    let mut names: Vec<String> = Vec::new();
    let mut warnings: Vec<String> = Vec::new();
    let mut i: usize = 0;
    while i < reactor.len()
        invariant
            i <= reactor.len(),
            outcomes.len() == i,
            forall|j: int| 0 <= j < i ==> match #[trigger] pom_member(reactor@[j].1@, reactor@[j].2) {
                Ok((n, v)) => outcomes@[j] matches Some(x) && x.0@ == n && x.1@ == v,
                Err(_) => outcomes@[j] is None,
            },
            strs(names@).to_set() == names_upto(reactor@, i as int),
            strs(warnings@) == skip_warnings(reactor@, i as int),
        decreases reactor.len() - i,
    {
        let ghost nb = names@;
        let ghost wb = warnings@;
        let ghost ob = outcomes@;
        match pom_member_of(reactor[i].1.as_str(), &reactor[i].2) {
            Ok((n, v)) => {
                let ghost nv = n@;
                names.push(owned(n.as_str()));
                outcomes.push(Some((n, v)));
                assert(strs(names@) =~= strs(nb).push(nv));
                proof {
                    strs(nb).lemma_push_to_set_commute(nv);
                }
                assert(kept_name(reactor@, i as int) == Some(nv));
                assert(names_upto(reactor@, i + 1) =~= names_upto(reactor@, i as int).insert(nv)) by {
                    assert forall|m: Seq<char>| names_upto(reactor@, i + 1).contains(m) implies names_upto(
                        reactor@,
                        i as int,
                    ).insert(nv).contains(m) by {
                        let j = choose|j: int| 0 <= j < i + 1 && #[trigger] kept_name(reactor@, j) == Some(m);
                        if j < i {
                            assert(names_upto(reactor@, i as int).contains(m));
                        }
                    }
                    assert forall|m: Seq<char>| names_upto(reactor@, i as int).insert(nv).contains(m) implies names_upto(
                        reactor@,
                        i + 1,
                    ).contains(m) by {
                        if m == nv {
                            assert(kept_name(reactor@, i as int) == Some(m));
                        } else {
                            let j = choose|j: int| 0 <= j < i && #[trigger] kept_name(reactor@, j) == Some(m);
                            assert(kept_name(reactor@, j) == Some(m));
                        }
                    }
                }
            },
            Err(w) => {
                outcomes.push(None);
                assert(names_upto(reactor@, i + 1) =~= names_upto(reactor@, i as int)) by {
                    assert forall|m: Seq<char>| names_upto(reactor@, i + 1).contains(m) implies names_upto(reactor@, i as int).contains(m) by {
                        let j = choose|j: int| 0 <= j < i + 1 && #[trigger] kept_name(reactor@, j) == Some(m);
                        assert(j != i);
                    }
                }
                warnings.push(w);
                assert(strs(warnings@) =~= strs(wb).push(warnings@.last()@));
            },
        }
        assert forall|j: int| 0 <= j < i + 1 implies match #[trigger] pom_member(reactor@[j].1@, reactor@[j].2) {
            Ok((n, v)) => outcomes@[j] matches Some(x) && x.0@ == n && x.1@ == v,
            Err(_) => outcomes@[j] is None,
        } by {
            if j < i {
                assert(outcomes@[j] == ob[j]);
            }
        }
        i += 1;
    }
    let mut packages: Vec<PackageInfo> = Vec::new();
    let ghost all = member_names(reactor@);
    i = 0;
    while i < reactor.len()
        invariant
            i <= reactor.len(),
            outcomes.len() == reactor.len(),
            all == member_names(reactor@),
            strs(names@).to_set() == all,
            forall|j: int| 0 <= j < reactor.len() ==> match #[trigger] pom_member(reactor@[j].1@, reactor@[j].2) {
                Ok((n, v)) => outcomes@[j] matches Some(x) && x.0@ == n && x.1@ == v,
                Err(_) => outcomes@[j] is None,
            },
            packages.len() == kept(reactor@, i as int).len(),
            forall|k: int| 0 <= k < packages.len() ==> maven_package(reactor@, kept(reactor@, i as int)[k], #[trigger] packages@[k]),
        decreases reactor.len() - i,
    {
        let ghost kb = kept(reactor@, i as int);
        let ghost pb = packages@;
        assert(kept(reactor@, i + 1) == kb + if pom_member(reactor@[i as int].1@, reactor@[i as int].2) is Ok {
            seq![i as int]
        } else {
            Seq::<int>::empty()
        });
        match &outcomes[i] {
            Some((name, version)) => {
                let p = &reactor[i].2;
                let mut deps: Vec<String> = Vec::new();
                assert(strs(deps@).to_set() =~= Set::empty());
                match &p.parent {
                    Some(r) => match r.key() {
                        Some(k) => {
                            if !chars_eq(&chars_of(k.as_str()), &chars_of(name.as_str())) && name_listed(&names, k.as_str()) {
                                insert_sorted(&mut deps, PackageInfo::dependency_identifier(PackageKind::Maven, k.as_str()));
                            }
                        },
                        None => {},
                    },
                    None => {},
                }
                let ghost by_parent = strs(deps@).to_set();
                assert(by_parent =~= match p.parent {
                    Some(r) => match parent_key(r) {
                        Some(k) => if k != name@ && all.contains(k) {
                            set![identifier_of(PackageKind::Maven, k)]
                        } else {
                            Set::<Seq<char>>::empty()
                        },
                        None => Set::<Seq<char>>::empty(),
                    },
                    None => Set::<Seq<char>>::empty(),
                });
                let keys = p.dependency_keys();
                let ghost kv = declared_keys(*p, p.dependencies.len() as int);
                let mut dev: Vec<String> = Vec::new();
                assert(strs(dev@).to_set() =~= Set::empty());
                let mut j: usize = 0;
                while j < keys.len()
                    invariant
                        j <= keys.len(),
                        key_pairs(keys@) == kv,
                        strs(names@).to_set() == all,
                        strictly_sorted(strs(dev@)),
                        strs(dev@).to_set() == Set::new(
                            |id: Seq<char>|
                                exists|k: int|
                                    0 <= k < j && (#[trigger] kv[k]).0 != name@ && all.contains(kv[k].0) && kv[k].1 && id
                                        == identifier_of(PackageKind::Maven, kv[k].0),
                        ),
                        strictly_sorted(strs(deps@)),
                        strs(deps@).to_set() == by_parent + Set::new(
                            |id: Seq<char>|
                                exists|k: int|
                                    0 <= k < j && (#[trigger] kv[k]).0 != name@ && all.contains(kv[k].0) && !kv[k].1 && id
                                        == identifier_of(PackageKind::Maven, kv[k].0),
                        ),
                    decreases keys.len() - j,
                {
                    let ghost before = strs(deps@).to_set();
                    assert(kv[j as int] == (keys@[j as int].0@, keys@[j as int].1));
                    let k = &keys[j].0;
                    if !keys[j].1 && !chars_eq(&chars_of(k.as_str()), &chars_of(name.as_str())) && name_listed(&names, k.as_str()) {
                        let id = PackageInfo::dependency_identifier(PackageKind::Maven, k.as_str());
                        insert_sorted(&mut deps, id);
                    }
                    let ghost dev_before = strs(dev@).to_set();
                    if keys[j].1 && !chars_eq(&chars_of(k.as_str()), &chars_of(name.as_str())) && name_listed(&names, k.as_str()) {
                        let id = PackageInfo::dependency_identifier(PackageKind::Maven, k.as_str());
                        insert_sorted(&mut dev, id);
                    }
                    assert(strs(dev@).to_set() =~= Set::new(
                        |id: Seq<char>|
                            exists|k: int|
                                0 <= k < j + 1 && (#[trigger] kv[k]).0 != name@ && all.contains(kv[k].0) && kv[k].1 && id
                                    == identifier_of(PackageKind::Maven, kv[k].0),
                    ));
                    assert(strs(deps@).to_set() =~= by_parent + Set::new(
                        |id: Seq<char>|
                            exists|k: int|
                                0 <= k < j + 1 && (#[trigger] kv[k]).0 != name@ && all.contains(kv[k].0) && !kv[k].1 && id
                                    == identifier_of(PackageKind::Maven, kv[k].0),
                    ));
                    j += 1;
                }
                assert(kv.len() == keys.len());
                let pkg = PackageInfo {
                    name: owned(name.as_str()),
                    identifier: PackageInfo::dependency_identifier(PackageKind::Maven, name.as_str()),
                    version: owned(version.as_str()),
                    path: owned(reactor[i].0.as_str()),
                    internal_deps: deps,
                    internal_dev_deps: dev,
                    kind: PackageKind::Maven,
                };
                assert(strs(pkg.internal_deps@).to_set() =~= maven_internal_ids(*p, name@, all));
                assert(strs(pkg.internal_dev_deps@).to_set() =~= maven_internal_dev_ids(*p, name@, all));
                packages.push(pkg);
                assert forall|k: int| 0 <= k < packages.len() implies maven_package(reactor@, kept(reactor@, i + 1)[k], #[trigger] packages@[k]) by {
                    if k < pb.len() {
                        assert(packages@[k] == pb[k]);
                        assert(kept(reactor@, i + 1)[k] == kb[k]);
                    }
                }
            },
            None => {
                assert(kept(reactor@, i + 1) =~= kb);
            },
        }
        i += 1;
    }
    (packages, warnings)
}

/// Whether a POM may be published, given whether `maven.deploy.skip`
/// applies to it (own or inherited): it must name its artifact and have a
/// static version; a skipped deploy makes it private.
pub open spec fn pom_publishable(path: Seq<char>, parsed: Option<ParsedPom>, deploy_skip: bool) -> Result<bool, Seq<char>> {
    match parsed {
        None => Err("Manifest "@ + path + " is not a valid Maven POM"@),
        Some(p) => {
            let artifact = match p.artifact_id {
                Some(a) => trim(a@),
                None => seq![],
            };
            if artifact.len() == 0 {
                Err("Manifest "@ + path + " is missing an <artifactId>"@)
            } else {
                match effective_raw_version(p) {
                    None => Err("Manifest "@ + path + " is missing a version field"@),
                    Some(raw) => {
                        let (c, v, why) = crate::maven::version_class(raw);
                        if c == 0 {
                            Err("Manifest "@ + path + " is missing a version field"@)
                        } else if c == 1 {
                            Err("Manifest "@ + path + " cannot be published because its version `"@ + v + "` "@ + why)
                        } else {
                            Ok(!deploy_skip)
                        }
                    },
                }
            }
        },
    }
}

/// Whether a POM may be published (see `pom_publishable`).
pub fn is_publishable(manifest_path: &str, parsed: &Option<ParsedPom>, deploy_skip: bool) -> (r: Result<bool, SampoError>)
    ensures
        match pom_publishable(manifest_path@, *parsed, deploy_skip) {
            Ok(b) => r == Ok::<bool, SampoError>(b),
            Err(m) => r matches Err(SampoError::Publish(x)) && x@ == m,
        },
{
    let p = match parsed {
        None => return Err(SampoError::Publish(join3("Manifest ", manifest_path, " is not a valid Maven POM"))),
        Some(p) => p,
    };
    let artifact = match &p.artifact_id {
        Some(a) => trim_chars(&chars_of(a.as_str())),
        None => Vec::new(),
    };
    if artifact.len() == 0 {
        return Err(SampoError::Publish(join3("Manifest ", manifest_path, " is missing an <artifactId>")));
    }
    match p.effective_version() {
        crate::maven::EffectiveVersion::Static(_) => Ok(!deploy_skip),
        crate::maven::EffectiveVersion::Absent => Err(
            SampoError::Publish(join3("Manifest ", manifest_path, " is missing a version field")),
        ),
        crate::maven::EffectiveVersion::Unmanageable(raw, why) => {
            let a = join3("Manifest ", manifest_path, " cannot be published because its version `");
            let b = join3(a.as_str(), raw.as_str(), "` ");
            Err(SampoError::Publish(join2(b.as_str(), why.as_str())))
        },
    }
}

/// Where the in-tree parent POM lives, relative to the module's directory:
/// its `<relativePath>` (trimmed), by default `../pom.xml`; none without a
/// parent or when the path is emptied (the parent comes from a repository).
pub open spec fn parent_location(p: ParsedPom) -> Option<Seq<char>> {
    match p.parent {
        None => None,
        Some(r) => match r.relative_path {
            Some(rel) => if trim(rel@).len() == 0 {
                None
            } else {
                Some(trim(rel@))
            },
            None => Some("../pom.xml"@),
        },
    }
}

/// Where the in-tree parent POM of `parsed` lives (see `parent_location`).
pub fn parent_pom_location(parsed: &ParsedPom) -> (r: Option<String>)
    ensures
        opt_text(r) == parent_location(*parsed),
{
    match &parsed.parent {
        None => None,
        Some(r) => match &r.relative_path {
            Some(rel) => {
                let t = trim_chars(&chars_of(rel.as_str()));
                if t.len() == 0 {
                    None
                } else {
                    Some(string_of(&t))
                }
            },
            None => Some(owned("../pom.xml")),
        },
    }
}

/// Whether the POM found at a parent location is the declared parent: its
/// own key is the one the child expects. Otherwise the parent comes from a
/// repository and the walk up the chain stops.
pub fn is_declared_parent(expected_key: &Option<String>, candidate: &ParsedPom) -> (r: bool)
    ensures
        r == (opt_text(*expected_key) is Some && own_key(*candidate) == opt_text(*expected_key)),
{
    match expected_key {
        None => false,
        Some(k) => match candidate.own_key() {
            Some(o) => chars_eq(&chars_of(o.as_str()), &chars_of(k.as_str())),
            None => false,
        },
    }
}

/// How a module's version links to its parent: it inherits the parent's
/// when it has a `<parent>` block and no `<version>` of its own.
pub fn version_link(parsed: &ParsedPom) -> (r: crate::maven::VersionLink)
    ensures
        r.inherits == (parsed.version is None && parsed.parent is Some),
        opt_text(r.parent_key) == match parsed.parent {
            Some(p) => parent_key(p),
            None => None,
        },
{
    let parent_key = match &parsed.parent {
        Some(p) => p.key(),
        None => None,
    };
    crate::maven::VersionLink { inherits: parsed.version.is_none() && parsed.parent.is_some(), parent_key }
}

/// The POM a `<module>` entry names, given the entry joined to the
/// reactor directory (`target`) and whether that is a file: a directory's
/// `pom.xml`, or the file itself when it is named `pom.xml`; any other file
/// is skipped with a warning.
pub open spec fn module_pom(target: Seq<char>, is_file: bool) -> Result<Seq<char>, Seq<char>> {
    if is_file {
        if crate::paths::file_name(target) == Some("pom.xml"@) {
            Ok(target)
        } else {
            Err("Warning: skipping module "@ + target
                + ": Sampo only manages modules whose manifest is named `pom.xml`"@)
        }
    } else {
        Ok(target + "/pom.xml"@)
    }
}

/// The POM a `<module>` entry names (see `module_pom`).
pub fn module_manifest(target: &str, is_file: bool) -> (r: Result<String, String>)
    ensures
        match module_pom(target@, is_file) {
            Ok(p) => r matches Ok(x) && x@ == p,
            Err(w) => r matches Err(x) && x@ == w,
        },
{
    if is_file {
        let named = match crate::paths::file_name_of(target) {
            Some(n) => chars_eq(&n, &chars_of("pom.xml")),
            None => false,
        };
        if named {
            Ok(owned(target))
        } else {
            Err(join3("Warning: skipping module ", target, ": Sampo only manages modules whose manifest is named `pom.xml`"))
        }
    } else {
        Ok(join2(target, "/pom.xml"))
    }
}

/// What a walk up a POM's in-tree parents for a setting does with the POM
/// it reached.
#[derive(Debug)]
pub enum ParentWalkStep {
    /// The setting is made here: this is the answer.
    Found(bool),
    /// The walk ends without an answer (an external parent, or none).
    Stop,
    /// Read the POM at `location`, relative to this POM's directory, which
    /// must declare the coordinates `expected`.
    Follow { location: String, expected: Option<String> },
}

/// Whether a deploy URL is one of Maven Central's: the Portal and the
/// legacy staging service (under sonatype domains), or the repository hosts.
pub open spec fn is_central_url(url: Seq<char>) -> bool {
    let u = trim(url);
    contains(u, "sonatype."@) || contains(u, "repo.maven.apache.org"@) || contains(u, "repo1.maven.org"@)
}

/// Whether a deploy URL is one of Maven Central's (see `is_central_url`).
pub fn central_url(url: &str) -> (r: bool)
    ensures
        r == is_central_url(url@),
{
    let u = trim_chars(&chars_of(url));
    contains_exec(&u, &chars_of("sonatype.")) || contains_exec(&u, &chars_of("repo.maven.apache.org")) || contains_exec(
        &u,
        &chars_of("repo1.maven.org"),
    )
}

/// What a POM says of the two settings the walks look for:
/// `maven.deploy.skip`, and (`private_repository`) whether its release
/// repository is other than Maven Central.
pub open spec fn setting_of(pom: ParsedPom, private_repository: bool) -> Option<bool> {
    if private_repository {
        match pom.deploy_repository_url {
            Some(u) => Some(!is_central_url(u@)),
            None => None,
        }
    } else {
        pom.deploy_skip
    }
}

/// The most parents a walk up a POM's in-tree parents reads.
pub const MAX_PARENT_HOPS: usize = 10;

/// One step of the walk up a POM's in-tree parents for a setting (see
/// `setting_of`), for `pom` reached as the module itself (`is_module`) or as
/// the candidate for a parent that must have the coordinates `expected`: a
/// candidate with other coordinates is an external parent, which ends the
/// walk; the nearest POM that makes the setting gives the answer; else the
/// walk goes on to the POM's own parent, when it names one.
pub fn parent_walk_step(expected: &Option<String>, pom: &ParsedPom, is_module: bool, private_repository: bool) -> (r:
    ParentWalkStep)
    ensures
        if !is_module && !(opt_text(*expected) is Some && own_key(*pom) == opt_text(*expected)) {
            r is Stop
        } else {
            match setting_of(*pom, private_repository) {
                Some(b) => r == ParentWalkStep::Found(b),
                None => match parent_location(*pom) {
                    None => r is Stop,
                    Some(loc) => r matches ParentWalkStep::Follow { location, expected: next } && location@ == loc
                        && opt_text(next) == match pom.parent {
                        Some(p) => parent_key(p),
                        None => None,
                    },
                },
            }
        },
{
    if !is_module && !is_declared_parent(expected, pom) {
        return ParentWalkStep::Stop;
    }
    let setting = if private_repository {
        match &pom.deploy_repository_url {
            Some(u) => Some(!central_url(u.as_str())),
            None => None,
        }
    } else {
        pom.deploy_skip
    };
    match setting {
        Some(b) => ParentWalkStep::Found(b),
        None => match parent_pom_location(pom) {
            None => ParentWalkStep::Stop,
            Some(location) => {
                let next = match &pom.parent {
                    Some(p) => p.key(),
                    None => None,
                };
                ParentWalkStep::Follow { location, expected: next }
            },
        },
    }
}

/// `rw` replaces the version of `dep`, a literal (no `${..}` property, no
/// range), by the different version planned for its key.
pub open spec fn literal_rewrite(dep: DepSpans, entries: Seq<(Seq<char>, Seq<char>)>, rw: Rewrite) -> bool {
    match (dep.key, dep.version) {
        (Some(k), Some(sp)) => {
            &&& static_version(sp.value@)
            &&& planned(entries, k@) == Some(rw.2)
            &&& sp.value@ != rw.2
            &&& rw.0 == sp.start
            &&& rw.1 == sp.end
        },
        _ => false,
    }
}

/// A dependency reference is only ever rewritten where its version is a
/// literal, to the different version planned for its key: each rewrite
/// among the first `n` dependencies is such a rewrite of one of them.
pub proof fn law_only_literal_versions_rewritten(deps: Seq<DepSpans>, entries: Seq<(Seq<char>, Seq<char>)>, n: int, i: int)
    requires
        0 <= i < dep_rewrites(deps, entries, n).len(),
    ensures
        exists|j: int| 0 <= j < n && #[trigger] literal_rewrite(deps[j], entries, dep_rewrites(deps, entries, n)[i]),
    decreases n,
{
    if n <= 0 {
        assert(dep_rewrites(deps, entries, n).len() == 0);
    } else {
        let a = dep_rewrites(deps, entries, n - 1);
        let w = dep_rewrites(deps, entries, n);
        if i < a.len() {
            law_only_literal_versions_rewritten(deps, entries, n - 1, i);
            let j = choose|j: int| 0 <= j < n - 1 && #[trigger] literal_rewrite(deps[j], entries, a[i]);
            assert(w[i] == a[i]);
            assert(literal_rewrite(deps[j], entries, w[i]));
        } else {
            assert(reference_update(deps[n - 1].key, deps[n - 1].version, entries) is Some);
            assert(literal_rewrite(deps[n - 1], entries, w[i]));
        }
    }
}

} // verus!
