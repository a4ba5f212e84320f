//! Python packaging rules: PEP 508 dependency specifiers, PEP 503 name
//! normalisation and PEP 440 version specifiers.
use crate::errors::SampoError;
use crate::toml_layout::{pyproject_fields, pyproject_layout, toml_syntax};
use crate::parse::{parse_toml, toml_document};
use crate::paths::{clean, clean_path, join_path, joined};
use crate::text::{all_digits, char_is_alnum, char_is_digit, char_lower, chars_eq, chars_of, concat, contains, contains_exec, copy_chars, ends_with, ends_with_exec, find, find_exec, first_in, first_in_exec, has_char, is_alnum, is_digit, join3, lower, lower_chars, lower_char, owned, parse_u64, parse_u64_exec, rfind, rfind_exec, slice, split, split_exec, starts_with, starts_with_exec, string_of, strip_prefix, strip_prefix_exec, trim, trim_chars, views};
use crate::tree::{field, field_of, list_of, text_of, Value};
use crate::types::{identifier_of, CheckOutcome, ConstraintCheckResult, PackageInfo, PackageKind};
use crate::errors::WorkspaceError;
use crate::sorted::{insert_sorted, strictly_sorted, strs};
use crate::version::{below_next_major, below_next_minor, bound, in_range, le, lt, parts_triple, parts_triple_exec, version_eq, version_le, version_lt, Triple};
use vstd::prelude::*;

verus! {

// ---------------------------------------------------------------------------
// Operators
// ---------------------------------------------------------------------------

/// A PEP 508 version comparison operator.
#[derive(Debug, Clone, Copy, PartialEq, Eq)]
pub enum VersionOperator {
    GreaterOrEqual,
    LessOrEqual,
    Equal,
    Compatible,
    NotEqual,
    Greater,
    Less,
}

/// How an operator is written.
pub open spec fn op_text(op: VersionOperator) -> Seq<char> {
    match op {
        VersionOperator::GreaterOrEqual => seq!['>', '='],
        VersionOperator::LessOrEqual => seq!['<', '='],
        VersionOperator::Equal => seq!['=', '='],
        VersionOperator::Compatible => seq!['~', '='],
        VersionOperator::NotEqual => seq!['!', '='],
        VersionOperator::Greater => seq!['>'],
        VersionOperator::Less => seq!['<'],
    }
}

/// The operators in the order they are tried: two-character ones first.
pub open spec fn operators() -> Seq<VersionOperator> {
    seq![
        VersionOperator::GreaterOrEqual,
        VersionOperator::LessOrEqual,
        VersionOperator::Equal,
        VersionOperator::Compatible,
        VersionOperator::NotEqual,
        VersionOperator::Greater,
        VersionOperator::Less,
    ]
}

impl VersionOperator {
    /// How the operator is written.
    pub fn as_str(self) -> (r: &'static str)
        ensures
            r@ == op_text(self),
    {
        match self {
            VersionOperator::GreaterOrEqual => {
                proof {
                    reveal_strlit(">=");
                }
                ">="
            },
            VersionOperator::LessOrEqual => {
                proof {
                    reveal_strlit("<=");
                }
                "<="
            },
            VersionOperator::Equal => {
                proof {
                    reveal_strlit("==");
                }
                "=="
            },
            VersionOperator::Compatible => {
                proof {
                    reveal_strlit("~=");
                }
                "~="
            },
            VersionOperator::NotEqual => {
                proof {
                    reveal_strlit("!=");
                }
                "!="
            },
            VersionOperator::Greater => {
                proof {
                    reveal_strlit(">");
                }
                ">"
            },
            VersionOperator::Less => {
                proof {
                    reveal_strlit("<");
                }
                "<"
            },
        }
    }

    /// All operators, in the order they are tried when reading a specifier.
    pub fn all() -> (r: Vec<VersionOperator>)
        ensures
            r@ == operators(),
    {
        let r = vec![
            VersionOperator::GreaterOrEqual,
            VersionOperator::LessOrEqual,
            VersionOperator::Equal,
            VersionOperator::Compatible,
            VersionOperator::NotEqual,
            VersionOperator::Greater,
            VersionOperator::Less,
        ];
        assert(r@ =~= operators());
        r
    }
}

fn op_chars(op: VersionOperator) -> (r: Vec<char>)
    ensures
        r@ == op_text(op),
{
    chars_of(op.as_str())
}

// ---------------------------------------------------------------------------
// PEP 503 names
// ---------------------------------------------------------------------------

pub open spec fn is_separator(c: char) -> bool {
    c == '-' || c == '_' || c == '.'
}

/// Reading `s` left to right: the lower-cased text with each run of
/// separators after the first letter written as one `-`, and whether `s`
/// ends inside a separator run.
pub open spec fn collapse_separators(s: Seq<char>) -> (Seq<char>, bool)
    decreases s.len(),
{
    if s.len() == 0 {
        (seq![], false)
    } else {
        let (r, in_run) = collapse_separators(s.drop_last());
        let c = s.last();
        if is_separator(c) {
            if !in_run && r.len() > 0 {
                (r.push('-'), true)
            } else {
                (r, true)
            }
        } else {
            (r.push(lower_char(c)), false)
        }
    }
}

/// The PEP 503 form of a name: ASCII lower case, every run of `.`, `-`, `_`
/// written as a single `-`, with no separator at either end.
pub open spec fn pep503_name(s: Seq<char>) -> Seq<char> {
    let r = collapse_separators(s).0;
    if r.len() > 0 && r.last() == '-' {
        r.drop_last()
    } else {
        r
    }
}

fn pep503_chars(v: &Vec<char>) -> (r: Vec<char>)
    ensures
        r@ == pep503_name(v@),
{
    let mut out: Vec<char> = Vec::new();
    let mut in_run = false;
    let mut i: usize = 0;
    while i < v.len()
        invariant
            i <= v.len(),
            collapse_separators(v@.take(i as int)) == (out@, in_run),
        decreases v.len() - i,
    {
        assert(v@.take(i + 1).drop_last() =~= v@.take(i as int));
        assert(v@.take(i + 1).last() == v@[i as int]);
        let c = v[i];
        if c == '-' || c == '_' || c == '.' {
            if !in_run && out.len() > 0 {
                out.push('-');
            }
            in_run = true;
        } else {
            out.push(char_lower(c));
            in_run = false;
        }
        i += 1;
    }
    assert(v@.take(v.len() as int) =~= v@);
    if out.len() > 0 && out[out.len() - 1] == '-' {
        out.pop();
    }
    out
}

/// Normalize a Python package name for PEP 503 comparison.
pub fn normalize_package_name(name: &str) -> (r: String)
    ensures
        r@ == pep503_name(name@),
{
    string_of(&pep503_chars(&chars_of(name)))
}

// ---------------------------------------------------------------------------
// PEP 508 dependency specifiers
// ---------------------------------------------------------------------------

/// The characters that end the name in a dependency specifier.
pub open spec fn name_terminators() -> Seq<char> {
    seq!['>', '<', '=', '!', '~', '[', ';', ' ', '@']
}

/// The characters an operator can start with.
pub open spec fn operator_starts() -> Seq<char> {
    seq!['>', '<', '=', '!', '~']
}

/// The package name of a dependency specifier: the trimmed text before the
/// first operator, extras bracket, marker, space or `@`.
pub open spec fn package_name(spec: Seq<char>) -> Option<Seq<char>> {
    let t = trim(spec);
    let n = trim(t.take(first_in(t, name_terminators())));
    if t.len() == 0 || n.len() == 0 {
        None
    } else {
        Some(n)
    }
}

pub open spec fn opt_chars(o: Option<Vec<char>>) -> Option<Seq<char>> {
    match o {
        Some(v) => Some(v@),
        None => None,
    }
}

pub open spec fn opt_string(o: Option<String>) -> Option<Seq<char>> {
    match o {
        Some(v) => Some(v@),
        None => None,
    }
}

fn package_name_chars(s: &Vec<char>) -> (r: Option<Vec<char>>)
    ensures
        opt_chars(r) == package_name(s@),
{
    let t = trim_chars(s);
    if t.len() == 0 {
        return None;
    }
    let stops = vec!['>', '<', '=', '!', '~', '[', ';', ' ', '@'];
    assert(stops@ =~= name_terminators());
    let end = first_in_exec(&t, &stops);
    let head = slice(&t, 0, end);
    assert(head@ =~= t@.take(end as int));
    let n = trim_chars(&head);
    if n.len() == 0 {
        None
    } else {
        Some(n)
    }
}

/// Extract the package name from a PEP 508 dependency specifier.
pub fn extract_package_name(spec: &str) -> (r: Option<String>)
    ensures
        opt_string(r) == package_name(spec@),
{
    match package_name_chars(&chars_of(spec)) {
        Some(n) => Some(string_of(&n)),
        None => None,
    }
}

/// The text after the extras of a version part (after the first `]` when a
/// `[` comes before it), or else after the name.
pub open spec fn after_extras(vp: Seq<char>) -> Seq<char> {
    let plain = vp.skip(first_in(vp, operator_starts()));
    match (find(vp, seq!['[']), find(vp, seq![']'])) {
        (Some(a), Some(b)) => if a < b {
            vp.skip(b + 1)
        } else {
            plain
        },
        _ => plain,
    }
}

fn after_extras_chars(vp: &Vec<char>) -> (r: Vec<char>)
    ensures
        r@ == after_extras(vp@),
{
    let open = vec!['['];
    let close = vec![']'];
    assert(open@ =~= seq!['['] && close@ =~= seq![']']);
    let ops = vec!['>', '<', '=', '!', '~'];
    assert(ops@ =~= operator_starts());
    let a = find_exec(vp, &open);
    let b = find_exec(vp, &close);
    match (a, b) {
        (Some(a), Some(b)) => {
            proof {
                crate::text::lemma_find(vp@, close@);
            }
            assert(b + 1 <= vp.len());
            if a < b {
                let r = slice(vp, b + 1, vp.len());
                assert(r@ =~= vp@.skip(b + 1));
                return r;
            }
        },
        _ => {},
    }
    let k = first_in_exec(vp, &ops);
    let r = slice(vp, k, vp.len());
    assert(r@ =~= vp@.skip(k as int));
    r
}

/// A simple version token: non-empty, made of ASCII letters, digits and `. - _ + *`.
pub open spec fn token_char(c: char) -> bool {
    is_alnum(c) || c == '.' || c == '-' || c == '_' || c == '+' || c == '*'
}

pub open spec fn valid_version_token(s: Seq<char>) -> bool {
    s.len() > 0 && forall|i: int| 0 <= i < s.len() ==> token_char(#[trigger] s[i])
}

fn valid_token_chars(s: &Vec<char>) -> (r: bool)
    ensures
        r == valid_version_token(s@),
{
    if s.len() == 0 {
        return false;
    }
    let mut i: usize = 0;
    while i < s.len()
        invariant
            i <= s.len(),
            forall|j: int| 0 <= j < i ==> token_char(#[trigger] s@[j]),
        decreases s.len() - i,
    {
        let c = s[i];
        if !(char_is_alnum(c) || c == '.' || c == '-' || c == '_' || c == '+' || c == '*') {
            return false;
        }
        i += 1;
    }
    true
}

/// Whether `s` looks like a simple version token.
pub fn is_valid_version_token(s: &str) -> (r: bool)
    ensures
        r == valid_version_token(s@),
{
    valid_token_chars(&chars_of(s))
}

/// The version part with the version after `op` replaced by `new_version`,
/// keeping everything before the operator; `None` when the current version
/// is already `new_version` or is not a simple token.
pub open spec fn replaced_spec(
    vp: Seq<char>,
    op: VersionOperator,
    current: Seq<char>,
    new_version: Seq<char>,
) -> Option<Seq<char>> {
    if current == new_version || !valid_version_token(current) {
        None
    } else {
        match find(vp, op_text(op)) {
            Some(k) => Some(vp.take(k) + op_text(op) + new_version),
            None => None,
        }
    }
}

fn replaced_chars(vp: &Vec<char>, op: VersionOperator, current: &Vec<char>, new_version: &Vec<
    char,
>) -> (r: Option<Vec<char>>)
    ensures
        opt_chars(r) == replaced_spec(vp@, op, current@, new_version@),
{
    if chars_eq(current, new_version) {
        return None;
    }
    if !valid_token_chars(current) {
        return None;
    }
    let o = op_chars(op);
    match find_exec(vp, &o) {
        Some(k) => {
            proof {
                crate::text::lemma_find(vp@, o@);
            }
            let head = slice(vp, 0, k);
            assert(head@ =~= vp@.take(k as int));
            let with_op = concat(&head, &o);
            Some(concat(&with_op, new_version))
        },
        None => None,
    }
}

/// Compute a new dependency spec by replacing only the version.
pub fn compute_new_spec(
    version_part: &str,
    operator: VersionOperator,
    current_version: &str,
    new_version: &str,
) -> (r: Option<String>)
    ensures
        opt_string(r) == replaced_spec(version_part@, operator, current_version@, new_version@),
{
    match replaced_chars(
        &chars_of(version_part),
        operator,
        &chars_of(current_version),
        &chars_of(new_version),
    ) {
        Some(v) => Some(string_of(&v)),
        None => None,
    }
}

/// Trying the operators in order, the first replacement that applies.
pub open spec fn first_replacement(
    ops: Seq<VersionOperator>,
    vp: Seq<char>,
    after: Seq<char>,
    new_version: Seq<char>,
) -> Option<Seq<char>>
    decreases ops.len(),
{
    if ops.len() == 0 {
        None
    } else {
        let here = match strip_prefix(after, op_text(ops[0])) {
            Some(cur) => replaced_spec(vp, ops[0], trim(cur), new_version),
            None => None,
        };
        if here is Some {
            here
        } else {
            first_replacement(ops.drop_first(), vp, after, new_version)
        }
    }
}

fn first_replacement_chars(vp: &Vec<char>, after: &Vec<char>, new_version: &Vec<char>) -> (r:
    Option<Vec<char>>)
    ensures
        opt_chars(r) == first_replacement(operators(), vp@, after@, new_version@),
{
    let ops = VersionOperator::all();
    let mut i: usize = 0;
    assert(operators().skip(0) =~= operators());
    while i < ops.len()
        invariant
            i <= ops.len(),
            ops@ == operators(),
            first_replacement(operators(), vp@, after@, new_version@) == first_replacement(
                operators().skip(i as int),
                vp@,
                after@,
                new_version@,
            ),
        decreases ops.len() - i,
    {
        let op = ops[i];
        assert(operators().skip(i as int)[0] == op);
        assert(operators().skip(i as int).drop_first() =~= operators().skip(i + 1));
        let o = op_chars(op);
        match strip_prefix_exec(after, &o) {
            Some(cur) => {
                let t = trim_chars(&cur);
                let here = replaced_chars(vp, op, &t, new_version);
                if here.is_some() {
                    return here;
                }
            },
            None => {},
        }
        i += 1;
    }
    assert(operators().skip(i as int) =~= Seq::<VersionOperator>::empty());
    None
}

/// The entries as pairs of character sequences.
pub open spec fn entry_views(e: Seq<(String, String)>) -> Seq<(Seq<char>, Seq<char>)> {
    e.map_values(|p: (String, String)| (p.0@, p.1@))
}

/// The first entry at or after `i` whose name normalises to `target`.
pub open spec fn first_match_from(
    entries: Seq<(Seq<char>, Seq<char>)>,
    target: Seq<char>,
    i: int,
) -> Option<int>
    decreases entries.len() - i,
{
    if i < 0 || i >= entries.len() {
        None
    } else if pep503_name(entries[i].0) == target {
        Some(i)
    } else {
        first_match_from(entries, target, i + 1)
    }
}

pub open spec fn opt_pair(o: Option<(String, String)>) -> Option<(Seq<char>, Seq<char>)> {
    match o {
        Some(p) => Some((p.0@, p.1@)),
        None => None,
    }
}

/// The rewritten dependency specifier, with the name under which `entries`
/// lists the package: `None` unless the package is listed and the specifier
/// is a single simple version constraint that differs from the new version.
pub open spec fn updated_dependency(
    spec: Seq<char>,
    entries: Seq<(Seq<char>, Seq<char>)>,
) -> Option<(Seq<char>, Seq<char>)> {
    match package_name(spec) {
        None => None,
        Some(name) => match first_match_from(entries, pep503_name(name), 0) {
            None => None,
            Some(i) => {
                let t = trim(spec);
                let semi = find(t, seq![';']);
                let vp = match semi {
                    Some(p) => trim(t.take(p)),
                    None => trim(t),
                };
                let after = trim(after_extras(vp));
                if contains(t, seq![' ', '@', ' ']) || after.contains(',') || after.len() == 0 {
                    None
                } else {
                    match first_replacement(operators(), vp, after, entries[i].1) {
                        None => None,
                        Some(ns) => Some(
                            (
                                entries[i].0,
                                match semi {
                                    Some(p) => ns + seq![' '] + trim(t.skip(p)),
                                    None => ns,
                                },
                            ),
                        ),
                    }
                }
            },
        },
    }
}

fn find_entry(entries: &[(String, String)], target: &Vec<char>) -> (r: Option<usize>)
    ensures
        r matches Some(k) ==> first_match_from(entry_views(entries@), target@, 0) == Some(
            k as int,
        ) && k < entries@.len(),
        r is None ==> first_match_from(entry_views(entries@), target@, 0) is None,
{
    let ghost e = entry_views(entries@);
    let mut i: usize = 0;
    while i < entries.len()
        invariant
            i <= entries.len(),
            e == entry_views(entries@),
            first_match_from(e, target@, 0) == first_match_from(e, target@, i as int),
        decreases entries.len() - i,
    {
        let key = chars_of(entries[i].0.as_str());
        assert(e[i as int].0 == key@);
        if chars_eq(&pep503_chars(&key), target) {
            return Some(i);
        }
        i += 1;
    }
    None
}

/// Try to update a dependency specifier whose package `new_version_by_name`
/// names (compared by PEP 503 name; the first such entry counts).
///
/// Returns the name as the entries spell it and the new specifier.
pub fn try_update_dependency_spec(spec: &str, new_version_by_name: &[(String, String)]) -> (r:
    Option<(String, String)>)
    ensures
        opt_pair(r) == updated_dependency(spec@, entry_views(new_version_by_name@)),
{
    let s = chars_of(spec);
    let name = match package_name_chars(&s) {
        Some(n) => n,
        None => return None,
    };
    let target = pep503_chars(&name);
    let k = match find_entry(new_version_by_name, &target) {
        Some(k) => k,
        None => return None,
    };
    let ghost e = entry_views(new_version_by_name@);
    let orig = &new_version_by_name[k].0;
    let new_version = chars_of(new_version_by_name[k].1.as_str());
    assert(e[k as int].0 == orig@ && e[k as int].1 == new_version@);
    let t = trim_chars(&s);
    let url = vec![' ', '@', ' '];
    assert(url@ =~= seq![' ', '@', ' ']);
    if contains_exec(&t, &url) {
        return None;
    }
    let semi = vec![';'];
    assert(semi@ =~= seq![';']);
    let pos = find_exec(&t, &semi);
    proof {
        crate::text::lemma_find(t@, semi@);
    }
    let vp = match pos {
        Some(p) => {
            let head = slice(&t, 0, p);
            assert(head@ =~= t@.take(p as int));
            trim_chars(&head)
        },
        None => trim_chars(&t),
    };
    let after = trim_chars(&after_extras_chars(&vp));
    if has_char(&after, ',') || after.len() == 0 {
        return None;
    }
    let ns = match first_replacement_chars(&vp, &after, &new_version) {
        Some(ns) => ns,
        None => return None,
    };
    let result = match pos {
        Some(p) => {
            let tail = slice(&t, p, t.len());
            assert(tail@ =~= t@.skip(p as int));
            let markers = trim_chars(&tail);
            let space = vec![' '];
            let with_space = concat(&ns, &space);
            assert(with_space@ =~= ns@ + seq![' ']);
            concat(&with_space, &markers)
        },
        None => ns,
    };
    Some((orig.clone(), string_of(&result)))
}

/// The constraint part of a dependency specifier: what follows the name and
/// extras, before any environment marker; empty for a URL reference.
pub open spec fn constraint_of(spec: Seq<char>) -> Seq<char> {
    let t = trim(spec);
    let wm = match find(t, seq![';']) {
        Some(p) => trim(t.take(p)),
        None => t,
    };
    if contains(wm, seq![' ', '@', ' ']) {
        seq![]
    } else {
        trim(after_extras(wm))
    }
}

/// The version constraint of a dependency specifier.
pub fn extract_constraint_from_spec(spec: &str) -> (r: String)
    ensures
        r@ == constraint_of(spec@),
{
    let t = trim_chars(&chars_of(spec));
    let semi = vec![';'];
    assert(semi@ =~= seq![';']);
    let wm = match find_exec(&t, &semi) {
        Some(p) => {
            proof {
                crate::text::lemma_find(t@, semi@);
            }
            let head = slice(&t, 0, p);
            assert(head@ =~= t@.take(p as int));
            trim_chars(&head)
        },
        None => t,
    };
    let url = vec![' ', '@', ' '];
    assert(url@ =~= seq![' ', '@', ' ']);
    if contains_exec(&wm, &url) {
        return String::new();
    }
    string_of(&trim_chars(&after_extras_chars(&wm)))
}

// ---------------------------------------------------------------------------
// PEP 440 versions
// ---------------------------------------------------------------------------

pub open spec fn post_marker() -> Seq<char> {
    seq!['.', 'p', 'o', 's', 't']
}

/// `s` without a trailing `.postN` (or `.post`) tag, found in any letter case.
pub open spec fn without_post_release(s: Seq<char>) -> Seq<char> {
    match rfind(lower(s), post_marker()) {
        Some(pos) => if all_digits(s.skip(pos + 5)) {
            s.take(pos)
        } else {
            s
        },
        None => s,
    }
}

fn all_digits_chars(v: &Vec<char>) -> (r: bool)
    ensures
        r == all_digits(v@),
{
    let mut i: usize = 0;
    while i < v.len()
        invariant
            i <= v.len(),
            forall|j: int| 0 <= j < i ==> is_digit(#[trigger] v@[j]),
        decreases v.len() - i,
    {
        if !char_is_digit(v[i]) {
            return false;
        }
        i += 1;
    }
    true
}

fn without_post_chars(s: &Vec<char>) -> (r: Vec<char>)
    ensures
        r@ == without_post_release(s@),
{
    let l = lower_chars(s);
    let m = vec!['.', 'p', 'o', 's', 't'];
    assert(m@ =~= post_marker());
    assert(l@.len() == s@.len());
    match rfind_exec(&l, &m) {
        Some(pos) => {
            proof {
                crate::text::lemma_rfind_from(l@, m@, l@.len() - m@.len());
            }
            assert(m@.len() == 5);
            assert(pos + 5 <= s.len());
            let after = slice(s, pos + 5, s.len());
            assert(after@ =~= s@.skip(pos + 5));
            if all_digits_chars(&after) {
                let head = slice(s, 0, pos);
                assert(head@ =~= s@.take(pos as int));
                head
            } else {
                copy_chars(s)
            }
        },
        None => copy_chars(s),
    }
}

/// Remove a trailing `.postN` release tag.
pub fn strip_post_release_suffix(s: &str) -> (r: String)
    ensures
        r@ == without_post_release(s@),
{
    string_of(&without_post_chars(&chars_of(s)))
}

/// The first occurrence of `marker` in the lower-case form of `u` directly follows a digit.
pub open spec fn tagged_after_digit(u: Seq<char>, marker: Seq<char>) -> bool {
    match find(lower(u), marker) {
        Some(pos) => pos > 0 && is_digit(u[pos - 1]),
        None => false,
    }
}

fn tagged_after_digit_chars(u: &Vec<char>, marker: &Vec<char>) -> (r: bool)
    ensures
        r == tagged_after_digit(u@, marker@),
{
    let l = lower_chars(u);
    assert(l@.len() == u@.len());
    match find_exec(&l, marker) {
        Some(pos) => {
            proof {
                crate::text::lemma_find(l@, marker@);
            }
            pos > 0 && char_is_digit(u[pos - 1])
        },
        None => false,
    }
}

/// A stable PEP 440 release `major.minor[.patch]`: an optional leading `v`,
/// no `.dev`, `a`, `b` or `rc` tag right after a digit, and any `.postN`
/// tag ignored.
pub open spec fn pep440_release(s: Seq<char>) -> Option<Triple> {
    let t = trim(s);
    let u = match strip_prefix(t, seq!['v']) {
        Some(x) => x,
        None => t,
    };
    if u.len() == 0 || tagged_after_digit(u, seq!['.', 'd', 'e', 'v']) || tagged_after_digit(
        u,
        seq!['a'],
    ) || tagged_after_digit(u, seq!['b']) || tagged_after_digit(u, seq!['r', 'c']) {
        None
    } else {
        parts_triple(split(without_post_release(u), seq!['.']))
    }
}

fn pep440_release_chars(s: &Vec<char>) -> (r: Option<Triple>)
    ensures
        r == pep440_release(s@),
{
    let t = trim_chars(s);
    let v = vec!['v'];
    assert(v@ =~= seq!['v']);
    let u = match strip_prefix_exec(&t, &v) {
        Some(x) => x,
        None => t,
    };
    if u.len() == 0 {
        return None;
    }
    let dev = vec!['.', 'd', 'e', 'v'];
    let a = vec!['a'];
    let b = vec!['b'];
    let rc = vec!['r', 'c'];
    assert(dev@ =~= seq!['.', 'd', 'e', 'v'] && a@ =~= seq!['a'] && b@ =~= seq!['b'] && rc@
        =~= seq!['r', 'c']);
    if tagged_after_digit_chars(&u, &dev) || tagged_after_digit_chars(&u, &a)
        || tagged_after_digit_chars(&u, &b) || tagged_after_digit_chars(&u, &rc) {
        return None;
    }
    let base = without_post_chars(&u);
    let dot = vec!['.'];
    assert(dot@ =~= seq!['.']);
    parts_triple_exec(&split_exec(&base, &dot))
}

/// Read a stable PEP 440 release as `(major, minor, patch)`.
pub fn parse_pep440_version(s: &str) -> (r: Option<(u64, u64, u64)>)
    ensures
        r == pep440_release(s@),
{
    pep440_release_chars(&chars_of(s))
}

/// The first `marker` in `l` follows a digit, or a `.` after a digit.
pub open spec fn marker_after_version(l: Seq<char>, marker: Seq<char>) -> bool {
    match find(l, marker) {
        Some(pos) => (pos > 0 && is_digit(l[pos - 1])) || (pos > 1 && l[pos - 1] == '.'
            && is_digit(l[pos - 2])),
        None => false,
    }
}

/// A single-letter `a` / `b` tag between two digits at position `i`.
pub open spec fn letter_tag_at(l: Seq<char>, i: int) -> bool {
    1 <= i && i + 1 < l.len() && (l[i] == 'a' || l[i] == 'b') && is_digit(l[i - 1]) && is_digit(
        l[i + 1],
    )
}

/// Whether a constraint names a pre-release (`dev`, `rc`, `a`, `b` tags).
pub open spec fn pep440_prerelease_constraint(c: Seq<char>) -> bool {
    let l = lower(c);
    marker_after_version(l, seq!['d', 'e', 'v']) || marker_after_version(l, seq!['r', 'c'])
        || exists|i: int| letter_tag_at(l, i)
}

fn marker_after_version_chars(l: &Vec<char>, marker: &Vec<char>) -> (r: bool)
    ensures
        r == marker_after_version(l@, marker@),
{
    match find_exec(l, marker) {
        Some(pos) => {
            proof {
                crate::text::lemma_find(l@, marker@);
            }
            (pos > 0 && char_is_digit(l[pos - 1])) || (pos > 1 && l[pos - 1] == '.'
                && char_is_digit(l[pos - 2]))
        },
        None => false,
    }
}

/// Whether a PEP 440 constraint refers to a pre-release.
pub fn pep440_constraint_contains_prerelease(constraint: &str) -> (r: bool)
    ensures
        r == pep440_prerelease_constraint(constraint@),
{
    let l = lower_chars(&chars_of(constraint));
    let dev = vec!['d', 'e', 'v'];
    let rc = vec!['r', 'c'];
    assert(dev@ =~= seq!['d', 'e', 'v'] && rc@ =~= seq!['r', 'c']);
    if marker_after_version_chars(&l, &dev) || marker_after_version_chars(&l, &rc) {
        return true;
    }
    let mut i: usize = 1;
    while i < l.len()
        invariant
            1 <= i,
            l@ == lower(constraint@),
            forall|j: int| j < i ==> !letter_tag_at(l@, j),
        decreases l.len() - i,
    {
        if (l[i] == 'a' || l[i] == 'b') && char_is_digit(l[i - 1]) && i + 1 < l.len()
            && char_is_digit(l[i + 1]) {
            assert(letter_tag_at(l@, i as int));
            return true;
        }
        i += 1;
    }
    assert forall|j: int| !letter_tag_at(l@, j) by {
        if j >= i {
            assert(j + 1 >= l@.len());
        }
    }
    false
}

/// Whether `t` begins with one of the comparison operators.
pub open spec fn starts_with_operator(t: Seq<char>) -> bool {
    ||| starts_with(t, seq!['>', '='])
    ||| starts_with(t, seq!['<', '='])
    ||| starts_with(t, seq!['=', '='])
    ||| starts_with(t, seq!['~', '='])
    ||| starts_with(t, seq!['!', '='])
    ||| starts_with(t, seq!['>'])
    ||| starts_with(t, seq!['<'])
}

fn starts_with_operator_chars(t: &Vec<char>) -> (r: bool)
    ensures
        r == starts_with_operator(t@),
{
    let ops = VersionOperator::all();
    let mut i: usize = 0;
    while i < ops.len()
        invariant
            i <= ops.len(),
            ops@ == operators(),
            forall|j: int| 0 <= j < i ==> !starts_with(t@, op_text(#[trigger] operators()[j])),
        decreases ops.len() - i,
    {
        let o = op_chars(ops[i]);
        if starts_with_exec(t, &o) {
            return true;
        }
        i += 1;
    }
    assert(!starts_with(t@, op_text(operators()[0])));
    assert(!starts_with(t@, op_text(operators()[1])));
    assert(!starts_with(t@, op_text(operators()[2])));
    assert(!starts_with(t@, op_text(operators()[3])));
    assert(!starts_with(t@, op_text(operators()[4])));
    assert(!starts_with(t@, op_text(operators()[5])));
    assert(!starts_with(t@, op_text(operators()[6])));
    false
}

/// A pinned version: a bare version with no operator, wildcard or comma.
pub open spec fn pep440_pinned(s: Seq<char>) -> bool {
    let t = trim(s);
    !starts_with_operator(t) && !t.contains(',') && !t.contains('*') && pep440_release(t) is Some
}

fn pinned_chars(s: &Vec<char>) -> (r: bool)
    ensures
        r == pep440_pinned(s@),
{
    let t = trim_chars(s);
    !starts_with_operator_chars(&t) && !has_char(&t, ',') && !has_char(&t, '*')
        && pep440_release_chars(&t).is_some()
}

/// Whether a constraint is a bare pinned version.
pub fn is_pep440_pinned_version(s: &str) -> (r: bool)
    ensures
        r == pep440_pinned(s@),
{
    pinned_chars(&chars_of(s))
}

/// `~=` with a version of `parts` pieces: `[p, next minor)` for three or
/// more pieces, `[p, next major)` otherwise.
pub open spec fn compatible_release(v: Triple, p: Triple, parts: int) -> bool {
    if parts >= 3 {
        in_range(v, bound(p), (p.0 as int, p.1 + 1, 0))
    } else {
        in_range(v, bound(p), (p.0 + 1, 0, 0))
    }
}

/// The inclusive lower and exclusive upper bound of a compatible release.
pub fn expand_compatible_release(v: (u64, u64, u64), parts_count: usize) -> (r: (
    (u64, u64, u64),
    (u64, u64, u64),
))
    requires
        parts_count >= 3 ==> v.1 < u64::MAX,
        parts_count < 3 ==> v.0 < u64::MAX,
    ensures
        r.0 == v,
        parts_count >= 3 ==> r.1 == (v.0, (v.1 + 1) as u64, 0u64),
        parts_count < 3 ==> r.1 == ((v.0 + 1) as u64, 0u64, 0u64),
{
    let upper = if parts_count >= 3 {
        (v.0, v.1 + 1, 0)
    } else {
        (v.0 + 1, 0, 0)
    };
    (v, upper)
}

/// `s` with every trailing `.*` removed.
pub open spec fn without_wildcards(s: Seq<char>) -> Seq<char>
    decreases s.len(),
{
    if s.len() >= 2 && ends_with(s, seq!['.', '*']) {
        without_wildcards(s.take(s.len() - 2))
    } else {
        s
    }
}

/// `X.*` matches every version with major `X`; `X.Y.*` those with major `X` and minor `Y`.
pub open spec fn wildcard_matches(pattern: Seq<char>, v: Triple) -> bool {
    let parts = split(without_wildcards(pattern), seq!['.']);
    if parts.len() == 1 {
        parse_u64(parts[0]) == Some(v.0)
    } else if parts.len() == 2 {
        parse_u64(parts[0]) == Some(v.0) && parse_u64(parts[1]) == Some(v.1)
    } else {
        false
    }
}

fn wildcard_chars(pattern: &Vec<char>, v: Triple) -> (r: bool)
    ensures
        r == wildcard_matches(pattern@, v),
{
    let mut s = copy_chars(pattern);
    let star = vec!['.', '*'];
    assert(star@ =~= seq!['.', '*']);
    while s.len() >= 2 && ends_with_exec(&s, &star)
        invariant
            star@ == seq!['.', '*'],
            without_wildcards(s@) == without_wildcards(pattern@),
        decreases s.len(),
    {
        s = slice(&s, 0, s.len() - 2);
    }
    let dot = vec!['.'];
    assert(dot@ =~= seq!['.']);
    let parts = split_exec(&s, &dot);
    let ghost p = views(parts@);
    if parts.len() == 1 {
        assert(p[0] == parts@[0]@);
        parse_u64_exec(&parts[0]) == Some(v.0)
    } else if parts.len() == 2 {
        assert(p[0] == parts@[0]@ && p[1] == parts@[1]@);
        parse_u64_exec(&parts[0]) == Some(v.0) && parse_u64_exec(&parts[1]) == Some(v.1)
    } else {
        false
    }
}

/// Whether `version` matches a `X.*` or `X.Y.*` pattern.
pub fn matches_pep440_wildcard(pattern: &str, version: (u64, u64, u64)) -> (r: bool)
    ensures
        r == wildcard_matches(pattern@, version),
{
    wildcard_chars(&chars_of(pattern), version)
}

/// What a single specifier says of `v`; `None` when its version cannot be read.
pub open spec fn pep440_specifier(spec: Seq<char>, v: Triple) -> Option<bool> {
    let s = trim(spec);
    let r2 = trim(s.skip(2));
    let r1 = trim(s.skip(1));
    if s.len() == 0 || s == seq!['*'] {
        Some(true)
    } else if starts_with(s, seq!['~', '=']) {
        match pep440_release(r2) {
            Some(p) => Some(compatible_release(v, p, split(r2, seq!['.']).len() as int)),
            None => None,
        }
    } else if starts_with(s, seq!['=', '=']) {
        if ends_with(r2, seq!['.', '*']) {
            Some(wildcard_matches(r2, v))
        } else {
            match pep440_release(r2) {
                Some(p) => Some(v == p),
                None => None,
            }
        }
    } else if starts_with(s, seq!['!', '=']) {
        if ends_with(r2, seq!['.', '*']) {
            Some(!wildcard_matches(r2, v))
        } else {
            match pep440_release(r2) {
                Some(p) => Some(v != p),
                None => None,
            }
        }
    } else if starts_with(s, seq!['>', '=']) {
        match pep440_release(r2) {
            Some(p) => Some(le(bound(p), bound(v))),
            None => None,
        }
    } else if starts_with(s, seq!['<', '=']) {
        match pep440_release(r2) {
            Some(p) => Some(le(bound(v), bound(p))),
            None => None,
        }
    } else if starts_with(s, seq!['>']) {
        match pep440_release(r1) {
            Some(p) => Some(lt(bound(p), bound(v))),
            None => None,
        }
    } else if starts_with(s, seq!['<']) {
        match pep440_release(r1) {
            Some(p) => Some(lt(bound(v), bound(p))),
            None => None,
        }
    } else {
        match pep440_release(s) {
            Some(p) => Some(v == p),
            None => None,
        }
    }
}

fn rest_after(s: &Vec<char>, n: usize) -> (r: Vec<char>)
    requires
        n <= s.len(),
    ensures
        r@ == trim(s@.skip(n as int)),
{
    let tail = slice(s, n, s.len());
    assert(tail@ =~= s@.skip(n as int));
    trim_chars(&tail)
}

fn specifier_chars(spec: &Vec<char>, v: Triple) -> (r: Option<bool>)
    ensures
        r == pep440_specifier(spec@, v),
{
    let s = trim_chars(spec);
    if s.len() == 0 || (s.len() == 1 && s[0] == '*') {
        assert(s.len() == 1 ==> s@ =~= seq!['*']);
        return Some(true);
    }
    assert(s@ != seq!['*']) by {
        if s@ == seq!['*'] {
            assert(s@.len() == 1 && s@[0] == '*');
        }
    }
    let compat = vec!['~', '='];
    let eq = vec!['=', '='];
    let ne = vec!['!', '='];
    let ge = vec!['>', '='];
    let le2 = vec!['<', '='];
    let gt = vec!['>'];
    let lt1 = vec!['<'];
    let wild = vec!['.', '*'];
    let dot = vec!['.'];
    assert(compat@ =~= seq!['~', '='] && eq@ =~= seq!['=', '='] && ne@ =~= seq!['!', '='] && ge@
        =~= seq!['>', '='] && le2@ =~= seq!['<', '='] && gt@ =~= seq!['>'] && lt1@ =~= seq!['<']
        && wild@ =~= seq!['.', '*'] && dot@ =~= seq!['.']);
    if starts_with_exec(&s, &compat) {
        let rest = rest_after(&s, 2);
        return match pep440_release_chars(&rest) {
            Some(p) => {
                let n = split_exec(&rest, &dot).len();
                if n >= 3 {
                    Some(version_le(p, v) && below_next_minor(v, p.0, p.1))
                } else {
                    Some(version_le(p, v) && below_next_major(v, p.0))
                }
            },
            None => None,
        };
    }
    if starts_with_exec(&s, &eq) || starts_with_exec(&s, &ne) {
        let negate = !starts_with_exec(&s, &eq);
        let rest = rest_after(&s, 2);
        if ends_with_exec(&rest, &wild) {
            let m = wildcard_chars(&rest, v);
            return Some(if negate {
                !m
            } else {
                m
            });
        }
        return match pep440_release_chars(&rest) {
            Some(p) => {
                let same = version_eq(v, p);
                Some(if negate {
                    !same
                } else {
                    same
                })
            },
            None => None,
        };
    }
    if starts_with_exec(&s, &ge) {
        return match pep440_release_chars(&rest_after(&s, 2)) {
            Some(p) => Some(version_le(p, v)),
            None => None,
        };
    }
    if starts_with_exec(&s, &le2) {
        return match pep440_release_chars(&rest_after(&s, 2)) {
            Some(p) => Some(version_le(v, p)),
            None => None,
        };
    }
    if starts_with_exec(&s, &gt) {
        return match pep440_release_chars(&rest_after(&s, 1)) {
            Some(p) => Some(version_lt(p, v)),
            None => None,
        };
    }
    if starts_with_exec(&s, &lt1) {
        return match pep440_release_chars(&rest_after(&s, 1)) {
            Some(p) => Some(version_lt(v, p)),
            None => None,
        };
    }
    match pep440_release_chars(&s) {
        Some(p) => Some(version_eq(v, p)),
        None => None,
    }
}

/// Whether `version` satisfies a single specifier such as `>=1.0` or `~=2.1`.
pub fn satisfies_single_pep440_specifier(spec: &str, version: (u64, u64, u64)) -> (r: Option<
    bool,
>)
    ensures
        r == pep440_specifier(spec@, version),
{
    specifier_chars(&chars_of(spec), version)
}

/// Every comma-separated specifier holds, read left to right; an unreadable
/// one makes the whole unreadable.
pub open spec fn all_specifiers(parts: Seq<Seq<char>>, v: Triple) -> Option<bool>
    decreases parts.len(),
{
    if parts.len() == 0 {
        Some(true)
    } else {
        match pep440_specifier(trim(parts[0]), v) {
            Some(true) => all_specifiers(parts.drop_first(), v),
            Some(false) => Some(false),
            None => None,
        }
    }
}

pub open spec fn pep440_satisfies(c: Seq<char>, v: Triple) -> Option<bool> {
    all_specifiers(split(c, seq![',']), v)
}

fn satisfies_chars(c: &Vec<char>, v: Triple) -> (r: Option<bool>)
    ensures
        r == pep440_satisfies(c@, v),
{
    let comma = vec![','];
    assert(comma@ =~= seq![',']);
    let parts = split_exec(c, &comma);
    let mut i: usize = 0;
    assert(views(parts@).skip(0) =~= views(parts@));
    while i < parts.len()
        invariant
            i <= parts.len(),
            views(parts@) == split(c@, seq![',']),
            pep440_satisfies(c@, v) == all_specifiers(views(parts@).skip(i as int), v),
        decreases parts.len() - i,
    {
        let ghost rest = views(parts@).skip(i as int);
        assert(rest[0] == parts@[i as int]@);
        assert(rest.drop_first() =~= views(parts@).skip(i + 1));
        let t = trim_chars(&parts[i]);
        match specifier_chars(&t, v) {
            Some(true) => {},
            Some(false) => return Some(false),
            None => return None,
        }
        i += 1;
    }
    assert(views(parts@).skip(i as int) =~= Seq::<Seq<char>>::empty());
    Some(true)
}

/// Whether `version` satisfies a comma-separated PEP 440 constraint; `None`
/// when some part cannot be read.
pub fn pep440_version_satisfies(constraint: &str, version: (u64, u64, u64)) -> (r: Option<bool>)
    ensures
        r == pep440_satisfies(constraint@, version),
{
    satisfies_chars(&chars_of(constraint), version)
}

/// The outcome of checking a PEP 440 constraint against a planned version.
pub open spec fn pep440_check(constraint: Seq<char>, new_version: Seq<char>) -> CheckOutcome {
    let t = trim(constraint);
    if t.len() == 0 {
        CheckOutcome::Skipped { reason: "empty constraint"@ }
    } else if t == seq!['*'] {
        CheckOutcome::Satisfied
    } else if new_version.contains('-') {
        CheckOutcome::Skipped { reason: "pre-release version"@ }
    } else if pep440_prerelease_constraint(t) {
        CheckOutcome::Skipped { reason: "pre-release constraint"@ }
    } else if pep440_pinned(t) {
        CheckOutcome::Skipped { reason: "pinned version"@ }
    } else {
        match pep440_release(new_version) {
            None => CheckOutcome::Skipped {
                reason: "unparseable version '"@ + new_version + "'"@,
            },
            Some(v) => match pep440_satisfies(t, v) {
                Some(true) => CheckOutcome::Satisfied,
                Some(false) => CheckOutcome::NotSatisfied { constraint: t, new_version },
                None => CheckOutcome::Skipped { reason: "unparseable constraint '"@ + t + "'"@ },
            },
        }
    }
}

/// Check a PEP 440 constraint against a planned version.
pub fn check_pep440_constraint(constraint: &str, new_version: &str) -> (r: Result<
    ConstraintCheckResult,
    SampoError,
>)
    ensures
        r matches Ok(c) && c@ == pep440_check(constraint@, new_version@),
{
    let t = trim_chars(&chars_of(constraint));
    if t.len() == 0 {
        return Ok(ConstraintCheckResult::Skipped { reason: owned("empty constraint") });
    }
    if t.len() == 1 && t[0] == '*' {
        assert(t@ =~= seq!['*']);
        return Ok(ConstraintCheckResult::Satisfied);
    }
    assert(t@ != seq!['*']) by {
        if t@ == seq!['*'] {
            assert(t@.len() == 1 && t@[0] == '*');
        }
    }
    let nv = chars_of(new_version);
    if has_char(&nv, '-') {
        return Ok(ConstraintCheckResult::Skipped { reason: owned("pre-release version") });
    }
    let ts = string_of(&t);
    if pep440_constraint_contains_prerelease(ts.as_str()) {
        return Ok(ConstraintCheckResult::Skipped { reason: owned("pre-release constraint") });
    }
    if pinned_chars(&t) {
        return Ok(ConstraintCheckResult::Skipped { reason: owned("pinned version") });
    }
    let v = match pep440_release_chars(&nv) {
        Some(v) => v,
        None => {
            return Ok(
                ConstraintCheckResult::Skipped {
                    reason: join3("unparseable version '", new_version, "'"),
                },
            );
        },
    };
    match satisfies_chars(&t, v) {
        Some(true) => Ok(ConstraintCheckResult::Satisfied),
        Some(false) => Ok(
            ConstraintCheckResult::NotSatisfied { constraint: ts, new_version: owned(new_version) },
        ),
        None => Ok(
            ConstraintCheckResult::Skipped {
                reason: join3("unparseable constraint '", ts.as_str(), "'"),
            },
        ),
    }
}

// ---------------------------------------------------------------------------
// Paths
// ---------------------------------------------------------------------------

/// Resolve `.` and `..` in a path without touching the file system.
pub fn normalize_path(path: &str) -> (r: String)
    ensures
        r@ == clean(path@),
{
    clean_path(path)
}

/// The manifest of the package in `package_dir`.
pub fn manifest_path(package_dir: &str) -> (r: String)
    ensures
        r@ == joined(package_dir@, "pyproject.toml"@),
{
    join_path(package_dir, "pyproject.toml")
}

// ---------------------------------------------------------------------------
// pyproject.toml
// ---------------------------------------------------------------------------

/// The `[project]` name and version of a parsed `pyproject.toml`.
#[derive(Debug, Clone, Default)]
pub struct ProjectMetadata {
    pub name: Option<String>,
    pub version: Option<String>,
}

/// The `[project]` table of a parsed `pyproject.toml`, when it is a table.
pub open spec fn project_table(doc: Value) -> Option<Value> {
    match field(doc, "project"@) {
        Some(Value::Table(t)) => Some(Value::Table(t)),
        _ => None,
    }
}

/// The string `project.<key>`, when there is one.
pub open spec fn project_text(doc: Value, key: Seq<char>) -> Option<Seq<char>> {
    text_of(field_of(project_table(doc), key))
}

fn project_of(doc: &Value) -> (r: Option<&Value>)
    ensures
        match project_table(*doc) {
            Some(t) => r matches Some(x) && *x == t,
            None => r is None,
        },
{
    match doc.get("project") {
        Some(p) => match p {
            Value::Table(_) => Some(p),
            _ => None,
        },
        None => None,
    }
}

fn text_field(t: Option<&Value>, key: &str) -> (r: Option<String>)
    ensures
        opt_string(r) == text_of(field_of(
            match t {
                Some(x) => Some(*x),
                None => None,
            },
            key@,
        )),
{
    match t {
        Some(x) => match x.get(key) {
            Some(v) => match v.as_str() {
                Some(s) => Some(owned(s)),
                None => None,
            },
            None => None,
        },
        None => None,
    }
}

/// Read the `[project]` name and version of a parsed `pyproject.toml`.
pub fn parse_project_metadata(doc: &Value) -> (r: ProjectMetadata)
    ensures
        opt_string(r.name) == project_text(*doc, "name"@),
        opt_string(r.version) == project_text(*doc, "version"@),
{
    let project = project_of(doc);
    ProjectMetadata { name: text_field(project, "name"), version: text_field(project, "version") }
}

/// Whether the project at `path` can be published: it must have a
/// non-blank name and version, else the error says which is missing.
pub open spec fn publishable_outcome(path: Seq<char>, doc: Value) -> Result<bool, Seq<char>> {
    match project_text(doc, "name"@) {
        None => Err("Manifest "@ + path + " is missing a project.name field"@),
        Some(n) => if trim(n).len() == 0 {
            Err("Manifest "@ + path + " declares an empty project name"@)
        } else {
            match project_text(doc, "version"@) {
                None => Err("Manifest "@ + path + " is missing a project.version field"@),
                Some(v) => if trim(v).len() == 0 {
                    Err("Manifest "@ + path + " declares an empty version"@)
                } else {
                    Ok(true)
                },
            }
        },
    }
}

/// Whether the project whose `pyproject.toml` at `manifest_path` reads
/// `text` can be published; a text that is no TOML document declares
/// nothing.
pub fn publishable_from_text(manifest_path: &str, text: &str) -> (r: Result<bool, SampoError>)
    ensures
        match toml_document(text@) {
            Ok(doc) => match publishable_outcome(manifest_path@, doc) {
                Ok(b) => r == Ok::<bool, SampoError>(b),
                Err(e) => r matches Err(SampoError::Publish(m)) && m@ == e,
            },
            Err(_) => r matches Err(SampoError::Publish(m)) && m@ == "Manifest "@ + manifest_path@
                + " is missing a project.name field"@,
        },
{
    match parse_toml(text) {
        Ok(doc) => is_publishable(manifest_path, &doc),
        Err(_) => {
            let empty = Value::Table(Vec::new());
            is_publishable(manifest_path, &empty)
        },
    }
}

/// Whether the project whose parsed `pyproject.toml` is `doc` can be published.
pub fn is_publishable(manifest_path: &str, doc: &Value) -> (r: Result<bool, SampoError>)
    ensures
        match publishable_outcome(manifest_path@, *doc) {
            Ok(b) => r == Ok::<bool, SampoError>(b),
            Err(e) => r matches Err(SampoError::Publish(m)) && m@ == e,
        },
{
    let meta = parse_project_metadata(doc);
    let name = match meta.name {
        Some(n) => n,
        None => {
            return Err(SampoError::Publish(join3("Manifest ", manifest_path, " is missing a project.name field")));
        },
    };
    if trim_chars(&chars_of(name.as_str())).len() == 0 {
        return Err(SampoError::Publish(join3("Manifest ", manifest_path, " declares an empty project name")));
    }
    let version = match meta.version {
        Some(v) => v,
        None => {
            return Err(SampoError::Publish(join3("Manifest ", manifest_path, " is missing a project.version field")));
        },
    };
    if trim_chars(&chars_of(version.as_str())).len() == 0 {
        return Err(SampoError::Publish(join3("Manifest ", manifest_path, " declares an empty version")));
    }
    Ok(true)
}

/// The name and version publishing announces, or why the project cannot be
/// published (a blank name is only refused by `is_publishable`).
pub open spec fn publish_identity(path: Seq<char>, doc: Value) -> Result<(Seq<char>, Seq<char>), Seq<char>> {
    match project_text(doc, "name"@) {
        None => Err("Manifest "@ + path + " is missing a project.name field"@),
        Some(n) => match project_text(doc, "version"@) {
            None => Err("Manifest "@ + path + " is missing a project.version field"@),
            Some(v) => if trim(v).len() == 0 {
                Err("Manifest "@ + path + " declares an empty version"@)
            } else {
                Ok((n, v))
            },
        },
    }
}

/// The package name and version to build and publish, as the manifest gives them.
pub fn publish_metadata(manifest_path: &str, doc: &Value) -> (r: Result<(String, String), SampoError>)
    ensures
        match publish_identity(manifest_path@, *doc) {
            Ok((n, v)) => r matches Ok((a, b)) && a@ == n && b@ == v,
            Err(e) => r matches Err(SampoError::Publish(m)) && m@ == e,
        },
{
    let meta = parse_project_metadata(doc);
    let name = match meta.name {
        Some(n) => n,
        None => {
            return Err(SampoError::Publish(join3("Manifest ", manifest_path, " is missing a project.name field")));
        },
    };
    let version = match meta.version {
        Some(v) => v,
        None => {
            return Err(SampoError::Publish(join3("Manifest ", manifest_path, " is missing a project.version field")));
        },
    };
    if trim_chars(&chars_of(version.as_str())).len() == 0 {
        return Err(SampoError::Publish(join3("Manifest ", manifest_path, " declares an empty version")));
    }
    Ok((name, version))
}

/// The `[tool.uv.workspace]` member and exclude patterns.
#[derive(Debug, Clone, Default)]
pub struct UvWorkspaceConfig {
    pub members: Option<Vec<String>>,
    pub exclude: Option<Vec<String>>,
}

/// The strings among the values, in order.
pub open spec fn strings_in(items: Seq<Value>) -> Seq<Seq<char>>
    decreases items.len(),
{
    if items.len() == 0 {
        seq![]
    } else {
        let rest = strings_in(items.drop_last());
        match items.last() {
            Value::Str(s) => rest.push(s@),
            _ => rest,
        }
    }
}

/// The strings of an array value, when it is one holding any.
pub open spec fn string_list(o: Option<Value>) -> Option<Seq<Seq<char>>> {
    match list_of(o) {
        Some(items) => if strings_in(items).len() > 0 {
            Some(strings_in(items))
        } else {
            None
        },
        None => None,
    }
}

/// The `[tool.uv.workspace]` table, when the document has one.
pub open spec fn uv_workspace(doc: Value) -> Option<Value> {
    match field_of(field_of(field(doc, "tool"@), "uv"@), "workspace"@) {
        Some(Value::Table(t)) => match field(doc, "tool"@) {
            Some(Value::Table(_)) => match field_of(field(doc, "tool"@), "uv"@) {
                Some(Value::Table(_)) => Some(Value::Table(t)),
                _ => None,
            },
            _ => None,
        },
        _ => None,
    }
}

pub open spec fn opt_strings(o: Option<Vec<String>>) -> Option<Seq<Seq<char>>> {
    match o {
        Some(v) => Some(v@.map_values(|s: String| s@)),
        None => None,
    }
}

fn collect_strings(items: &Vec<Value>) -> (r: Vec<String>)
    ensures
        r@.map_values(|s: String| s@) == strings_in(items@),
{
    let mut out: Vec<String> = Vec::new();
    let mut i: usize = 0;
    while i < items.len()
        invariant
            i <= items.len(),
            out@.map_values(|s: String| s@) == strings_in(items@.take(i as int)),
        decreases items.len() - i,
    {
        assert(items@.take(i + 1).drop_last() =~= items@.take(i as int));
        assert(items@.take(i + 1).last() == items@[i as int]);
        match &items[i] {
            Value::Str(s) => {
                let ghost before = out@;
                let t = owned(s.as_str());
                out.push(t);
                assert(out@.map_values(|s: String| s@) =~= before.map_values(|s: String| s@).push(t@));
            },
            _ => {},
        }
        i += 1;
    }
    assert(items@.take(items.len() as int) =~= items@);
    out
}

fn string_list_of(v: Option<&Value>) -> (r: Option<Vec<String>>)
    ensures
        opt_strings(r) == string_list(
            match v {
                Some(x) => Some(*x),
                None => None,
            },
        ),
{
    match v {
        Some(x) => match x.as_list() {
            Some(items) => {
                let out = collect_strings(items);
                if out.len() > 0 {
                    Some(out)
                } else {
                    None
                }
            },
            None => None,
        },
        None => None,
    }
}

/// Read `[tool.uv.workspace]` from a parsed `pyproject.toml`: its non-empty
/// `members` and `exclude` string lists.
pub fn parse_uv_workspace_config(doc: &Value) -> (r: UvWorkspaceConfig)
    ensures
        match uv_workspace(*doc) {
            Some(w) => opt_strings(r.members) == string_list(field(w, "members"@)) && opt_strings(r.exclude)
                == string_list(field(w, "exclude"@)),
            None => r.members is None && r.exclude is None,
        },
{
    let tool = match doc.get("tool") {
        Some(t) => t,
        None => {
            return UvWorkspaceConfig { members: None, exclude: None };
        },
    };
    match tool {
        Value::Table(_) => {},
        _ => {
            return UvWorkspaceConfig { members: None, exclude: None };
        },
    }
    let uv = match tool.get("uv") {
        Some(u) => u,
        None => {
            return UvWorkspaceConfig { members: None, exclude: None };
        },
    };
    match uv {
        Value::Table(_) => {},
        _ => {
            return UvWorkspaceConfig { members: None, exclude: None };
        },
    }
    let ws = match uv.get("workspace") {
        Some(w) => w,
        None => {
            return UvWorkspaceConfig { members: None, exclude: None };
        },
    };
    match ws {
        Value::Table(_) => {},
        _ => {
            return UvWorkspaceConfig { members: None, exclude: None };
        },
    }
    UvWorkspaceConfig { members: string_list_of(ws.get("members")), exclude: string_list_of(ws.get("exclude")) }
}

/// The package names of the dependency specifiers among the values.
pub open spec fn spec_names(items: Seq<Value>) -> Seq<Seq<char>>
    decreases items.len(),
{
    if items.len() == 0 {
        seq![]
    } else {
        let rest = spec_names(items.drop_last());
        match items.last() {
            Value::Str(s) => match package_name(s@) {
                Some(n) => rest.push(n),
                None => rest,
            },
            _ => rest,
        }
    }
}

/// The dependency names of the optional dependency groups, group by group.
pub open spec fn group_names(groups: Seq<(String, Value)>) -> Seq<Seq<char>>
    decreases groups.len(),
{
    if groups.len() == 0 {
        seq![]
    } else {
        let last = match groups.last().1 {
            Value::List(items) => spec_names(items@),
            _ => seq![],
        };
        group_names(groups.drop_last()) + last
    }
}

/// The names of `[project.dependencies]`, then of each group of
/// `[project.optional-dependencies]`.
pub open spec fn dependency_names(doc: Value) -> Seq<Seq<char>> {
    match project_table(doc) {
        None => seq![],
        Some(p) => {
            let main = match list_of(field(p, "dependencies"@)) {
                Some(items) => spec_names(items),
                None => seq![],
            };
            let optional = match field(p, "optional-dependencies"@) {
                Some(Value::Table(groups)) => group_names(groups@),
                _ => seq![],
            };
            main + optional
        },
    }
}

fn push_names(out: &mut Vec<String>, items: &Vec<Value>)
    ensures
        final(out)@.map_values(|s: String| s@) == old(out)@.map_values(|s: String| s@) + spec_names(items@),
{
    let ghost start = out@.map_values(|s: String| s@);
    let mut i: usize = 0;
    assert(items@.take(0) =~= seq![]);
    assert(start + spec_names(seq![]) =~= start);
    while i < items.len()
        invariant
            i <= items.len(),
            out@.map_values(|s: String| s@) == start + spec_names(items@.take(i as int)),
        decreases items.len() - i,
    {
        assert(items@.take(i + 1).drop_last() =~= items@.take(i as int));
        assert(items@.take(i + 1).last() == items@[i as int]);
        let ghost prev = spec_names(items@.take(i as int));
        match &items[i] {
            Value::Str(s) => match extract_package_name(s.as_str()) {
                Some(n) => {
                    let ghost before = out@;
                    let ghost nv = n@;
                    out.push(n);
                    assert(out@.map_values(|s: String| s@) =~= before.map_values(|s: String| s@).push(nv));
                    assert(start + prev.push(nv) =~= (start + prev).push(nv));
                },
                None => {},
            },
            _ => {},
        }
        i += 1;
    }
    assert(items@.take(items.len() as int) =~= items@);
}

/// The names of the dependencies a parsed `pyproject.toml` declares, in order.
pub fn collect_dependencies(doc: &Value) -> (r: Vec<String>)
    ensures
        r@.map_values(|s: String| s@) == dependency_names(*doc),
{
    let mut deps: Vec<String> = Vec::new();
    let project = match project_of(doc) {
        Some(p) => p,
        None => {
            assert(deps@.map_values(|s: String| s@) =~= seq![]);
            return deps;
        },
    };
    match project.get("dependencies") {
        Some(v) => match v.as_list() {
            Some(items) => push_names(&mut deps, items),
            None => {},
        },
        None => {},
    }
    let ghost first = deps@.map_values(|s: String| s@);
    assert(first == match list_of(field(*project, "dependencies"@)) {
        Some(items) => spec_names(items),
        None => seq![],
    }) by {
        assert(seq![] + spec_names(seq![]) =~= seq![]);
    }
    match project.get("optional-dependencies") {
        Some(o) => match o.as_map() {
            Some(groups) => {
                let mut g: usize = 0;
                assert(group_names(groups@.take(0)) =~= seq![]);
                assert(first + seq![] =~= first);
                while g < groups.len()
                    invariant
                        g <= groups.len(),
                        deps@.map_values(|s: String| s@) == first + group_names(groups@.take(g as int)),
                    decreases groups.len() - g,
                {
                    assert(groups@.take(g + 1).drop_last() =~= groups@.take(g as int));
                    assert(groups@.take(g + 1).last() == groups@[g as int]);
                    let ghost prev = group_names(groups@.take(g as int));
                    match &groups[g].1 {
                        Value::List(items) => {
                            push_names(&mut deps, items);
                            assert(first + prev + spec_names(items@) =~= first + (prev + spec_names(items@)));
                        },
                        _ => {
                            assert(prev + seq![] =~= prev);
                        },
                    }
                    g += 1;
                }
                assert(groups@.take(groups.len() as int) =~= groups@);
            },
            None => {
                assert(first + seq![] =~= first);
            },
        },
        None => {
            assert(first + seq![] =~= first);
        },
    }
    deps
}

/// The constraint of the first specifier among the values naming `target` (normalised).
pub open spec fn constraint_in(items: Seq<Value>, target: Seq<char>) -> Option<Seq<char>>
    decreases items.len(),
{
    if items.len() == 0 {
        None
    } else {
        match items[0] {
            Value::Str(s) => match package_name(s@) {
                Some(n) => if pep503_name(n) == target {
                    Some(constraint_of(s@))
                } else {
                    constraint_in(items.drop_first(), target)
                },
                None => constraint_in(items.drop_first(), target),
            },
            _ => constraint_in(items.drop_first(), target),
        }
    }
}

/// The constraint from the first optional group, in order, that names `target`.
pub open spec fn constraint_in_groups(groups: Seq<(String, Value)>, target: Seq<char>) -> Option<Seq<char>>
    decreases groups.len(),
{
    if groups.len() == 0 {
        None
    } else {
        let here = match groups[0].1 {
            Value::List(items) => constraint_in(items@, target),
            _ => None,
        };
        match here {
            Some(c) => Some(c),
            None => constraint_in_groups(groups.drop_first(), target),
        }
    }
}

/// The constraint a parsed `pyproject.toml` gives `dep_name` (compared by
/// normalised name): from `[project.dependencies]`, else from the optional groups.
pub open spec fn dependency_constraint(doc: Value, dep_name: Seq<char>) -> Option<Seq<char>> {
    let target = pep503_name(dep_name);
    match project_table(doc) {
        None => None,
        Some(p) => match (match list_of(field(p, "dependencies"@)) {
            Some(items) => constraint_in(items, target),
            None => None,
        }) {
            Some(c) => Some(c),
            None => match field(p, "optional-dependencies"@) {
                Some(Value::Table(groups)) => constraint_in_groups(groups@, target),
                _ => None,
            },
        },
    }
}

fn find_in_list(items: &Vec<Value>, target: &str) -> (r: Option<String>)
    ensures
        opt_string(r) == constraint_in(items@, target@),
{
    let mut i: usize = 0;
    assert(items@.skip(0) =~= items@);
    while i < items.len()
        invariant
            i <= items.len(),
            constraint_in(items@, target@) == constraint_in(items@.skip(i as int), target@),
        decreases items.len() - i,
    {
        assert(items@.skip(i as int).drop_first() =~= items@.skip(i + 1));
        assert(items@.skip(i as int)[0] == items@[i as int]);
        match &items[i] {
            Value::Str(s) => match extract_package_name(s.as_str()) {
                Some(n) => {
                    let norm = normalize_package_name(n.as_str());
                    if chars_eq(&chars_of(norm.as_str()), &chars_of(target)) {
                        return Some(extract_constraint_from_spec(s.as_str()));
                    }
                },
                None => {},
            },
            _ => {},
        }
        i += 1;
    }
    assert(items@.skip(items.len() as int) =~= seq![]);
    None
}

/// The constraint a parsed `pyproject.toml` gives a dependency, if it names it.
#[verifier::loop_isolation(false)]
pub fn find_dependency_constraint(doc: &Value, dep_name: &str) -> (r: Option<String>)
    ensures
        opt_string(r) == dependency_constraint(*doc, dep_name@),
{
    let project = match project_of(doc) {
        Some(p) => p,
        None => {
            return None;
        },
    };
    let target = normalize_package_name(dep_name);
    match project.get("dependencies") {
        Some(v) => match v.as_list() {
            Some(items) => {
                if let Some(c) = find_in_list(items, target.as_str()) {
                    return Some(c);
                }
            },
            None => {},
        },
        None => {},
    }
    match project.get("optional-dependencies") {
        Some(o) => match o.as_map() {
            Some(groups) => {
                let mut g: usize = 0;
                assert(groups@.skip(0) =~= groups@);
                while g < groups.len()
                    invariant
                        g <= groups.len(),
                        constraint_in_groups(groups@, target@) == constraint_in_groups(groups@.skip(g as int), target@),
                    decreases groups.len() - g,
                {
                    assert(groups@.skip(g as int).drop_first() =~= groups@.skip(g + 1));
                    assert(groups@.skip(g as int)[0] == groups@[g as int]);
                    match &groups[g].1 {
                        Value::List(items) => {
                            if let Some(c) = find_in_list(items, target.as_str()) {
                                return Some(c);
                            }
                        },
                        _ => {},
                    }
                    g += 1;
                }
                assert(groups@.skip(groups.len() as int) =~= seq![]);
                None
            },
            None => None,
        },
        None => None,
    }
}

/// A value of a parsed TOML document: the character positions of its text
/// in the document, and the string it holds (`None` when it is no string).
#[derive(Debug)]
pub struct TomlSpan {
    pub start: usize,
    pub end: usize,
    pub text: Option<String>,
}

/// Where the values a version update reads stand in a `pyproject.toml`:
/// `project.version`, the items of `project.dependencies` and of each group
/// of `project.optional-dependencies`, in document order.
#[derive(Debug)]
pub struct PyProjectFields {
    pub version: Option<TomlSpan>,
    pub dependencies: Option<Vec<TomlSpan>>,
    pub optional_dependencies: Option<Vec<(String, Vec<TomlSpan>)>>,
}

/// The text `toml_edit` writes for a new string value `s`.
pub uninterp spec fn toml_string_text(s: Seq<char>) -> Seq<char>;

/// The text `toml_edit` writes for a new string value (`Value::from(s)`
/// displayed without decoration).
#[verifier::external_body]
pub(crate) fn toml_string(s: &str) -> (r: String)
    ensures
        r@ == toml_string_text(s@),
{
    toml_edit::Value::from(s).to_string()
}

/// The value of the first entry keyed exactly `name`, or empty.
pub open spec fn exact_value(entries: Seq<(Seq<char>, Seq<char>)>, name: Seq<char>) -> Seq<char>
    decreases entries.len(),
{
    if entries.len() == 0 {
        seq![]
    } else if entries[0].0 == name {
        entries[0].1
    } else {
        exact_value(entries.drop_first(), name)
    }
}

/// Whether some applied update is for `name`.
pub open spec fn applied_has(applied: Seq<(Seq<char>, Seq<char>)>, name: Seq<char>) -> bool {
    exists|i: int| 0 <= i < applied.len() && #[trigger] applied[i].0 == name
}

/// The rewrites and applied updates after the items, starting from
/// `(rs, applied)`; `dedup` keeps each name once in `applied`.
pub open spec fn item_rewrites(
    items: Seq<TomlSpan>,
    entries: Seq<(Seq<char>, Seq<char>)>,
    dedup: bool,
    acc: (Seq<crate::npm::Rewrite>, Seq<(Seq<char>, Seq<char>)>),
) -> (Seq<crate::npm::Rewrite>, Seq<(Seq<char>, Seq<char>)>)
    decreases items.len(),
{
    if items.len() == 0 {
        acc
    } else {
        let (rs, applied) = item_rewrites(items.drop_last(), entries, dedup, acc);
        let it = items.last();
        match it.text {
            Some(s) => match updated_dependency(s@, entries) {
                Some((name, spec)) => {
                    let rs2 = rs.push((it.start as int, it.end as int, toml_string_text(spec)));
                    if dedup && applied_has(applied, name) {
                        (rs2, applied)
                    } else {
                        (rs2, applied.push((name, exact_value(entries, name))))
                    }
                },
                None => (rs, applied),
            },
            None => (rs, applied),
        }
    }
}

/// The rewrites and applied updates across the optional groups, in order.
pub open spec fn group_rewrites(
    groups: Seq<(String, Vec<TomlSpan>)>,
    entries: Seq<(Seq<char>, Seq<char>)>,
    acc: (Seq<crate::npm::Rewrite>, Seq<(Seq<char>, Seq<char>)>),
) -> (Seq<crate::npm::Rewrite>, Seq<(Seq<char>, Seq<char>)>)
    decreases groups.len(),
{
    if groups.len() == 0 {
        acc
    } else {
        item_rewrites(groups.last().1@, entries, true, group_rewrites(groups.drop_last(), entries, acc))
    }
}

/// The rewrites of a version update of a `pyproject.toml` and the
/// `(name, version)` updates applied: the version when it differs from the
/// target, then each dependency specifier that `updated_dependency` rewrites.
pub open spec fn pyproject_rewrites(
    f: PyProjectFields,
    target: Option<Seq<char>>,
    entries: Seq<(Seq<char>, Seq<char>)>,
) -> (Seq<crate::npm::Rewrite>, Seq<(Seq<char>, Seq<char>)>) {
    let after_deps = dependency_stage(f, target, entries);
    match f.optional_dependencies {
        Some(groups) => group_rewrites(groups@, entries, after_deps),
        None => after_deps,
    }
}

/// The rewrite of `project.version` to `target`, when it differs.
pub open spec fn version_stage(f: PyProjectFields, target: Option<Seq<char>>) -> Seq<crate::npm::Rewrite> {
    match (target, f.version) {
        (Some(t), Some(v)) => {
            let current = match v.text {
                Some(c) => c@,
                None => seq![],
            };
            if current != t {
                seq![(v.start as int, v.end as int, toml_string_text(t))]
            } else {
                seq![]
            }
        },
        _ => seq![],
    }
}

/// The rewrites and updates after the version and `project.dependencies`.
pub open spec fn dependency_stage(
    f: PyProjectFields,
    target: Option<Seq<char>>,
    entries: Seq<(Seq<char>, Seq<char>)>,
) -> (Seq<crate::npm::Rewrite>, Seq<(Seq<char>, Seq<char>)>) {
    match f.dependencies {
        Some(items) => item_rewrites(items@, entries, false, (version_stage(f, target), seq![])),
        None => (version_stage(f, target), seq![]),
    }
}

fn exact_value_of(entries: &[(String, String)], name: &str) -> (r: String)
    ensures
        r@ == exact_value(entry_views(entries@), name@),
{
    let ghost e = entry_views(entries@);
    let key = chars_of(name);
    let mut i: usize = 0;
    assert(e.skip(0) =~= e);
    while i < entries.len()
        invariant
            i <= entries.len(),
            e == entry_views(entries@),
            key@ == name@,
            exact_value(e, name@) == exact_value(e.skip(i as int), name@),
        decreases entries.len() - i,
    {
        assert(e.skip(i as int).drop_first() =~= e.skip(i + 1));
        assert(e.skip(i as int)[0] == e[i as int]);
        assert(e[i as int] == (entries@[i as int].0@, entries@[i as int].1@));
        if chars_eq(&chars_of(entries[i].0.as_str()), &key) {
            return owned(entries[i].1.as_str());
        }
        i += 1;
    }
    assert(e.skip(entries.len() as int) =~= seq![]);
    String::new()
}

fn has_applied(applied: &Vec<(String, String)>, name: &str) -> (r: bool)
    ensures
        r == applied_has(entry_views(applied@), name@),
{
    let key = chars_of(name);
    let mut i: usize = 0;
    while i < applied.len()
        invariant
            i <= applied.len(),
            key@ == name@,
            forall|j: int| 0 <= j < i ==> #[trigger] entry_views(applied@)[j].0 != name@,
        decreases applied.len() - i,
    {
        assert(entry_views(applied@)[i as int].0 == applied@[i as int].0@);
        if chars_eq(&chars_of(applied[i].0.as_str()), &key) {
            return true;
        }
        i += 1;
    }
    false
}

fn rewrite_items(
    items: &Vec<TomlSpan>,
    entries: &[(String, String)],
    dedup: bool,
    rs: &mut Vec<(usize, usize, String)>,
    applied: &mut Vec<(String, String)>,
)
    ensures
        (crate::npm::rewrite_views(final(rs)@), entry_views(final(applied)@)) == item_rewrites(
            items@,
            entry_views(entries@),
            dedup,
            (crate::npm::rewrite_views(old(rs)@), entry_views(old(applied)@)),
        ),
{
    let ghost e = entry_views(entries@);
    let ghost acc = (crate::npm::rewrite_views(rs@), entry_views(applied@));
    let mut i: usize = 0;
    assert(items@.take(0) =~= seq![]);
    while i < items.len()
        invariant
            i <= items.len(),
            e == entry_views(entries@),
            (crate::npm::rewrite_views(rs@), entry_views(applied@)) == item_rewrites(items@.take(i as int), e, dedup, acc),
        decreases items.len() - i,
    {
        assert(items@.take(i + 1).drop_last() =~= items@.take(i as int));
        assert(items@.take(i + 1).last() == items@[i as int]);
        let it = &items[i];
        match &it.text {
            Some(s) => match try_update_dependency_spec(s.as_str(), entries) {
                Some((name, spec)) => {
                    let repr = toml_string(spec.as_str());
                    crate::npm::push_rewrite(rs, (it.start, it.end, repr));
                    if !(dedup && has_applied(applied, name.as_str())) {
                        let ghost before = applied@;
                        let v = exact_value_of(entries, name.as_str());
                        let pair = (name, v);
                        applied.push(pair);
                        assert(applied@ =~= before.push(pair));
                        assert(entry_views(applied@) =~= entry_views(before).push((pair.0@, pair.1@)));
                    }
                },
                None => {},
            },
            None => {},
        }
        i += 1;
    }
    assert(items@.take(items.len() as int) =~= items@);
}

/// Rewrite the versions in the text of a `pyproject.toml`, found by
/// `pyproject_fields`: a text that is no TOML document is refused with the
/// parser's message, the rest as `rewrite_manifest_versions` says.
pub fn update_manifest_versions(
    manifest_path: &str,
    input: &str,
    new_pkg_version: Option<&str>,
    new_version_by_name: &[(String, String)],
) -> (r: Result<(String, Vec<(String, String)>), SampoError>)
    ensures
        match toml_syntax(input@) {
            Err(e) => r matches Err(SampoError::Release(m)) && m@ == "Failed to parse pyproject.toml "@ + manifest_path@
                + ": "@ + e,
            Ok(top) => exists|f: PyProjectFields| pyproject_layout(f, top, input@) && (r matches Ok(out) && ({
                let (rs, applied) = pyproject_rewrites(
                    f,
                    match new_pkg_version {
                        Some(t) => Some(t@),
                        None => None,
                    },
                    entry_views(new_version_by_name@),
                );
                out.0@ == crate::npm::rewritten(input@, rs, 0) && entry_views(out.1@) == applied
            })),
        },
{
    match pyproject_fields(input) {
        Ok(f) => {
            let r = rewrite_manifest_versions(input, &f, new_pkg_version, new_version_by_name);
            proof {
                assert(pyproject_layout(f, toml_syntax(input@)->Ok_0, input@));
            }
            Ok(r)
        },
        Err(e) => {
            let head = join3("Failed to parse pyproject.toml ", manifest_path, ": ");
            let mut m = head;
            m.append(e.as_str());
            Err(SampoError::Release(m))
        },
    }
}

/// Rewrite the versions in a `pyproject.toml` text: `project.version` (when
/// `new_pkg_version` is given and differs) and the dependency specifiers of
/// the packages `new_version_by_name` names, keeping the rest of the text.
/// `fields` are where the values stand in `input`. Returns the new text and
/// the `(name, version)` updates applied, each name once.
pub fn rewrite_manifest_versions(
    input: &str,
    fields: &PyProjectFields,
    new_pkg_version: Option<&str>,
    new_version_by_name: &[(String, String)],
) -> (r: (String, Vec<(String, String)>))
    ensures
        ({
            let (rs, applied) = pyproject_rewrites(
                *fields,
                match new_pkg_version {
                    Some(t) => Some(t@),
                    None => None,
                },
                entry_views(new_version_by_name@),
            );
            r.0@ == crate::npm::rewritten(input@, rs, 0) && entry_views(r.1@) == applied
        }),
{
    let mut rs: Vec<(usize, usize, String)> = Vec::new();
    let mut applied: Vec<(String, String)> = Vec::new();
    match (new_pkg_version, &fields.version) {
        (Some(t), Some(v)) => {
            let current = match &v.text {
                Some(c) => chars_of(c.as_str()),
                None => Vec::new(),
            };
            if !chars_eq(&current, &chars_of(t)) {
                let repr = toml_string(t);
                crate::npm::push_rewrite(&mut rs, (v.start, v.end, repr));
            }
        },
        _ => {},
    }
    assert(entry_views(applied@) =~= seq![]);
    let ghost target: Option<Seq<char>> = match new_pkg_version {
        Some(t) => Some(t@),
        None => None,
    };
    assert(crate::npm::rewrite_views(rs@) =~= version_stage(*fields, target));
    match &fields.dependencies {
        Some(items) => rewrite_items(items, new_version_by_name, false, &mut rs, &mut applied),
        None => {},
    }
    assert((crate::npm::rewrite_views(rs@), entry_views(applied@)) == dependency_stage(*fields, target, entry_views(new_version_by_name@)));
    match &fields.optional_dependencies {
        Some(groups) => {
            let ghost start = (crate::npm::rewrite_views(rs@), entry_views(applied@));
            let mut g: usize = 0;
            assert(groups@.take(0) =~= seq![]);
            while g < groups.len()
                invariant
                    g <= groups.len(),
                    (crate::npm::rewrite_views(rs@), entry_views(applied@)) == group_rewrites(
                        groups@.take(g as int),
                        entry_views(new_version_by_name@),
                        start,
                    ),
                decreases groups.len() - g,
            {
                assert(groups@.take(g + 1).drop_last() =~= groups@.take(g as int));
                assert(groups@.take(g + 1).last() == groups@[g as int]);
                rewrite_items(&groups[g].1, new_version_by_name, true, &mut rs, &mut applied);
                g += 1;
            }
            assert(groups@.take(groups.len() as int) =~= groups@);
        },
        None => {},
    }
    (crate::npm::apply_rewrites(input, &rs), applied)
}

/// The `[tool.uv.workspace]` member patterns of a parsed `pyproject.toml`.
pub fn parse_uv_workspace_members(doc: &Value) -> (r: Option<Vec<String>>)
    ensures
        opt_strings(r) == match uv_workspace(*doc) {
            Some(w) => string_list(field(w, "members"@)),
            None => None,
        },
{
    parse_uv_workspace_config(doc).members
}

/// The position of an earlier member, before `i`, whose project name has the
/// same PEP 503 form as member `i`'s.
pub open spec fn earlier_twin(members: Seq<(String, String, Value)>, i: int, j: int) -> Option<int>
    decreases i - j,
{
    if j < 0 || j >= i {
        None
    } else if pep503_name(project_name(members[j].2)) == pep503_name(project_name(members[i].2)) {
        Some(j)
    } else {
        earlier_twin(members, i, j + 1)
    }
}

/// The project name of a parsed `pyproject.toml`, or empty.
pub open spec fn project_name(doc: Value) -> Seq<char> {
    match project_text(doc, "name"@) {
        Some(n) => n,
        None => seq![],
    }
}

/// The message for two projects whose names normalise alike.
pub open spec fn collision_message(a: Seq<char>, a_dir: Seq<char>, b: Seq<char>, b_dir: Seq<char>) -> Seq<char> {
    "packages '"@ + a + "' (at "@ + a_dir + ") and '"@ + b + "' (at "@ + b_dir
        + ") normalize to the same PEP 503 name '"@ + pep503_name(b)
        + "'. Python ecosystems do not allow duplicate normalized names"@
}

/// The error for the first member, from position `i` on, without a project
/// name or whose name normalises like an earlier member's.
pub open spec fn first_member_error(members: Seq<(String, String, Value)>, i: int) -> Option<WorkspaceError>
    decreases members.len() - i,
{
    if i < 0 || i >= members.len() {
        None
    } else if project_text(members[i].2, "name"@) is None {
        Some(WorkspaceError::InvalidManifest(owned_spec("missing project.name in "@ + members[i].1@)))
    } else {
        match earlier_twin(members, i, 0) {
            Some(j) => Some(
                WorkspaceError::InvalidWorkspace(
                    owned_spec(
                        collision_message(
                            project_name(members[j].2),
                            members[j].0@,
                            project_name(members[i].2),
                            members[i].0@,
                        ),
                    ),
                ),
            ),
            None => first_member_error(members, i + 1),
        }
    }
}

/// Some string with the given characters.
pub open spec fn owned_spec(s: Seq<char>) -> String {
    choose|t: String| t@ == s
}

/// The same workspace error, texts compared by their characters.
pub open spec fn same_workspace_error(a: WorkspaceError, b: WorkspaceError) -> bool {
    match (a, b) {
        (WorkspaceError::InvalidManifest(x), WorkspaceError::InvalidManifest(y)) => x@ == y@,
        (WorkspaceError::InvalidWorkspace(x), WorkspaceError::InvalidWorkspace(y)) => x@ == y@,
        _ => false,
    }
}

/// The identifiers of the members a project depends on: each dependency
/// whose PEP 503 name is a member's, under that member's project name.
pub open spec fn pypi_internal_ids(doc: Value, members: Seq<(String, String, Value)>) -> Set<Seq<char>> {
    Set::new(
        |id: Seq<char>|
            exists|d: int, m: int|
                0 <= d < dependency_names(doc).len() && 0 <= m < members.len() && pep503_name(
                    #[trigger] dependency_names(doc)[d],
                ) == pep503_name(project_name(#[trigger] members[m].2)) && id == identifier_of(
                    PackageKind::PyPI,
                    project_name(members[m].2),
                ),
    )
}

/// `p` is the package of member `i`.
pub open spec fn pypi_package(members: Seq<(String, String, Value)>, i: int, p: PackageInfo) -> bool {
    let doc = members[i].2;
    &&& p.name@ == project_name(doc)
    &&& p.version@ == match project_text(doc, "version"@) {
        Some(v) => v,
        None => seq![],
    }
    &&& p.identifier@ == identifier_of(PackageKind::PyPI, project_name(doc))
    &&& p.path@ == members[i].0@
    &&& p.kind == PackageKind::PyPI
    &&& strictly_sorted(strs(p.internal_deps@))
    &&& strs(p.internal_deps@).to_set() == pypi_internal_ids(doc, members)
}

proof fn lemma_string_exists(s: Seq<char>, t: String)
    requires
        t@ == s,
    ensures
        owned_spec(s)@ == s,
{
}

/// The packages of the workspace members `(directory, manifest path,
/// parsed pyproject.toml)`, in order; the names of two members must not
/// normalise alike.
pub fn discover_packages(members: &[(String, String, Value)]) -> (r: Result<Vec<PackageInfo>, WorkspaceError>)
    ensures
        match first_member_error(members@, 0) {
            Some(e) => r matches Err(f) && same_workspace_error(f, e),
            None => r matches Ok(ps) && ps.len() == members.len() && forall|i: int|
                0 <= i < members.len() ==> pypi_package(members@, i, #[trigger] ps@[i]),
        },
{
    let mut names: Vec<String> = Vec::new();
    let mut norms: Vec<String> = Vec::new();
    let mut i: usize = 0;
    while i < members.len()
        invariant
            i <= members.len(),
            first_member_error(members@, 0) == first_member_error(members@, i as int),
            names.len() == i && norms.len() == i,
            forall|j: int| 0 <= j < i ==> #[trigger] names@[j]@ == project_name(members@[j].2) && project_text(
                members@[j].2,
                "name"@,
            ) is Some,
            forall|j: int| 0 <= j < i ==> #[trigger] norms@[j]@ == pep503_name(project_name(members@[j].2)),
        decreases members.len() - i,
    {
        let meta = parse_project_metadata(&members[i].2);
        let name = match meta.name {
            Some(n) => n,
            None => {
                let m = join2_text("missing project.name in ", members[i].1.as_str());
                proof {
                    lemma_string_exists(m@, m);
                }
                return Err(WorkspaceError::InvalidManifest(m));
            },
        };
        let norm = normalize_package_name(name.as_str());
        let mut j: usize = 0;
        while j < i
            invariant
                j <= i < members.len(),
                names.len() == i && norms.len() == i,
                name@ == project_name(members@[i as int].2),
                norm@ == pep503_name(name@),
                forall|q: int| 0 <= q < i ==> #[trigger] norms@[q]@ == pep503_name(project_name(members@[q].2)),
                earlier_twin(members@, i as int, 0) == earlier_twin(members@, i as int, j as int),
                first_member_error(members@, 0) == first_member_error(members@, i as int),
                project_text(members@[i as int].2, "name"@) is Some,
                forall|q: int| 0 <= q < i ==> #[trigger] names@[q]@ == project_name(members@[q].2),
            decreases i - j,
        {
            if chars_eq(&chars_of(norms[j].as_str()), &chars_of(norm.as_str())) {
                let a = join3("packages '", names[j].as_str(), "' (at ");
                let b = join3(a.as_str(), members[j].0.as_str(), ") and '");
                let c = join3(b.as_str(), name.as_str(), "' (at ");
                let d = join3(c.as_str(), members[i].0.as_str(), ") normalize to the same PEP 503 name '");
                let m = join3(d.as_str(), norm.as_str(), "'. Python ecosystems do not allow duplicate normalized names");
                proof {
                    lemma_string_exists(m@, m);
                }
                return Err(WorkspaceError::InvalidWorkspace(m));
            }
            j += 1;
        }
        let ghost nb = names@;
        let ghost mb = norms@;
        names.push(name);
        norms.push(norm);
        assert(forall|q: int| 0 <= q < i ==> names@[q] == nb[q] && norms@[q] == mb[q]);
        i += 1;
    }
    let mut out: Vec<PackageInfo> = Vec::new();
    let mut k: usize = 0;
    while k < members.len()
        invariant
            k <= members.len(),
            names.len() == members.len() && norms.len() == members.len(),
            forall|j: int| 0 <= j < members.len() ==> #[trigger] names@[j]@ == project_name(members@[j].2),
            forall|j: int| 0 <= j < members.len() ==> #[trigger] norms@[j]@ == pep503_name(project_name(members@[j].2)),
            out.len() == k,
            forall|j: int| 0 <= j < k ==> pypi_package(members@, j, #[trigger] out@[j]),
        decreases members.len() - k,
    {
        let doc = &members[k].2;
        let meta = parse_project_metadata(doc);
        let version = match meta.version {
            Some(v) => v,
            None => String::new(),
        };
        let deps = collect_dependencies(doc);
        let ghost dn = dependency_names(*doc);
        let mut internal: Vec<String> = Vec::new();
        let mut d: usize = 0;
        while d < deps.len()
            invariant
                d <= deps.len(),
                deps@.map_values(|s: String| s@) == dn,
                names.len() == members.len() && norms.len() == members.len(),
                forall|j: int| 0 <= j < members.len() ==> #[trigger] names@[j]@ == project_name(members@[j].2),
                forall|j: int| 0 <= j < members.len() ==> #[trigger] norms@[j]@ == pep503_name(project_name(members@[j].2)),
                strictly_sorted(strs(internal@)),
                strs(internal@).to_set() == Set::new(
                    |id: Seq<char>|
                        exists|e: int, m: int|
                            0 <= e < d && 0 <= m < members.len() && pep503_name(#[trigger] dn[e]) == pep503_name(
                                project_name(#[trigger] members@[m].2),
                            ) && id == identifier_of(PackageKind::PyPI, project_name(members@[m].2)),
                ),
            decreases deps.len() - d,
        {
            assert(dn[d as int] == deps@[d as int]@);
            let nd = normalize_package_name(deps[d].as_str());
            let ghost before = strs(internal@).to_set();
            let mut m: usize = 0;
            while m < members.len()
                invariant
                    m <= members.len(),
                    names.len() == members.len() && norms.len() == members.len(),
                    nd@ == pep503_name(dn[d as int]),
                    forall|j: int| 0 <= j < members.len() ==> #[trigger] names@[j]@ == project_name(members@[j].2),
                    forall|j: int| 0 <= j < members.len() ==> #[trigger] norms@[j]@ == pep503_name(project_name(members@[j].2)),
                    strictly_sorted(strs(internal@)),
                    strs(internal@).to_set() == before + Set::new(
                        |id: Seq<char>|
                            exists|q: int|
                                0 <= q < m && pep503_name(dn[d as int]) == pep503_name(
                                    project_name(#[trigger] members@[q].2),
                                ) && id == identifier_of(PackageKind::PyPI, project_name(members@[q].2)),
                    ),
                decreases members.len() - m,
            {
                if chars_eq(&chars_of(norms[m].as_str()), &chars_of(nd.as_str())) {
                    insert_sorted(&mut internal, PackageInfo::dependency_identifier(PackageKind::PyPI, names[m].as_str()));
                }
                assert(strs(internal@).to_set() =~= before + Set::new(
                    |id: Seq<char>|
                        exists|q: int|
                            0 <= q < m + 1 && pep503_name(dn[d as int]) == pep503_name(
                                project_name(#[trigger] members@[q].2),
                            ) && id == identifier_of(PackageKind::PyPI, project_name(members@[q].2)),
                ));
                m += 1;
            }
            assert(strs(internal@).to_set() =~= Set::new(
                |id: Seq<char>|
                    exists|e: int, m: int|
                        0 <= e < d + 1 && 0 <= m < members.len() && pep503_name(#[trigger] dn[e]) == pep503_name(
                            project_name(#[trigger] members@[m].2),
                        ) && id == identifier_of(PackageKind::PyPI, project_name(members@[m].2)),
            ));
            d += 1;
        }
        assert(deps@.map_values(|s: String| s@).len() == deps.len());
        let name = owned(names[k].as_str());
        let identifier = PackageInfo::dependency_identifier(PackageKind::PyPI, name.as_str());
        let p = PackageInfo {
            name,
            identifier,
            version,
            path: owned(members[k].0.as_str()),
            internal_deps: internal,
            internal_dev_deps: Vec::new(),
            kind: PackageKind::PyPI,
        };
        let ghost ob = out@;
        out.push(p);
        assert(out@ =~= ob.push(p));
        assert(strs(p.internal_deps@).to_set() =~= pypi_internal_ids(*doc, members@));
        assert(pypi_package(members@, k as int, p));
        assert(forall|j: int| 0 <= j < k ==> out@[j] == ob[j]);
        k += 1;
    }
    Ok(out)
}

fn join2_text(a: &str, b: &str) -> (r: String)
    ensures
        r@ == a@ + b@,
{
    let mut s = owned(a);
    s.append(b);
    s
}

} // verus!
