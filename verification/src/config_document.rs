//! Reading the configuration from its parsed TOML document.
use crate::config::Config;
use crate::errors::SampoError;
use crate::text::{chars_eq, chars_of, join2, join3, owned, string_of, trim, trim_chars};
use crate::parse::{parse_toml, toml_document};
use crate::tree::{bool_of, field, field_of, list_of, text_of, Value};
use crate::version::{decimal, decimal_string};
use vstd::prelude::*;
use vstd::string::StringExecFns;

verus! {

/// The number in an integer value.
pub open spec fn int_of(o: Option<Value>) -> Option<i64> {
    match o {
        Some(Value::Int(n)) => Some(n),
        _ => None,
    }
}

/// The trimmed text, when it is not blank.
pub open spec fn nonblank(o: Option<Seq<char>>) -> Option<Seq<char>> {
    match o {
        Some(s) => if trim(s).len() > 0 {
            Some(trim(s))
        } else {
            None
        },
        None => None,
    }
}

/// The strings among `items`, in order.
pub open spec fn strings_in(items: Seq<Value>) -> Seq<Seq<char>>
    decreases items.len(),
{
    if items.len() == 0 {
        seq![]
    } else {
        let rest = strings_in(items.drop_last());
        match items.last() {
            Value::Str(s) => rest.push(s@),
            _ => rest,
        }
    }
}

/// The trimmed strings among `items` that are not blank, in order.
pub open spec fn nonblank_strings_in(items: Seq<Value>) -> Seq<Seq<char>>
    decreases items.len(),
{
    if items.len() == 0 {
        seq![]
    } else {
        let rest = nonblank_strings_in(items.drop_last());
        match items.last() {
            Value::Str(s) => if trim(s@).len() > 0 {
                rest.push(trim(s@))
            } else {
                rest
            },
            _ => rest,
        }
    }
}

/// The strings of an array value, or none when it is absent or not an array.
pub open spec fn string_list(o: Option<Value>) -> Seq<Seq<char>> {
    match list_of(o) {
        Some(items) => strings_in(items),
        None => seq![],
    }
}

/// The non-blank trimmed strings of an array value.
pub open spec fn nonblank_list(o: Option<Value>) -> Seq<Seq<char>> {
    match list_of(o) {
        Some(items) => nonblank_strings_in(items),
        None => seq![],
    }
}

pub open spec fn is_list(v: Value) -> bool {
    v is List
}

/// The string groups of an array of arrays.
pub open spec fn groups_in(items: Seq<Value>) -> Seq<Seq<Seq<char>>>
    decreases items.len(),
{
    if items.len() == 0 {
        seq![]
    } else {
        let rest = groups_in(items.drop_last());
        match items.last() {
            Value::List(inner) => rest.push(strings_in(inner@)),
            _ => rest,
        }
    }
}

/// The groups one after another.
pub open spec fn flatten(groups: Seq<Seq<Seq<char>>>) -> Seq<Seq<char>>
    decreases groups.len(),
{
    if groups.len() == 0 {
        seq![]
    } else {
        flatten(groups.drop_last()) + groups.last()
    }
}

/// The first name of `names` at or after `i` that already appeared before it.
pub open spec fn repeated_from(names: Seq<Seq<char>>, i: int) -> Option<Seq<char>>
    decreases names.len() - i,
{
    if i < 0 || i >= names.len() {
        None
    } else if names.take(i).contains(names[i]) {
        Some(names[i])
    } else {
        repeated_from(names, i + 1)
    }
}

/// The first name of `names` that `others` also holds.
pub open spec fn shared_from(names: Seq<Seq<char>>, others: Seq<Seq<char>>, i: int) -> Option<
    Seq<char>,
>
    decreases names.len() - i,
{
    if i < 0 || i >= names.len() {
        None
    } else if others.contains(names[i]) {
        Some(names[i])
    } else {
        shared_from(names, others, i + 1)
    }
}

/// How TOML displays a value that is not an array (strings quoted).
pub open spec fn display_text(v: Value) -> Seq<char> {
    match v {
        Value::Str(s) => "\""@ + s@ + "\""@,
        Value::Int(n) => if n < 0 {
            "-"@ + decimal(-n)
        } else {
            decimal(n as int)
        },
        Value::Bool(b) => if b {
            "true"@
        } else {
            "false"@
        },
        Value::Other(t) => t@,
        _ => seq![],
    }
}

/// The first item that is not an array.
pub open spec fn first_non_list(items: Seq<Value>, i: int) -> Option<Value>
    decreases items.len() - i,
{
    if i < 0 || i >= items.len() {
        None
    } else if !is_list(items[i]) {
        Some(items[i])
    } else {
        first_non_list(items, i + 1)
    }
}

/// What is wrong with the `packages.{label}` groups, if anything.
pub open spec fn groups_problem(label: Seq<char>, items: Seq<Value>) -> Option<Seq<char>> {
    let all_lists = forall|i: int| 0 <= i < items.len() ==> is_list(#[trigger] items[i]);
    let any_list = exists|i: int| 0 <= i < items.len() && is_list(#[trigger] items[i]);
    if !all_lists {
        if any_list {
            Some("packages."@ + label + " must be an array of arrays, found mixed format with: "@
                + display_text(first_non_list(items, 0)->0)
                + ". Use [[\"a\", \"b\"]] instead of [\"a\", \"b\"]"@)
        } else {
            Some("packages."@ + label
                + " must be an array of arrays. Use [[\"a\", \"b\"]] instead of [\"a\", \"b\"]"@)
        }
    } else {
        match repeated_from(flatten(groups_in(items)), 0) {
            Some(p) => Some("Package '"@ + p + "' appears in multiple "@ + label
                + " dependency groups. Each package can only belong to one group."@),
            None => None,
        }
    }
}

/// The array under `packages.{label}`, if it is one.
pub open spec fn packages_list(doc: Value, label: Seq<char>) -> Option<Seq<Value>> {
    list_of(field_of(map_or_none(field(doc, "packages"@)), label))
}

/// `o` when it is a table.
pub open spec fn map_or_none(o: Option<Value>) -> Option<Value> {
    match o {
        Some(Value::Table(e)) => Some(Value::Table(e)),
        _ => None,
    }
}

/// The dependency groups under `packages.{label}`.
pub open spec fn groups_of(doc: Value, label: Seq<char>) -> Seq<Seq<Seq<char>>> {
    match packages_list(doc, label) {
        Some(items) => groups_in(items),
        None => seq![],
    }
}

/// Why the document is not a valid configuration, if it is not.
pub open spec fn config_problem(doc: Value) -> Option<Seq<char>> {
    let fixed_problem = match packages_list(doc, "fixed"@) {
        Some(items) => groups_problem("fixed"@, items),
        None => None,
    };
    let linked_problem = match packages_list(doc, "linked"@) {
        Some(items) => groups_problem("linked"@, items),
        None => None,
    };
    if fixed_problem is Some {
        fixed_problem
    } else if linked_problem is Some {
        linked_problem
    } else {
        match shared_from(flatten(groups_of(doc, "linked"@)), flatten(groups_of(doc, "fixed"@)), 0) {
            Some(p) => Some("Package '"@ + p
                + "' cannot appear in both packages.fixed and packages.linked"@),
            None => None,
        }
    }
}

/// A section of the document, when it is a table.
pub open spec fn section(doc: Value, name: Seq<char>) -> Option<Value> {
    map_or_none(field(doc, name))
}

pub open spec fn opt_string_view(o: Option<String>) -> Option<Seq<char>> {
    match o {
        Some(s) => Some(s@),
        None => None,
    }
}

pub open spec fn string_views(v: Seq<String>) -> Seq<Seq<char>> {
    v.map_values(|s: String| s@)
}

pub open spec fn group_views(v: Seq<Vec<String>>) -> Seq<Seq<Seq<char>>> {
    v.map_values(|g: Vec<String>| string_views(g@))
}

/// The configuration a valid document describes, field by field.
pub open spec fn config_from(c: Config, doc: Value) -> bool {
    let changelog = section(doc, "changelog"@);
    let git = section(doc, "git"@);
    &&& c.version == (match int_of(field(doc, "version"@)) {
        Some(n) => if n >= 0 {
            n as u64
        } else {
            1u64
        },
        None => 1u64,
    })
    &&& opt_string_view(c.github_repository) == text_of(
        field_of(section(doc, "github"@), "repository"@),
    )
    &&& c.changelog_show_commit_hash == (match bool_of(field_of(changelog, "show_commit_hash"@)) {
        Some(b) => b,
        None => true,
    })
    &&& c.changelog_show_acknowledgments == (match bool_of(
        field_of(changelog, "show_acknowledgments"@),
    ) {
        Some(b) => b,
        None => true,
    })
    &&& c.changelog_show_release_date == (match bool_of(
        field_of(changelog, "show_release_date"@),
    ) {
        Some(b) => b,
        None => true,
    })
    &&& c.changelog_release_date_format@ == (match text_of(
        field_of(changelog, "release_date_format"@),
    ) {
        Some(s) => s,
        None => "%Y-%m-%d"@,
    })
    &&& opt_string_view(c.changelog_release_date_timezone) == nonblank(
        text_of(field_of(changelog, "release_date_timezone"@)),
    )
    &&& string_views(c.changesets_tags@) == nonblank_list(
        field_of(section(doc, "changesets"@), "tags"@),
    )
    &&& group_views(c.fixed_dependencies@) == groups_of(doc, "fixed"@)
    &&& group_views(c.linked_dependencies@) == groups_of(doc, "linked"@)
    &&& c.ignore_unpublished == (match bool_of(
        field_of(section(doc, "packages"@), "ignore_unpublished"@),
    ) {
        Some(b) => b,
        None => false,
    })
    &&& string_views(c.ignore@) == string_list(field_of(section(doc, "packages"@), "ignore"@))
    &&& opt_string_view(c.git_default_branch) == nonblank(
        text_of(field_of(git, "default_branch"@)),
    )
    &&& string_views(c.git_release_branches@) == nonblank_list(
        field_of(git, "release_branches"@),
    )
    &&& opt_string_view(c.git_short_tags) == nonblank(text_of(field_of(git, "short_tags"@)))
}

/// The value behind an optional reference.
pub open spec fn deref_opt(o: Option<&Value>) -> Option<Value> {
    match o {
        Some(x) => Some(*x),
        None => None,
    }
}

fn table_field<'a>(t: Option<&'a Value>, key: &str) -> (r: Option<&'a Value>)
    ensures
        deref_opt(r) == field_of(deref_opt(t), key@),
{
    match t {
        Some(v) => v.get(key),
        None => None,
    }
}

fn as_section(o: Option<&Value>) -> (r: Option<&Value>)
    ensures
        deref_opt(r) == map_or_none(deref_opt(o)),
{
    match o {
        Some(v) => match v {
            Value::Table(_) => Some(v),
            _ => None,
        },
        None => None,
    }
}

fn text_field(o: Option<&Value>) -> (r: Option<String>)
    ensures
        opt_string_view(r) == text_of(deref_opt(o)),
{
    match o {
        Some(v) => match v.as_str() {
            Some(s) => Some(owned(s)),
            None => None,
        },
        None => None,
    }
}

fn nonblank_text(o: Option<String>) -> (r: Option<String>)
    ensures
        opt_string_view(r) == nonblank(opt_string_view(o)),
{
    match o {
        Some(s) => {
            let t = trim_chars(&chars_of(s.as_str()));
            if t.len() > 0 {
                Some(string_of(&t))
            } else {
                None
            }
        },
        None => None,
    }
}

fn bool_field(o: Option<&Value>, default: bool) -> (r: bool)
    ensures
        r == match bool_of(deref_opt(o)) {
            Some(b) => b,
            None => default,
        },
{
    match o {
        Some(v) => match v.as_bool() {
            Some(b) => b,
            None => default,
        },
        None => default,
    }
}

fn strings_exec(items: &Vec<Value>, only_nonblank: bool) -> (r: Vec<String>)
    ensures
        string_views(r@) == if only_nonblank {
            nonblank_strings_in(items@)
        } else {
            strings_in(items@)
        },
{
    let mut out: Vec<String> = Vec::new();
    let mut i: usize = 0;
    while i < items.len()
        invariant
            i <= items.len(),
            string_views(out@) == if only_nonblank {
                nonblank_strings_in(items@.take(i as int))
            } else {
                strings_in(items@.take(i as int))
            },
        decreases items.len() - i,
    {
        assert(items@.take(i + 1).drop_last() =~= items@.take(i as int));
        assert(items@.take(i + 1).last() == items@[i as int]);
        let ghost before = out@;
        match &items[i] {
            Value::Str(s) => {
                if only_nonblank {
                    let t = trim_chars(&chars_of(s.as_str()));
                    if t.len() > 0 {
                        out.push(string_of(&t));
                        assert(string_views(out@) =~= string_views(before).push(t@));
                    }
                } else {
                    out.push(owned(s.as_str()));
                    assert(string_views(out@) =~= string_views(before).push(s@));
                }
            },
            _ => {},
        }
        i += 1;
    }
    assert(items@.take(items.len() as int) =~= items@);
    out
}

fn string_list_exec(o: Option<&Value>, only_nonblank: bool) -> (r: Vec<String>)
    ensures
        string_views(r@) == if only_nonblank {
            nonblank_list(deref_opt(o))
        } else {
            string_list(deref_opt(o))
        },
{
    match o {
        Some(v) => match v.as_list() {
            Some(items) => strings_exec(items, only_nonblank),
            None => Vec::new(),
        },
        None => Vec::new(),
    }
}

fn groups_exec(items: &Vec<Value>) -> (r: Vec<Vec<String>>)
    ensures
        group_views(r@) == groups_in(items@),
{
    let mut out: Vec<Vec<String>> = Vec::new();
    let mut i: usize = 0;
    while i < items.len()
        invariant
            i <= items.len(),
            group_views(out@) == groups_in(items@.take(i as int)),
        decreases items.len() - i,
    {
        assert(items@.take(i + 1).drop_last() =~= items@.take(i as int));
        assert(items@.take(i + 1).last() == items@[i as int]);
        let ghost before = out@;
        match &items[i] {
            Value::List(inner) => {
                let g = strings_exec(inner, false);
                out.push(g);
                assert(group_views(out@) =~= group_views(before).push(strings_in(inner@)));
            },
            _ => {},
        }
        i += 1;
    }
    assert(items@.take(items.len() as int) =~= items@);
    out
}

fn flatten_exec(groups: &Vec<Vec<String>>) -> (r: Vec<String>)
    ensures
        string_views(r@) == flatten(group_views(groups@)),
{
    let mut out: Vec<String> = Vec::new();
    let mut i: usize = 0;
    let ghost g = group_views(groups@);
    while i < groups.len()
        invariant
            i <= groups.len(),
            g == group_views(groups@),
            string_views(out@) == flatten(g.take(i as int)),
        decreases groups.len() - i,
    {
        assert(g.take(i + 1).drop_last() =~= g.take(i as int));
        assert(g.take(i + 1).last() == string_views(groups@[i as int]@));
        let group = &groups[i];
        let ghost start = string_views(out@);
        let mut j: usize = 0;
        while j < group.len()
            invariant
                j <= group.len(),
                string_views(out@) == start + string_views(group@.take(j as int)),
            decreases group.len() - j,
        {
            let ghost before = out@;
            out.push(owned(group[j].as_str()));
            assert(string_views(group@.take(j + 1)) =~= string_views(group@.take(j as int)).push(
                group@[j as int]@,
            ));
            assert(string_views(out@) =~= string_views(before).push(group@[j as int]@));
            j += 1;
        }
        assert(group@.take(group.len() as int) =~= group@);
        i += 1;
    }
    assert(g.take(groups.len() as int) =~= g);
    out
}

fn contains_name(names: &Vec<String>, upto: usize, x: &Vec<char>) -> (r: bool)
    requires
        upto <= names.len(),
    ensures
        r == string_views(names@).take(upto as int).contains(x@),
{
    let mut k: usize = 0;
    while k < upto
        invariant
            k <= upto <= names.len(),
            forall|q: int| 0 <= q < k ==> string_views(names@)[q] != x@,
        decreases upto - k,
    {
        if chars_eq(&chars_of(names[k].as_str()), x) {
            assert(string_views(names@).take(upto as int)[k as int] == x@);
            return true;
        }
        k += 1;
    }
    assert forall|q: int| 0 <= q < upto implies string_views(names@).take(upto as int)[q] != x@ by {
        assert(string_views(names@).take(upto as int)[q] == string_views(names@)[q]);
    }
    false
}

fn repeated_exec(names: &Vec<String>) -> (r: Option<String>)
    ensures
        opt_string_view(r) == repeated_from(string_views(names@), 0),
{
    let ghost n = string_views(names@);
    let mut i: usize = 0;
    while i < names.len()
        invariant
            i <= names.len(),
            n == string_views(names@),
            repeated_from(n, 0) == repeated_from(n, i as int),
        decreases names.len() - i,
    {
        let x = chars_of(names[i].as_str());
        assert(n[i as int] == x@);
        if contains_name(names, i, &x) {
            return Some(owned(names[i].as_str()));
        }
        i += 1;
    }
    None
}

fn shared_exec(names: &Vec<String>, others: &Vec<String>) -> (r: Option<String>)
    ensures
        opt_string_view(r) == shared_from(string_views(names@), string_views(others@), 0),
{
    let ghost n = string_views(names@);
    let ghost o = string_views(others@);
    let mut i: usize = 0;
    while i < names.len()
        invariant
            i <= names.len(),
            n == string_views(names@),
            o == string_views(others@),
            shared_from(n, o, 0) == shared_from(n, o, i as int),
        decreases names.len() - i,
    {
        let x = chars_of(names[i].as_str());
        assert(n[i as int] == x@);
        assert(o.take(others.len() as int) =~= o);
        if contains_name(others, others.len(), &x) {
            return Some(owned(names[i].as_str()));
        }
        i += 1;
    }
    None
}

fn display_exec(v: &Value) -> (r: String)
    ensures
        r@ == display_text(*v),
{
    match v {
        Value::Str(s) => join3("\"", s.as_str(), "\""),
        Value::Int(n) => {
            if *n < 0 {
                let m: i128 = -(*n as i128);
                let d = decimal_string(m as u64);
                join2("-", d.as_str())
            } else {
                decimal_string(*n as u64)
            }
        },
        Value::Bool(b) => if *b {
            owned("true")
        } else {
            owned("false")
        },
        Value::Other(t) => owned(t.as_str()),
        _ => String::new(),
    }
}

fn groups_problem_exec(label: &str, items: &Vec<Value>) -> (r: Option<String>)
    ensures
        opt_string_view(r) == groups_problem(label@, items@),
{
    let mut all_lists = true;
    let mut any_list = false;
    let mut first_other: Option<usize> = None;
    let mut i: usize = 0;
    while i < items.len()
        invariant
            i <= items.len(),
            all_lists == forall|j: int| 0 <= j < i ==> is_list(#[trigger] items@[j]),
            any_list == exists|j: int| 0 <= j < i && is_list(#[trigger] items@[j]),
            first_other is None ==> all_lists,
            match first_other {
                Some(k) => k < i && first_non_list(items@, 0) == Some(items@[k as int]),
                None => first_non_list(items@, 0) == first_non_list(items@, i as int),
            },
        decreases items.len() - i,
    {
        let here = match &items[i] {
            Value::List(_) => true,
            _ => false,
        };
        assert(here == is_list(items@[i as int]));
        if here {
            any_list = true;
        } else {
            all_lists = false;
            if first_other.is_none() {
                first_other = Some(i);
            }
        }
        i += 1;
    }
    if !all_lists {
        if any_list {
            let k = match first_other {
                Some(k) => k,
                None => 0,
            };
            let shown = display_exec(&items[k]);
            let mut m = join3("packages.", label, " must be an array of arrays, found mixed format with: ");
            m.append(shown.as_str());
            m.append(". Use [[\"a\", \"b\"]] instead of [\"a\", \"b\"]");
            return Some(m);
        }
        return Some(
            join3(
                "packages.",
                label,
                " must be an array of arrays. Use [[\"a\", \"b\"]] instead of [\"a\", \"b\"]",
            ),
        );
    }
    let groups = groups_exec(items);
    let flat = flatten_exec(&groups);
    match repeated_exec(&flat) {
        Some(p) => {
            let mut m = join3("Package '", p.as_str(), "' appears in multiple ");
            m.append(label);
            m.append(" dependency groups. Each package can only belong to one group.");
            Some(m)
        },
        None => None,
    }
}

impl Config {
    /// The configuration written in the text of a `config.toml`: a text
    /// that is no TOML document is refused with the parser's message, a
    /// document as `from_value` says.
    pub fn from_toml_text(text: &str) -> (r: Result<Config, SampoError>)
        ensures
            match toml_document(text@) {
                Err(e) => r matches Err(SampoError::Config(m)) && m@ == "invalid config.toml: "@ + e,
                Ok(doc) => match config_problem(doc) {
                    Some(m) => r matches Err(SampoError::Config(e)) && e@ == m,
                    None => r matches Ok(c) && config_from(c, doc),
                },
            },
    {
        match parse_toml(text) {
            Ok(doc) => Config::from_value(&doc),
            Err(e) => Err(SampoError::Config(join2("invalid config.toml: ", e.as_str()))),
        }
    }

    /// The configuration described by a parsed `config.toml` document, or the
    /// reason it is invalid.
    pub fn from_value(doc: &Value) -> (r: Result<Config, SampoError>)
        ensures
            match config_problem(*doc) {
                Some(m) => r matches Err(SampoError::Config(e)) && e@ == m,
                None => r matches Ok(c) && config_from(c, *doc),
            },
    {
        let packages = as_section(doc.get("packages"));
        let fixed_items = match table_field(packages, "fixed") {
            Some(v) => v.as_list(),
            None => None,
        };
        let linked_items = match table_field(packages, "linked") {
            Some(v) => v.as_list(),
            None => None,
        };
        let fixed = match fixed_items {
            Some(items) => {
                if let Some(m) = groups_problem_exec("fixed", items) {
                    return Err(SampoError::Config(m));
                }
                groups_exec(items)
            },
            None => Vec::new(),
        };
        let linked = match linked_items {
            Some(items) => {
                if let Some(m) = groups_problem_exec("linked", items) {
                    return Err(SampoError::Config(m));
                }
                groups_exec(items)
            },
            None => Vec::new(),
        };
        assert(group_views(fixed@) == groups_of(*doc, "fixed"@));
        assert(group_views(linked@) == groups_of(*doc, "linked"@));
        let fixed_flat = flatten_exec(&fixed);
        let linked_flat = flatten_exec(&linked);
        if let Some(p) = shared_exec(&linked_flat, &fixed_flat) {
            return Err(
                SampoError::Config(
                    join3("Package '", p.as_str(), "' cannot appear in both packages.fixed and packages.linked"),
                ),
            );
        }
        let version: u64 = match doc.get("version") {
            Some(Value::Int(n)) => if *n >= 0 {
                *n as u64
            } else {
                1
            },
            _ => 1,
        };
        let github = as_section(doc.get("github"));
        let changelog = as_section(doc.get("changelog"));
        let changesets = as_section(doc.get("changesets"));
        let git = as_section(doc.get("git"));
        let format = match text_field(table_field(changelog, "release_date_format")) {
            Some(f) => f,
            None => owned("%Y-%m-%d"),
        };
        Ok(
            Config {
                version,
                github_repository: text_field(table_field(github, "repository")),
                changelog_show_commit_hash: bool_field(table_field(changelog, "show_commit_hash"), true),
                changelog_show_acknowledgments: bool_field(
                    table_field(changelog, "show_acknowledgments"),
                    true,
                ),
                changelog_show_release_date: bool_field(
                    table_field(changelog, "show_release_date"),
                    true,
                ),
                changelog_release_date_format: format,
                changelog_release_date_timezone: nonblank_text(
                    text_field(table_field(changelog, "release_date_timezone")),
                ),
                changesets_tags: string_list_exec(table_field(changesets, "tags"), true),
                fixed_dependencies: fixed,
                linked_dependencies: linked,
                ignore_unpublished: bool_field(table_field(packages, "ignore_unpublished"), false),
                ignore: string_list_exec(table_field(packages, "ignore"), false),
                git_default_branch: nonblank_text(text_field(table_field(git, "default_branch"))),
                git_release_branches: string_list_exec(table_field(git, "release_branches"), true),
                git_short_tags: nonblank_text(text_field(table_field(git, "short_tags"))),
            },
        )
    }
}

proof fn lemma_no_repeat(names: Seq<Seq<char>>, i: int)
    requires
        0 <= i,
        repeated_from(names, i) is None,
    ensures
        forall|k: int| i <= k < names.len() ==> !names.take(k).contains(#[trigger] names[k]),
    decreases names.len() - i,
{
    if i < names.len() {
        lemma_no_repeat(names, i + 1);
    }
}

proof fn lemma_none_shared(names: Seq<Seq<char>>, others: Seq<Seq<char>>, i: int)
    requires
        0 <= i,
        shared_from(names, others, i) is None,
    ensures
        forall|k: int| i <= k < names.len() ==> !others.contains(#[trigger] names[k]),
    decreases names.len() - i,
{
    if i < names.len() {
        lemma_none_shared(names, others, i + 1);
    }
}

/// In a valid configuration no package belongs to two fixed groups, nor to
/// two linked groups, nor to both a fixed and a linked group.
pub proof fn law_dependency_groups_are_disjoint(doc: Value)
    requires
        config_problem(doc) is None,
    ensures
        flatten(groups_of(doc, "fixed"@)).no_duplicates(),
        flatten(groups_of(doc, "linked"@)).no_duplicates(),
        forall|p: Seq<char>|
            flatten(groups_of(doc, "linked"@)).contains(p) ==> !flatten(
                groups_of(doc, "fixed"@),
            ).contains(p),
{
    let fixed = flatten(groups_of(doc, "fixed"@));
    let linked = flatten(groups_of(doc, "linked"@));
    if let Some(items) = packages_list(doc, "fixed"@) {
        assert(groups_problem("fixed"@, items) is None);
        lemma_no_repeat(fixed, 0);
    } else {
        assert(fixed =~= Seq::<Seq<char>>::empty());
    }
    if let Some(items) = packages_list(doc, "linked"@) {
        assert(groups_problem("linked"@, items) is None);
        lemma_no_repeat(linked, 0);
    } else {
        assert(linked =~= Seq::<Seq<char>>::empty());
    }
    assert forall|i: int, j: int| 0 <= i < j < fixed.len() implies fixed[i] != fixed[j] by {
        assert(!fixed.take(j).contains(fixed[j]));
        assert(fixed.take(j)[i] == fixed[i]);
    }
    assert forall|i: int, j: int| 0 <= i < j < linked.len() implies linked[i] != linked[j] by {
        assert(!linked.take(j).contains(linked[j]));
        assert(linked.take(j)[i] == linked[i]);
    }
    lemma_none_shared(linked, fixed, 0);
    assert forall|p: Seq<char>| linked.contains(p) implies !fixed.contains(p) by {
        let k = choose|k: int| 0 <= k < linked.len() && linked[k] == p;
        assert(!fixed.contains(linked[k]));
    }
}

/// A configuration read from the text of a `config.toml` (the `Ok` case of
/// `Config::from_toml_text`) puts no package in two fixed groups, none in
/// two linked groups, and none in both a fixed and a linked group.
pub proof fn law_loaded_groups_are_disjoint(text: Seq<char>, c: Config)
    requires
        toml_document(text) is Ok,
        config_problem(toml_document(text)->Ok_0) is None,
        config_from(c, toml_document(text)->Ok_0),
    ensures
        flatten(group_views(c.fixed_dependencies@)).no_duplicates(),
        flatten(group_views(c.linked_dependencies@)).no_duplicates(),
        forall|p: Seq<char>|
            flatten(group_views(c.linked_dependencies@)).contains(p) ==> !flatten(
                group_views(c.fixed_dependencies@),
            ).contains(p),
{
    law_dependency_groups_are_disjoint(toml_document(text)->Ok_0);
}

/// Whether every item of the array under `packages.{label}` (when there is
/// one) is itself an array.
pub open spec fn all_arrays(doc: Value, label: Seq<char>) -> bool {
    match packages_list(doc, label) {
        Some(items) => forall|i: int| 0 <= i < items.len() ==> is_list(#[trigger] items[i]),
        None => true,
    }
}

proof fn lemma_repeat_found(names: Seq<Seq<char>>, k: int)
    requires
        repeated_from(names, k) is Some,
    ensures
        exists|j: int| k <= j < names.len() && #[trigger] names.take(j).contains(names[j]),
    decreases names.len() - k,
{
    if !names.take(k).contains(names[k]) {
        lemma_repeat_found(names, k + 1);
    }
}

proof fn lemma_shared_found(names: Seq<Seq<char>>, others: Seq<Seq<char>>, k: int)
    requires
        shared_from(names, others, k) is Some,
    ensures
        exists|j: int| k <= j < names.len() && others.contains(#[trigger] names[j]),
    decreases names.len() - k,
{
    if !others.contains(names[k]) {
        lemma_shared_found(names, others, k + 1);
    }
}

proof fn lemma_refused_group(label: Seq<char>, items: Seq<Value>)
    requires
        groups_problem(label, items) is Some,
    ensures
        !(forall|i: int| 0 <= i < items.len() ==> is_list(#[trigger] items[i])) || !flatten(
            groups_in(items),
        ).no_duplicates(),
{
    let all_lists = forall|i: int| 0 <= i < items.len() ==> is_list(#[trigger] items[i]);
    if all_lists {
        let names = flatten(groups_in(items));
        lemma_repeat_found(names, 0);
        let j = choose|j: int| 0 <= j < names.len() && #[trigger] names.take(j).contains(names[j]);
        let i = choose|i: int| 0 <= i < names.take(j).len() && names.take(j)[i] == names[j];
        assert(names[i] == names[j]);
    }
}

/// A document is refused as a configuration exactly when an item of
/// `packages.fixed` or of `packages.linked` is no array, a package appears
/// twice among the fixed groups or twice among the linked groups, or a
/// package appears in both a fixed and a linked group.
pub proof fn law_config_refused_iff(doc: Value)
    ensures
        config_problem(doc) is Some <==> (!all_arrays(doc, "fixed"@) || !all_arrays(doc, "linked"@) || !flatten(
            groups_of(doc, "fixed"@),
        ).no_duplicates() || !flatten(groups_of(doc, "linked"@)).no_duplicates() || exists|p: Seq<char>|
            flatten(groups_of(doc, "linked"@)).contains(p) && flatten(groups_of(doc, "fixed"@)).contains(p)),
{
    let fixed = flatten(groups_of(doc, "fixed"@));
    let linked = flatten(groups_of(doc, "linked"@));
    if config_problem(doc) is None {
        law_dependency_groups_are_disjoint(doc);
        if let Some(items) = packages_list(doc, "fixed"@) {
            assert(groups_problem("fixed"@, items) is None);
        }
        if let Some(items) = packages_list(doc, "linked"@) {
            assert(groups_problem("linked"@, items) is None);
        }
    } else {
        let fixed_problem = match packages_list(doc, "fixed"@) {
            Some(items) => groups_problem("fixed"@, items),
            None => None,
        };
        let linked_problem = match packages_list(doc, "linked"@) {
            Some(items) => groups_problem("linked"@, items),
            None => None,
        };
        if fixed_problem is Some {
            lemma_refused_group("fixed"@, packages_list(doc, "fixed"@)->Some_0);
        } else if linked_problem is Some {
            lemma_refused_group("linked"@, packages_list(doc, "linked"@)->Some_0);
        } else {
            lemma_shared_found(linked, fixed, 0);
            let j = choose|j: int| 0 <= j < linked.len() && fixed.contains(#[trigger] linked[j]);
            assert(linked.contains(linked[j]) && fixed.contains(linked[j]));
        }
    }
}

} // verus!
