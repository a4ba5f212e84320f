//! Hex (Elixir/Erlang/Gleam) version requirements: `~>`, comparison operators,
//! and `and` / `or` conjunctions.
use crate::text::{
    ends_with_exec,
    chars_of, contains, contains_exec, has_char, join3, lower, lower_chars, owned, parse_u64,
    parse_u64_exec, slice, split, split_ci, split_ci_exec, split_exec, starts_with,
    starts_with_exec, string_of, trim, trim_chars, trim_end, trim_start, views, lemma_trim_end_len,
};
use crate::types::{CheckOutcome, ConstraintCheckResult};
use crate::version::{
    before_char, before_char_exec, below_next_major, below_next_minor, bound, in_range, le, lt,
    parts_triple, parts_triple_exec, version_eq, version_le, version_lt, Triple,
};
use crate::paths::{file_name, file_name_of};
use vstd::prelude::*;

verus! {

/// A Hex version: the trimmed text up to the first `-` (pre-release tags are
/// ignored), read as `major.minor[.patch]`.
pub open spec fn hex_version(s: Seq<char>) -> Option<Triple> {
    let t = trim(s);
    if t.len() == 0 {
        None
    } else {
        parts_triple(split(before_char(t, '-'), seq!['.']))
    }
}

/// `~> X.Y` means `[X.Y.0, (X+1).0.0)`; `~> X.Y.Z` means `[X.Y.Z, X.(Y+1).0)`.
pub open spec fn pessimistic(s: Seq<char>, v: Triple) -> Option<bool> {
    let parts = split(trim(s), seq!['.']);
    if parts.len() == 2 {
        match (parse_u64(parts[0]), parse_u64(parts[1])) {
            (Some(a), Some(b)) => Some(in_range(v, (a as int, b as int, 0), (a + 1, 0, 0))),
            _ => None,
        }
    } else if parts.len() == 3 {
        match (parse_u64(parts[0]), parse_u64(parts[1]), parse_u64(parts[2])) {
            (Some(a), Some(b), Some(c)) => Some(
                in_range(v, (a as int, b as int, c as int), (a as int, b + 1, 0)),
            ),
            _ => None,
        }
    } else {
        None
    }
}

/// What a single comparator says of `v`; `None` when it cannot be read.
pub open spec fn hex_comparator(comp: Seq<char>, v: Triple) -> Option<bool> {
    let c = trim(comp);
    let target = |n: int| hex_version(trim(c.skip(n)));
    if c.len() == 0 {
        None
    } else if starts_with(c, seq!['~', '>']) {
        pessimistic(trim(c.skip(2)), v)
    } else if starts_with(c, seq!['=', '=']) {
        match target(2) {
            Some(t) => Some(v == t),
            None => None,
        }
    } else if starts_with(c, seq!['!', '=']) {
        match target(2) {
            Some(t) => Some(v != t),
            None => None,
        }
    } else if starts_with(c, seq!['>', '=']) {
        match target(2) {
            Some(t) => Some(le(bound(t), bound(v))),
            None => None,
        }
    } else if starts_with(c, seq!['<', '=']) {
        match target(2) {
            Some(t) => Some(le(bound(v), bound(t))),
            None => None,
        }
    } else if starts_with(c, seq!['>']) {
        match target(1) {
            Some(t) => Some(lt(bound(t), bound(v))),
            None => None,
        }
    } else if starts_with(c, seq!['<']) {
        match target(1) {
            Some(t) => Some(lt(bound(v), bound(t))),
            None => None,
        }
    } else if starts_with(c, seq!['=']) {
        match target(1) {
            Some(t) => Some(v == t),
            None => None,
        }
    } else {
        match hex_version(c) {
            Some(t) => Some(v == t),
            None => None,
        }
    }
}

pub open spec fn kw_or() -> Seq<char> {
    seq![' ', 'o', 'r', ' ']
}

pub open spec fn kw_and() -> Seq<char> {
    seq![' ', 'a', 'n', 'd', ' ']
}

/// Every comparator holds, read left to right; an unreadable one makes the whole unreadable.
pub open spec fn all_comparators(parts: Seq<Seq<char>>, v: Triple) -> Option<bool>
    decreases parts.len(),
{
    if parts.len() == 0 {
        Some(true)
    } else {
        match hex_comparator(trim(parts[0]), v) {
            Some(true) => all_comparators(parts.drop_first(), v),
            Some(false) => Some(false),
            None => None,
        }
    }
}

/// A conjunction: comparators joined by `and` (any letter case).
pub open spec fn hex_conjunction(c: Seq<char>, v: Triple) -> Option<bool> {
    if contains(lower(c), kw_and()) {
        all_comparators(split_ci(c, kw_and()), v)
    } else {
        hex_comparator(c, v)
    }
}

/// Some conjunction holds, read left to right; an unreadable one makes the whole unreadable.
pub open spec fn any_conjunction(parts: Seq<Seq<char>>, v: Triple) -> Option<bool>
    decreases parts.len(),
{
    if parts.len() == 0 {
        Some(false)
    } else {
        match hex_conjunction(trim(parts[0]), v) {
            Some(true) => Some(true),
            Some(false) => any_conjunction(parts.drop_first(), v),
            None => None,
        }
    }
}

/// A requirement: conjunctions joined by `or` (any letter case).
pub open spec fn hex_requirement(c: Seq<char>, v: Triple) -> Option<bool> {
    if contains(lower(c), kw_or()) {
        any_conjunction(split_ci(c, kw_or()), v)
    } else {
        hex_conjunction(c, v)
    }
}

/// A requirement written as a bare version, with no operator or conjunction.
pub open spec fn hex_pinned(t: Seq<char>) -> bool {
    &&& !starts_with(t, seq!['~', '>'])
    &&& !starts_with(t, seq!['=', '='])
    &&& !starts_with(t, seq!['>', '='])
    &&& !starts_with(t, seq!['<', '='])
    &&& !starts_with(t, seq!['>'])
    &&& !starts_with(t, seq!['<'])
    &&& !starts_with(t, seq!['='])
    &&& !contains(t, kw_and())
    &&& !contains(t, kw_or())
    &&& !contains(t, seq![' ', 'A', 'N', 'D', ' '])
    &&& !contains(t, seq![' ', 'O', 'R', ' '])
    &&& hex_version(t) is Some
}

/// The outcome of checking the requirement `constraint` (absent when the
/// manifest does not name the dependency) against `new_version`.
pub open spec fn hex_check(
    dep_name: Seq<char>,
    constraint: Option<Seq<char>>,
    new_version: Seq<char>,
) -> CheckOutcome {
    match constraint {
        None => CheckOutcome::Skipped {
            reason: "dependency '"@ + dep_name + "' not found in manifest"@,
        },
        Some(c) => {
            let t = trim(c);
            let nv = trim(new_version);
            if t.len() == 0 {
                CheckOutcome::Skipped { reason: "empty constraint"@ }
            } else if nv.contains('-') {
                CheckOutcome::Skipped { reason: "pre-release version"@ }
            } else if hex_pinned(t) {
                CheckOutcome::Skipped { reason: "pinned version"@ }
            } else {
                match hex_version(nv) {
                    None => CheckOutcome::Skipped {
                        reason: "unparseable version '"@ + new_version + "'"@,
                    },
                    Some(v) => match hex_requirement(t, v) {
                        Some(true) => CheckOutcome::Satisfied,
                        Some(false) => CheckOutcome::NotSatisfied { constraint: t, new_version: nv },
                        None => CheckOutcome::Skipped {
                            reason: "unparseable constraint '"@ + t + "'"@,
                        },
                    },
                }
            }
        }
    }
}

fn hex_version_chars(s: &Vec<char>) -> (r: Option<Triple>)
    ensures
        r == hex_version(s@),
{
    let t = trim_chars(s);
    if t.len() == 0 {
        return None;
    }
    let base = before_char_exec(&t, '-');
    let dot = vec!['.'];
    assert(dot@ =~= seq!['.']);
    let parts = split_exec(&base, &dot);
    parts_triple_exec(&parts)
}

/// Read a Hex version, ignoring any pre-release tag.
pub fn parse_hex_version(s: &str) -> (r: Option<(u64, u64, u64)>)
    ensures
        r == hex_version(s@),
{
    let v = chars_of(s);
    hex_version_chars(&v)
}

fn pessimistic_chars(s: &Vec<char>, v: Triple) -> (r: Option<bool>)
    ensures
        r == pessimistic(s@, v),
{
    let t = trim_chars(s);
    let dot = vec!['.'];
    assert(dot@ =~= seq!['.']);
    let parts = split_exec(&t, &dot);
    let ghost p = views(parts@);
    if parts.len() == 2 {
        assert(p[0] == parts@[0]@ && p[1] == parts@[1]@);
        match (parse_u64_exec(&parts[0]), parse_u64_exec(&parts[1])) {
            (Some(a), Some(b)) => Some(version_le((a, b, 0), v) && below_next_major(v, a)),
            _ => None,
        }
    } else if parts.len() == 3 {
        assert(p[0] == parts@[0]@ && p[1] == parts@[1]@ && p[2] == parts@[2]@);
        match (parse_u64_exec(&parts[0]), parse_u64_exec(&parts[1]), parse_u64_exec(&parts[2])) {
            (Some(a), Some(b), Some(c)) => Some(
                version_le((a, b, c), v) && below_next_minor(v, a, b),
            ),
            _ => None,
        }
    } else {
        None
    }
}

/// Evaluate the `~>` (pessimistic) operator against the version text after it.
pub fn satisfies_pessimistic(version_str: &str, version: (u64, u64, u64)) -> (r: Option<bool>)
    ensures
        r == pessimistic(version_str@, version),
{
    let s = chars_of(version_str);
    pessimistic_chars(&s, version)
}

/// The version after an operator of `n` characters.
fn target_after(c: &Vec<char>, n: usize) -> (r: Option<Triple>)
    requires
        n <= c.len(),
    ensures
        r == hex_version(trim(c@.skip(n as int))),
{
    let rest = slice(c, n, c.len());
    assert(rest@ =~= c@.skip(n as int));
    let t = trim_chars(&rest);
    hex_version_chars(&t)
}

fn hex_comparator_chars(comp: &Vec<char>, v: Triple) -> (r: Option<bool>)
    ensures
        r == hex_comparator(comp@, v),
{
    let c = trim_chars(comp);
    if c.len() == 0 {
        return None;
    }
    let pess = vec!['~', '>'];
    let eq2 = vec!['=', '='];
    let ne = vec!['!', '='];
    let ge = vec!['>', '='];
    let le2 = vec!['<', '='];
    let gt = vec!['>'];
    let lt1 = vec!['<'];
    let eq1 = vec!['='];
    assert(pess@ =~= seq!['~', '>'] && eq2@ =~= seq!['=', '='] && ne@ =~= seq!['!', '=']
        && ge@ =~= seq!['>', '='] && le2@ =~= seq!['<', '='] && gt@ =~= seq!['>'] && lt1@
        =~= seq!['<'] && eq1@ =~= seq!['=']);
    if starts_with_exec(&c, &pess) {
        let rest = slice(&c, 2, c.len());
        assert(rest@ =~= c@.skip(2));
        let t = trim_chars(&rest);
        return pessimistic_chars(&t, v);
    }
    if starts_with_exec(&c, &eq2) {
        return match target_after(&c, 2) {
            Some(t) => Some(version_eq(v, t)),
            None => None,
        };
    }
    if starts_with_exec(&c, &ne) {
        return match target_after(&c, 2) {
            Some(t) => Some(!version_eq(v, t)),
            None => None,
        };
    }
    if starts_with_exec(&c, &ge) {
        return match target_after(&c, 2) {
            Some(t) => Some(version_le(t, v)),
            None => None,
        };
    }
    if starts_with_exec(&c, &le2) {
        return match target_after(&c, 2) {
            Some(t) => Some(version_le(v, t)),
            None => None,
        };
    }
    if starts_with_exec(&c, &gt) {
        return match target_after(&c, 1) {
            Some(t) => Some(version_lt(t, v)),
            None => None,
        };
    }
    if starts_with_exec(&c, &lt1) {
        return match target_after(&c, 1) {
            Some(t) => Some(version_lt(v, t)),
            None => None,
        };
    }
    if starts_with_exec(&c, &eq1) {
        return match target_after(&c, 1) {
            Some(t) => Some(version_eq(v, t)),
            None => None,
        };
    }
    match hex_version_chars(&c) {
        Some(t) => Some(version_eq(v, t)),
        None => None,
    }
}

/// Whether a single comparator (such as `>= 1.0.0` or `~> 2.1`) admits `version`.
pub fn satisfies_hex_comparator(comp: &str, version: (u64, u64, u64)) -> (r: Option<bool>)
    ensures
        r == hex_comparator(comp@, version),
{
    let c = chars_of(comp);
    hex_comparator_chars(&c, version)
}

/// Split `s` at the occurrences of `keyword`, found without regard to ASCII letter case.
pub fn split_on_keyword(s: &str, keyword: &str) -> (r: Vec<String>)
    requires
        keyword@.len() > 0,
        lower(keyword@) == keyword@,
    ensures
        r@.len() == split_ci(s@, keyword@).len(),
        forall|i: int| 0 <= i < r@.len() ==> #[trigger] r@[i]@ == split_ci(s@, keyword@)[i],
{
    let v = chars_of(s);
    let k = chars_of(keyword);
    let parts = split_ci_exec(&v, &k);
    let mut out: Vec<String> = Vec::new();
    let mut i: usize = 0;
    while i < parts.len()
        invariant
            i <= parts.len(),
            views(parts@) == split_ci(s@, keyword@),
            out@.len() == i,
            forall|j: int| 0 <= j < i ==> #[trigger] out@[j]@ == parts@[j]@,
        decreases parts.len() - i,
    {
        out.push(string_of(&parts[i]));
        i += 1;
    }
    out
}

fn all_comparators_exec(parts: &Vec<Vec<char>>, v: Triple) -> (r: Option<bool>)
    ensures
        r == all_comparators(views(parts@), v),
{
    let mut i: usize = 0;
    assert(views(parts@).skip(0) =~= views(parts@));
    while i < parts.len()
        invariant
            i <= parts.len(),
            all_comparators(views(parts@), v) == all_comparators(views(parts@).skip(i as int), v),
        decreases parts.len() - i,
    {
        let ghost rest = views(parts@).skip(i as int);
        assert(rest[0] == parts@[i as int]@);
        assert(rest.drop_first() =~= views(parts@).skip(i + 1));
        let t = trim_chars(&parts[i]);
        match hex_comparator_chars(&t, v) {
            Some(true) => {},
            Some(false) => return Some(false),
            None => return None,
        }
        i += 1;
    }
    assert(views(parts@).skip(i as int) =~= Seq::<Seq<char>>::empty());
    Some(true)
}

fn hex_conjunction_chars(c: &Vec<char>, v: Triple) -> (r: Option<bool>)
    ensures
        r == hex_conjunction(c@, v),
{
    let kw = vec![' ', 'a', 'n', 'd', ' '];
    assert(kw@ =~= kw_and());
    let low = lower_chars(c);
    if contains_exec(&low, &kw) {
        let parts = split_ci_exec(c, &kw);
        all_comparators_exec(&parts, v)
    } else {
        hex_comparator_chars(c, v)
    }
}

fn any_conjunction_exec(parts: &Vec<Vec<char>>, v: Triple) -> (r: Option<bool>)
    ensures
        r == any_conjunction(views(parts@), v),
{
    let mut i: usize = 0;
    assert(views(parts@).skip(0) =~= views(parts@));
    while i < parts.len()
        invariant
            i <= parts.len(),
            any_conjunction(views(parts@), v) == any_conjunction(views(parts@).skip(i as int), v),
        decreases parts.len() - i,
    {
        let ghost rest = views(parts@).skip(i as int);
        assert(rest[0] == parts@[i as int]@);
        assert(rest.drop_first() =~= views(parts@).skip(i + 1));
        let t = trim_chars(&parts[i]);
        match hex_conjunction_chars(&t, v) {
            Some(true) => return Some(true),
            Some(false) => {},
            None => return None,
        }
        i += 1;
    }
    assert(views(parts@).skip(i as int) =~= Seq::<Seq<char>>::empty());
    Some(false)
}

fn hex_requirement_chars(c: &Vec<char>, v: Triple) -> (r: Option<bool>)
    ensures
        r == hex_requirement(c@, v),
{
    let kw = vec![' ', 'o', 'r', ' '];
    assert(kw@ =~= kw_or());
    let low = lower_chars(c);
    if contains_exec(&low, &kw) {
        let parts = split_ci_exec(c, &kw);
        any_conjunction_exec(&parts, v)
    } else {
        hex_conjunction_chars(c, v)
    }
}

/// Whether `version` satisfies the requirement `constraint`; `None` if the
/// requirement cannot be read.
pub fn hex_version_satisfies(constraint: &str, version: (u64, u64, u64)) -> (r: Option<bool>)
    ensures
        r == hex_requirement(constraint@, version),
{
    let c = chars_of(constraint);
    hex_requirement_chars(&c, version)
}

fn hex_pinned_chars(t: &Vec<char>) -> (r: bool)
    ensures
        r == hex_pinned(t@),
{
    let pess = vec!['~', '>'];
    let eq2 = vec!['=', '='];
    let ge = vec!['>', '='];
    let le2 = vec!['<', '='];
    let gt = vec!['>'];
    let lt1 = vec!['<'];
    let eq1 = vec!['='];
    let and_l = vec![' ', 'a', 'n', 'd', ' '];
    let or_l = vec![' ', 'o', 'r', ' '];
    let and_u = vec![' ', 'A', 'N', 'D', ' '];
    let or_u = vec![' ', 'O', 'R', ' '];
    assert(pess@ =~= seq!['~', '>'] && eq2@ =~= seq!['=', '='] && ge@ =~= seq!['>', '='] && le2@
        =~= seq!['<', '='] && gt@ =~= seq!['>'] && lt1@ =~= seq!['<'] && eq1@ =~= seq!['=']
        && and_l@ =~= kw_and() && or_l@ =~= kw_or() && and_u@ =~= seq![' ', 'A', 'N', 'D', ' ']
        && or_u@ =~= seq![' ', 'O', 'R', ' ']);
    !starts_with_exec(t, &pess) && !starts_with_exec(t, &eq2) && !starts_with_exec(t, &ge)
        && !starts_with_exec(t, &le2) && !starts_with_exec(t, &gt) && !starts_with_exec(t, &lt1)
        && !starts_with_exec(t, &eq1) && !contains_exec(t, &and_l) && !contains_exec(t, &or_l)
        && !contains_exec(t, &and_u) && !contains_exec(t, &or_u) && hex_version_chars(t).is_some()
}

pub open spec fn opt_view(o: Option<&str>) -> Option<Seq<char>> {
    match o {
        Some(s) => Some(s@),
        None => None,
    }
}

/// Check a dependency's Hex requirement against a planned version.
///
/// `constraint` is the requirement the manifest gives for `dep_name`, or
/// `None` when the manifest does not name it.
pub fn check_dependency_constraint(
    dep_name: &str,
    constraint: Option<&str>,
    new_version: &str,
) -> (r: ConstraintCheckResult)
    ensures
        r@ == hex_check(dep_name@, opt_view(constraint), new_version@),
{
    let c = match constraint {
        Some(c) => c,
        None => {
            return ConstraintCheckResult::Skipped {
                reason: join3("dependency '", dep_name, "' not found in manifest"),
            };
        },
    };
    let t = trim_chars(&chars_of(c));
    if t.len() == 0 {
        return ConstraintCheckResult::Skipped { reason: owned("empty constraint") };
    }
    let nv = trim_chars(&chars_of(new_version));
    if has_char(&nv, '-') {
        return ConstraintCheckResult::Skipped { reason: owned("pre-release version") };
    }
    if hex_pinned_chars(&t) {
        return ConstraintCheckResult::Skipped { reason: owned("pinned version") };
    }
    let v = match hex_version_chars(&nv) {
        Some(v) => v,
        None => {
            return ConstraintCheckResult::Skipped {
                reason: join3("unparseable version '", new_version, "'"),
            };
        },
    };
    match hex_requirement_chars(&t, v) {
        Some(true) => ConstraintCheckResult::Satisfied,
        Some(false) => ConstraintCheckResult::NotSatisfied {
            constraint: string_of(&t),
            new_version: string_of(&nv),
        },
        None => {
            let ts = string_of(&t);
            ConstraintCheckResult::Skipped {
                reason: join3("unparseable constraint '", ts.as_str(), "'"),
            }
        },
    }
}

/// The Hex API URL of a release: under `repos/{organization}` for a private
/// organization, else the public packages path.
pub open spec fn release_url(organization: Option<Seq<char>>, name: Seq<char>, version: Seq<char>) -> Seq<char> {
    match organization {
        Some(org) => "https://hex.pm/api/repos/"@ + org + "/packages/"@ + name + "/releases/"@
            + version,
        None => "https://hex.pm/api/packages/"@ + name + "/releases/"@ + version,
    }
}

/// The Hex API URL at which a release is looked up.
pub fn registry_url(organization: Option<&str>, name: &str, version: &str) -> (r: String)
    ensures
        r@ == release_url(opt_view(organization), name@, version@),
{
    let mut out = match organization {
        Some(org) => {
            let mut u = join3("https://hex.pm/api/repos/", org, "/packages/");
            u.append(name);
            u
        },
        None => join3("https://hex.pm/api/packages/", name, ""),
    };
    proof {
        reveal_strlit("");
    }
    assert(organization is None ==> out@ =~= "https://hex.pm/api/packages/"@ + name@);
    out.append("/releases/");
    out.append(version);
    out
}

/// The API key the environment gives under `HEX_API_KEY`, trimmed, when not blank.
pub open spec fn api_key_from(value: Option<String>) -> Option<Seq<char>> {
    match value {
        Some(v) => if trim(v@).len() > 0 {
            Some(trim(v@))
        } else {
            None
        },
        None => None,
    }
}

/// Read the Hex API key through `lookup` (which maps a variable name to its value).
pub fn resolve_hex_api_key<F: Fn(&str) -> Option<String>>(lookup: F) -> (r: Option<String>)
    requires
        forall|name: &str| lookup.requires((name,)),
    ensures
        exists|value: Option<String>|
            lookup.ensures(("HEX_API_KEY",), value) && match api_key_from(value) {
                Some(k) => r matches Some(x) && x@ == k,
                None => r is None,
            },
{
    let value = lookup("HEX_API_KEY");
    let r = match &value {
        Some(v) => {
            let t = trim_chars(&chars_of(v.as_str()));
            if t.len() > 0 {
                Some(string_of(&t))
            } else {
                None
            }
        },
        None => None,
    };
    assert(lookup.ensures(("HEX_API_KEY",), value));
    r
}

/// Whether `path` names an Erlang application resource file (`*.app.src`).
pub fn is_rebar_manifest(path: &str) -> (r: bool)
    ensures
        r == (file_name(path@) matches Some(n) && crate::text::ends_with(n, ".app.src"@)),
{
    proof {
        reveal_strlit(".app.src");
    }
    match file_name_of(path) {
        None => false,
        Some(name) => crate::text::ends_with_exec(&name, &chars_of(".app.src")),
    }
}

/// A `~>` requirement standing alone (no `and`, no `or`), checked against a
/// version with no pre-release tag that reads as `v`: it is satisfied
/// exactly when `v` lies in the range its `X.Y` or `X.Y.Z` gives
/// (`pessimistic`: `[X.Y.0, (X+1).0.0)`, resp. `[X.Y.Z, X.(Y+1).0)`), and
/// otherwise not satisfied, reported with the trimmed requirement and
/// version.
pub proof fn law_pessimistic_requirement(dep: Seq<char>, c: Seq<char>, nv: Seq<char>, v: Triple)
    requires
        starts_with(trim(c), seq!['~', '>']),
        !contains(lower(trim(c)), kw_or()),
        !contains(lower(trim(c)), kw_and()),
        !trim(nv).contains('-'),
        hex_version(trim(nv)) == Some(v),
        pessimistic(trim(trim(c).skip(2)), v) is Some,
    ensures
        hex_check(dep, Some(c), nv) == (if pessimistic(trim(trim(c).skip(2)), v) == Some(true) {
            CheckOutcome::Satisfied
        } else {
            CheckOutcome::NotSatisfied { constraint: trim(c), new_version: trim(nv) }
        }),
{
    let t = trim(c);
    assert(t.take(2)[0] == '~');
    lemma_trim_end_len(trim_start(c));
    assert(trim_start(t) == t);
    assert(trim_end(t) == t);
    assert(trim(t) == t);
    assert(!hex_pinned(t));
}

} // verus!
