//! Composer (Packagist) version constraints: `^`, `~`, comparison operators,
//! wildcards, `,`/space conjunctions and `||` disjunctions.
use crate::hex::opt_view;
use crate::text::{chars_eq, chars_of, concat, contains, contains_exec, has_char, join3, owned, parse_u64, parse_u64_exec, slice, split, split_exec, starts_with, starts_with_exec, string_of, trim, trim_chars, utf8_bytes, views, words, words_exec};
use crate::types::{CheckOutcome, ConstraintCheckResult};
use crate::version::{before_char, before_char_exec, below_next_major, below_next_minor, below_next_patch, bound, in_range, le, lt, parts_triple, parts_triple_exec, version_eq, version_le, version_lt, Bound, Triple};
use crate::errors::{SampoError, WorkspaceError};
use crate::tree::{field, text_of, Value};
use crate::types::{identifier_of, PackageInfo, PackageKind};
use crate::text::join2;
use crate::parse::{json_document, parse_json};
use vstd::prelude::*;
use vstd::utf8::encode_utf8;

verus! {

/// A Composer version: trimmed, without a leading `v`, up to the first `-`,
/// read as `major.minor[.patch]`.
pub open spec fn composer_version(s: Seq<char>) -> Option<Triple> {
    let t = trim(s);
    let u = if t.len() > 0 && t[0] == 'v' {
        t.skip(1)
    } else {
        t
    };
    if u.len() == 0 {
        None
    } else {
        parts_triple(split(before_char(u, '-'), seq!['.']))
    }
}

fn composer_version_chars(s: &Vec<char>) -> (r: Option<Triple>)
    ensures
        r == composer_version(s@),
{
    let t = trim_chars(s);
    let u = if t.len() > 0 && t[0] == 'v' {
        slice(&t, 1, t.len())
    } else {
        t
    };
    assert(t@.len() > 0 && t@[0] == 'v' ==> u@ =~= t@.skip(1));
    if u.len() == 0 {
        return None;
    }
    let base = before_char_exec(&u, '-');
    let dot = vec!['.'];
    assert(dot@ =~= seq!['.']);
    let parts = split_exec(&base, &dot);
    parts_triple_exec(&parts)
}

/// Read a Composer version (`1.2.3`, `v1.2`, `1.2.3-beta` read as `1.2.3`).
pub fn parse_composer_version(s: &str) -> (r: Option<(u64, u64, u64)>)
    ensures
        r == composer_version(s@),
{
    composer_version_chars(&chars_of(s))
}

pub open spec fn byte_digit(b: u8) -> bool {
    48 <= b <= 57
}

pub open spec fn byte_alnum(b: u8) -> bool {
    byte_digit(b) || (65 <= b <= 90) || (97 <= b <= 122)
}

/// Some `-` in the UTF-8 bytes of the constraint has a digit before it and
/// an ASCII letter or digit after it (as in `1.0.0-beta`).
pub open spec fn has_prerelease_marker(b: Seq<u8>) -> bool {
    exists|i: int| 1 <= i < b.len() - 1 && b[i] == 45 && byte_digit(b[i - 1]) && byte_alnum(#[trigger] b[i + 1])
}

fn has_prerelease_marker_exec(b: &Vec<u8>) -> (r: bool)
    ensures
        r == has_prerelease_marker(b@),
{
    if b.len() < 2 {
        return false;
    }
    let mut i: usize = 1;
    while i < b.len() - 1
        invariant
            b.len() >= 2,
            1 <= i <= b.len() - 1,
            forall|j: int|
                1 <= j < i ==> !(b@[j] == 45 && byte_digit(b@[j - 1]) && byte_alnum(#[trigger] b@[j + 1])),
        decreases b.len() - i,
    {
        let x = b[i - 1];
        let y = b[i + 1];
        if b[i] == 45 && 48 <= x && x <= 57 && ((48 <= y && y <= 57) || (65 <= y && y <= 90) || (97
            <= y && y <= 122)) {
            return true;
        }
        i += 1;
    }
    false
}

/// Whether a constraint names a pre-release version such as `1.0.0-beta`.
pub fn constraint_contains_prerelease(constraint: &str) -> (r: bool)
    ensures
        r == has_prerelease_marker(encode_utf8(constraint@)),
{
    let b = utf8_bytes(&chars_of(constraint));
    has_prerelease_marker_exec(&b)
}

/// A bare `M.m.p` constraint, with no operator, wildcard or conjunction.
pub open spec fn pinned(s: Seq<char>) -> bool {
    let t = trim(s);
    &&& !starts_with(t, seq!['^'])
    &&& !starts_with(t, seq!['~'])
    &&& !starts_with(t, seq!['>', '='])
    &&& !starts_with(t, seq!['<', '='])
    &&& !starts_with(t, seq!['>'])
    &&& !starts_with(t, seq!['<'])
    &&& !starts_with(t, seq!['!'])
    &&& !contains(t, seq!['|', '|'])
    &&& !t.contains(',')
    &&& !t.contains('*')
    &&& composer_version(t) is Some
}

fn pinned_chars(s: &Vec<char>) -> (r: bool)
    ensures
        r == pinned(s@),
{
    let t = trim_chars(s);
    let caret = vec!['^'];
    let tilde = vec!['~'];
    let ge = vec!['>', '='];
    let le2 = vec!['<', '='];
    let gt = vec!['>'];
    let lt1 = vec!['<'];
    let bang = vec!['!'];
    let or2 = vec!['|', '|'];
    assert(caret@ =~= seq!['^'] && tilde@ =~= seq!['~'] && ge@ =~= seq!['>', '='] && le2@ =~= seq![
        '<',
        '=',
    ] && gt@ =~= seq!['>'] && lt1@ =~= seq!['<'] && bang@ =~= seq!['!'] && or2@ =~= seq!['|', '|']);
    !starts_with_exec(&t, &caret) && !starts_with_exec(&t, &tilde) && !starts_with_exec(&t, &ge)
        && !starts_with_exec(&t, &le2) && !starts_with_exec(&t, &gt) && !starts_with_exec(&t, &lt1)
        && !starts_with_exec(&t, &bang) && !contains_exec(&t, &or2) && !has_char(&t, ',')
        && !has_char(&t, '*') && composer_version_chars(&t).is_some()
}

/// Whether `s` is a bare pinned version such as `1.2.3`.
pub fn is_pinned_version(s: &str) -> (r: bool)
    ensures
        r == pinned(s@),
{
    pinned_chars(&chars_of(s))
}

pub open spec fn is_op_byte(b: u8) -> bool {
    b == 62 || b == 60 || b == 126 || b == 94 || b == 61 || b == 33
}

/// The leading spaces (byte 32) of `b` removed.
pub open spec fn skip_spaces(b: Seq<u8>) -> Seq<u8>
    decreases b.len(),
{
    if b.len() > 0 && b[0] == 32 {
        skip_spaces(b.drop_first())
    } else {
        b
    }
}

/// Each byte read as a character, with the spaces after an operator
/// (`>`, `<`, `~`, `^`, `=`, `!`, optionally followed by `=`) removed.
pub open spec fn normalize(b: Seq<u8>) -> Seq<char>
    decreases b.len(),
{
    if b.len() == 0 {
        seq![]
    } else if is_op_byte(b[0]) {
        proof {
            lemma_skip_spaces_len(b.skip(1));
            lemma_skip_spaces_len(b.skip(2));
        }
        if b.len() > 1 && b[1] == 61 {
            seq![b[0] as char, '='] + normalize(skip_spaces(b.skip(2)))
        } else {
            seq![b[0] as char] + normalize(skip_spaces(b.skip(1)))
        }
    } else {
        seq![b[0] as char] + normalize(b.drop_first())
    }
}

pub proof fn lemma_skip_spaces_len(b: Seq<u8>)
    ensures
        skip_spaces(b).len() <= b.len(),
    decreases b.len(),
{
    if b.len() > 0 && b[0] == 32 {
        lemma_skip_spaces_len(b.drop_first());
    }
}

/// The index after the spaces that start at `i`.
fn skip_spaces_from(b: &Vec<u8>, i: usize) -> (j: usize)
    requires
        i <= b.len(),
    ensures
        i <= j <= b.len(),
        b@.skip(j as int) == skip_spaces(b@.skip(i as int)),
{
    let mut j = i;
    while j < b.len() && b[j] == 32
        invariant
            i <= j <= b.len(),
            skip_spaces(b@.skip(j as int)) == skip_spaces(b@.skip(i as int)),
        decreases b.len() - j,
    {
        assert(b@.skip(j as int).drop_first() =~= b@.skip(j + 1));
        j += 1;
    }
    j
}

fn normalize_bytes(b: &Vec<u8>) -> (r: Vec<char>)
    ensures
        r@ == normalize(b@),
{
    let mut out: Vec<char> = Vec::new();
    let mut i: usize = 0;
    assert(b@.skip(0) =~= b@);
    while i < b.len()
        invariant
            i <= b.len(),
            normalize(b@) == out@ + normalize(b@.skip(i as int)),
        decreases b.len() - i,
    {
        let ghost rest = b@.skip(i as int);
        let ch = b[i];
        let ghost old_out = out@;
        out.push(ch as char);
        if ch == 62 || ch == 60 || ch == 126 || ch == 94 || ch == 61 || ch == 33 {
            let k: usize = if i + 1 < b.len() && b[i + 1] == 61 {
                out.push('=');
                2
            } else {
                1
            };
            assert(rest.skip(k as int) =~= b@.skip(i + k));
            let j = skip_spaces_from(b, i + k);
            proof {
                if k == 2 {
                    assert(out@ =~= old_out + seq![ch as char, '=']);
                } else {
                    assert(out@ =~= old_out + seq![ch as char]);
                }
                assert(normalize(rest) == out@.skip(old_out.len() as int) + normalize(b@.skip(j as int)));
                assert(old_out + normalize(rest) =~= out@ + normalize(b@.skip(j as int)));
            }
            i = j;
        } else {
            proof {
                assert(rest.drop_first() =~= b@.skip(i + 1));
                assert(old_out + normalize(rest) =~= out@ + normalize(b@.skip(i + 1)));
            }
            i += 1;
        }
    }
    assert(b@.skip(i as int) =~= Seq::<u8>::empty());
    assert(out@ + Seq::<char>::empty() =~= out@);
    out
}

/// Remove the spaces between an operator and its version (`>= 1.0` becomes `>=1.0`).
pub fn normalize_comparator_whitespace(s: &str) -> (r: String)
    ensures
        r@ == normalize(encode_utf8(s@)),
{
    let b = utf8_bytes(&chars_of(s));
    string_of(&normalize_bytes(&b))
}

/// Caret bounds: changes that keep the left-most non-zero part.
pub open spec fn caret_upper(v: Triple) -> Bound {
    if v.0 > 0 {
        (v.0 + 1, 0, 0)
    } else if v.1 > 0 {
        (0, v.1 + 1, 0)
    } else {
        (0, 0, v.2 + 1)
    }
}

/// Tilde bounds: `~1.2.3` pins the minor part, `~1.2` the major part.
pub open spec fn tilde_upper(v: Triple, parts_count: int) -> Bound {
    if parts_count >= 3 {
        (v.0 as int, v.1 + 1, 0)
    } else {
        (v.0 + 1, 0, 0)
    }
}

/// Expand a caret range to its inclusive lower and exclusive upper bound.
pub fn expand_caret(v: (u64, u64, u64)) -> (r: ((u64, u64, u64), (u64, u64, u64)))
    requires
        v.0 > 0 ==> v.0 < u64::MAX,
        v.0 == 0 && v.1 > 0 ==> v.1 < u64::MAX,
        v.0 == 0 && v.1 == 0 ==> v.2 < u64::MAX,
    ensures
        r.0 == v,
        bound(r.1) == caret_upper(v),
{
    let upper = if v.0 > 0 {
        (v.0 + 1, 0, 0)
    } else if v.1 > 0 {
        (0, v.1 + 1, 0)
    } else {
        (0, 0, v.2 + 1)
    };
    (v, upper)
}

/// Expand a tilde range (Composer rules) to its inclusive lower and exclusive upper bound.
pub fn expand_tilde_composer(v: (u64, u64, u64), parts_count: usize) -> (r: (
    (u64, u64, u64),
    (u64, u64, u64),
))
    requires
        parts_count >= 3 ==> v.1 < u64::MAX,
        parts_count < 3 ==> v.0 < u64::MAX,
    ensures
        r.0 == v,
        bound(r.1) == tilde_upper(v, parts_count as int),
{
    let upper = if parts_count >= 3 {
        (v.0, v.1 + 1, 0)
    } else {
        (v.0 + 1, 0, 0)
    };
    (v, upper)
}

/// `v` lies below the caret upper bound of `t`, computed without overflow.
fn below_caret(v: Triple, t: Triple) -> (r: bool)
    ensures
        r == lt(bound(v), caret_upper(t)),
{
    if t.0 > 0 {
        below_next_major(v, t.0)
    } else if t.1 > 0 {
        below_next_minor(v, 0, t.1)
    } else {
        below_next_patch(v, t)
    }
}

fn below_tilde(v: Triple, t: Triple, parts_count: usize) -> (r: bool)
    ensures
        r == lt(bound(v), tilde_upper(t, parts_count as int)),
{
    if parts_count >= 3 {
        below_next_minor(v, t.0, t.1)
    } else {
        below_next_major(v, t.0)
    }
}

/// `1.*` fixes the major part, `1.2.*` the major and minor parts, `*` matches anything.
pub open spec fn wildcard_matches(pattern: Seq<char>, v: Triple) -> bool {
    let parts = split(pattern, seq!['.']);
    if parts.len() == 1 {
        parts[0] == seq!['*']
    } else if parts.len() == 2 {
        parse_u64(parts[0]) == Some(v.0)
    } else if parts.len() == 3 {
        parse_u64(parts[0]) == Some(v.0) && parse_u64(parts[1]) == Some(v.1)
    } else {
        false
    }
}

fn wildcard_chars(pattern: &Vec<char>, v: Triple) -> (r: bool)
    ensures
        r == wildcard_matches(pattern@, v),
{
    let dot = vec!['.'];
    assert(dot@ =~= seq!['.']);
    let parts = split_exec(pattern, &dot);
    let ghost p = views(parts@);
    if parts.len() == 1 {
        assert(p[0] == parts@[0]@);
        let star = vec!['*'];
        assert(star@ =~= seq!['*']);
        chars_eq(&parts[0], &star)
    } else if parts.len() == 2 {
        assert(p[0] == parts@[0]@);
        parse_u64_exec(&parts[0]) == Some(v.0)
    } else if parts.len() == 3 {
        assert(p[0] == parts@[0]@ && p[1] == parts@[1]@);
        parse_u64_exec(&parts[0]) == Some(v.0) && parse_u64_exec(&parts[1]) == Some(v.1)
    } else {
        false
    }
}

/// Whether `version` matches a wildcard pattern such as `1.0.*`.
pub fn matches_wildcard(pattern: &str, version: (u64, u64, u64)) -> (r: bool)
    ensures
        r == wildcard_matches(pattern@, version),
{
    wildcard_chars(&chars_of(pattern), version)
}

/// What a single comparator says of `v`; `None` when it cannot be read.
pub open spec fn composer_comparator(comp: Seq<char>, v: Triple) -> Option<bool> {
    let c = trim(comp);
    let target = |n: int| composer_version(trim(c.skip(n)));
    if c.len() == 0 || c == seq!['*'] {
        Some(true)
    } else if starts_with(c, seq!['^']) {
        match target(1) {
            Some(t) => Some(in_range(v, bound(t), caret_upper(t))),
            None => None,
        }
    } else if starts_with(c, seq!['~']) {
        let rest = trim(c.skip(1));
        match composer_version(rest) {
            Some(t) => Some(
                in_range(v, bound(t), tilde_upper(t, split(before_char(rest, '-'), seq!['.']).len() as int)),
            ),
            None => None,
        }
    } else if starts_with(c, seq!['!', '=']) {
        match target(2) {
            Some(t) => Some(v != t),
            None => None,
        }
    } else if starts_with(c, seq!['>', '=']) {
        match target(2) {
            Some(t) => Some(le(bound(t), bound(v))),
            None => None,
        }
    } else if starts_with(c, seq!['>']) {
        match target(1) {
            Some(t) => Some(lt(bound(t), bound(v))),
            None => None,
        }
    } else if starts_with(c, seq!['<', '=']) {
        match target(2) {
            Some(t) => Some(le(bound(v), bound(t))),
            None => None,
        }
    } else if starts_with(c, seq!['<']) {
        match target(1) {
            Some(t) => Some(lt(bound(v), bound(t))),
            None => None,
        }
    } else if c.contains('*') {
        Some(wildcard_matches(c, v))
    } else {
        match composer_version(c) {
            Some(t) => Some(v == t),
            None => None,
        }
    }
}

fn target_after(c: &Vec<char>, n: usize) -> (r: Option<Triple>)
    requires
        n <= c.len(),
    ensures
        r == composer_version(trim(c@.skip(n as int))),
{
    let rest = slice(c, n, c.len());
    assert(rest@ =~= c@.skip(n as int));
    let t = trim_chars(&rest);
    composer_version_chars(&t)
}

fn comparator_chars(comp: &Vec<char>, v: Triple) -> (r: Option<bool>)
    ensures
        r == composer_comparator(comp@, v),
{
    let c = trim_chars(comp);
    let star = vec!['*'];
    let caret = vec!['^'];
    let tilde = vec!['~'];
    let ne = vec!['!', '='];
    let ge = vec!['>', '='];
    let gt = vec!['>'];
    let le2 = vec!['<', '='];
    let lt1 = vec!['<'];
    assert(star@ =~= seq!['*'] && caret@ =~= seq!['^'] && tilde@ =~= seq!['~'] && ne@ =~= seq![
        '!',
        '=',
    ] && ge@ =~= seq!['>', '='] && gt@ =~= seq!['>'] && le2@ =~= seq!['<', '='] && lt1@ =~= seq![
        '<',
    ]);
    if c.len() == 0 || chars_eq(&c, &star) {
        return Some(true);
    }
    if starts_with_exec(&c, &caret) {
        return match target_after(&c, 1) {
            Some(t) => Some(version_le(t, v) && below_caret(v, t)),
            None => None,
        };
    }
    if starts_with_exec(&c, &tilde) {
        let after = slice(&c, 1, c.len());
        assert(after@ =~= c@.skip(1));
        let rest = trim_chars(&after);
        return match composer_version_chars(&rest) {
            Some(t) => {
                let base = before_char_exec(&rest, '-');
                let dot = vec!['.'];
                assert(dot@ =~= seq!['.']);
                let count = split_exec(&base, &dot).len();
                Some(version_le(t, v) && below_tilde(v, t, count))
            },
            None => None,
        };
    }
    if starts_with_exec(&c, &ne) {
        return match target_after(&c, 2) {
            Some(t) => Some(!version_eq(v, t)),
            None => None,
        };
    }
    if starts_with_exec(&c, &ge) {
        return match target_after(&c, 2) {
            Some(t) => Some(version_le(t, v)),
            None => None,
        };
    }
    if starts_with_exec(&c, &gt) {
        return match target_after(&c, 1) {
            Some(t) => Some(version_lt(t, v)),
            None => None,
        };
    }
    if starts_with_exec(&c, &le2) {
        return match target_after(&c, 2) {
            Some(t) => Some(version_le(v, t)),
            None => None,
        };
    }
    if starts_with_exec(&c, &lt1) {
        return match target_after(&c, 1) {
            Some(t) => Some(version_lt(v, t)),
            None => None,
        };
    }
    if has_char(&c, '*') {
        return Some(wildcard_chars(&c, v));
    }
    match composer_version_chars(&c) {
        Some(t) => Some(version_eq(v, t)),
        None => None,
    }
}

/// Whether a single comparator (such as `^1.2`, `>=1.0` or `1.0.*`) admits `version`.
pub fn satisfies_single_comparator(comp: &str, version: (u64, u64, u64)) -> (r: Option<bool>)
    ensures
        r == composer_comparator(comp@, version),
{
    comparator_chars(&chars_of(comp), version)
}

/// All comparators hold, read left to right; an unreadable one makes the whole unreadable.
pub open spec fn all_words(ws: Seq<Seq<char>>, v: Triple) -> Option<bool>
    decreases ws.len(),
{
    if ws.len() == 0 {
        Some(true)
    } else {
        match composer_comparator(ws[0], v) {
            Some(true) => all_words(ws.drop_first(), v),
            Some(false) => Some(false),
            None => None,
        }
    }
}

/// Each comma-separated part, once its operators are joined to their versions,
/// is a run of space-separated comparators that must all hold.
pub open spec fn all_parts(parts: Seq<Seq<char>>, v: Triple) -> Option<bool>
    decreases parts.len(),
{
    if parts.len() == 0 {
        Some(true)
    } else {
        match all_words(words(normalize(encode_utf8(trim(parts[0])))), v) {
            Some(true) => all_parts(parts.drop_first(), v),
            other => other,
        }
    }
}

/// An AND group: comparators separated by `,` or spaces.
pub open spec fn and_group(group: Seq<char>, v: Triple) -> Option<bool> {
    all_parts(split(group, seq![',']), v)
}

fn all_words_exec(ws: &Vec<Vec<char>>, v: Triple) -> (r: Option<bool>)
    ensures
        r == all_words(views(ws@), v),
{
    let mut i: usize = 0;
    assert(views(ws@).skip(0) =~= views(ws@));
    while i < ws.len()
        invariant
            i <= ws.len(),
            all_words(views(ws@), v) == all_words(views(ws@).skip(i as int), v),
        decreases ws.len() - i,
    {
        let ghost rest = views(ws@).skip(i as int);
        assert(rest[0] == ws@[i as int]@);
        assert(rest.drop_first() =~= views(ws@).skip(i + 1));
        match comparator_chars(&ws[i], v) {
            Some(true) => {},
            Some(false) => return Some(false),
            None => return None,
        }
        i += 1;
    }
    assert(views(ws@).skip(i as int) =~= Seq::<Seq<char>>::empty());
    Some(true)
}

fn and_group_chars(group: &Vec<char>, v: Triple) -> (r: Option<bool>)
    ensures
        r == and_group(group@, v),
{
    let comma = vec![','];
    assert(comma@ =~= seq![',']);
    let parts = split_exec(group, &comma);
    let mut i: usize = 0;
    assert(views(parts@).skip(0) =~= views(parts@));
    while i < parts.len()
        invariant
            i <= parts.len(),
            views(parts@) == split(group@, seq![',']),
            and_group(group@, v) == all_parts(views(parts@).skip(i as int), v),
        decreases parts.len() - i,
    {
        let ghost rest = views(parts@).skip(i as int);
        assert(rest[0] == parts@[i as int]@);
        assert(rest.drop_first() =~= views(parts@).skip(i + 1));
        let t = trim_chars(&parts[i]);
        let b = utf8_bytes(&t);
        let n = normalize_bytes(&b);
        let ws = words_exec(&n);
        match all_words_exec(&ws, v) {
            Some(true) => {},
            other => return other,
        }
        i += 1;
    }
    assert(views(parts@).skip(i as int) =~= Seq::<Seq<char>>::empty());
    Some(true)
}

/// Whether `version` satisfies every comparator of an AND group.
pub fn satisfies_and_group(group: &str, version: (u64, u64, u64)) -> (r: Option<bool>)
    ensures
        r == and_group(group@, version),
{
    and_group_chars(&chars_of(group), version)
}

/// Some `||`-separated alternative holds, read left to right.
pub open spec fn any_alternative(alts: Seq<Seq<char>>, v: Triple) -> Option<bool>
    decreases alts.len(),
{
    if alts.len() == 0 {
        Some(false)
    } else {
        let t = trim(alts[0]);
        if t.len() == 0 || t == seq!['*'] {
            Some(true)
        } else {
            match and_group(t, v) {
                Some(true) => Some(true),
                Some(false) => any_alternative(alts.drop_first(), v),
                None => None,
            }
        }
    }
}

/// Whether `v` satisfies a Composer constraint; `None` if it cannot be read.
pub open spec fn composer_satisfies(constraint: Seq<char>, v: Triple) -> Option<bool> {
    any_alternative(split(constraint, seq!['|', '|']), v)
}

fn satisfies_chars(constraint: &Vec<char>, v: Triple) -> (r: Option<bool>)
    ensures
        r == composer_satisfies(constraint@, v),
{
    let bar = vec!['|', '|'];
    let star = vec!['*'];
    assert(bar@ =~= seq!['|', '|'] && star@ =~= seq!['*']);
    let alts = split_exec(constraint, &bar);
    let mut i: usize = 0;
    assert(views(alts@).skip(0) =~= views(alts@));
    while i < alts.len()
        invariant
            i <= alts.len(),
            star@ == seq!['*'],
            composer_satisfies(constraint@, v) == any_alternative(views(alts@).skip(i as int), v),
        decreases alts.len() - i,
    {
        let ghost rest = views(alts@).skip(i as int);
        assert(rest[0] == alts@[i as int]@);
        assert(rest.drop_first() =~= views(alts@).skip(i + 1));
        let t = trim_chars(&alts[i]);
        if t.len() == 0 || chars_eq(&t, &star) {
            return Some(true);
        }
        match and_group_chars(&t, v) {
            Some(true) => return Some(true),
            Some(false) => {},
            None => return None,
        }
        i += 1;
    }
    assert(views(alts@).skip(i as int) =~= Seq::<Seq<char>>::empty());
    Some(false)
}

/// Whether `version` satisfies a Composer constraint; `None` if it cannot be read.
pub fn composer_version_satisfies(constraint: &str, version: (u64, u64, u64)) -> (r: Option<bool>)
    ensures
        r == composer_satisfies(constraint@, version),
{
    satisfies_chars(&chars_of(constraint), version)
}

/// The outcome of checking the constraint `constraint` (absent when the
/// manifest does not name the dependency) against `new_version`.
pub open spec fn composer_check(
    dep_name: Seq<char>,
    constraint: Option<Seq<char>>,
    new_version: Seq<char>,
) -> CheckOutcome {
    match constraint {
        None => CheckOutcome::Skipped {
            reason: "dependency '"@ + dep_name + "' not found in manifest"@,
        },
        Some(c) => {
            let t = trim(c);
            if t.len() == 0 {
                CheckOutcome::Skipped { reason: "empty constraint"@ }
            } else if t == seq!['*'] {
                CheckOutcome::Satisfied
            } else if t.contains('@') {
                CheckOutcome::Skipped { reason: "stability flag in constraint"@ }
            } else if new_version.contains('-') {
                CheckOutcome::Skipped { reason: "pre-release version"@ }
            } else if has_prerelease_marker(encode_utf8(t)) {
                CheckOutcome::Skipped { reason: "pre-release constraint"@ }
            } else if pinned(t) {
                CheckOutcome::Skipped { reason: "pinned version"@ }
            } else {
                match composer_version(new_version) {
                    None => CheckOutcome::Skipped {
                        reason: "unparseable version '"@ + new_version + "'"@,
                    },
                    Some(v) => match composer_satisfies(t, v) {
                        Some(true) => CheckOutcome::Satisfied,
                        Some(false) => CheckOutcome::NotSatisfied {
                            constraint: t,
                            new_version: new_version,
                        },
                        None => CheckOutcome::Skipped {
                            reason: "unparseable constraint '"@ + t + "'"@,
                        },
                    },
                }
            }
        },
    }
}

/// Check a dependency's Composer constraint against a planned version.
///
/// `constraint` is the constraint the manifest gives for `dep_name` (in
/// `require` or `require-dev`), or `None` when the manifest does not name it.
pub fn check_dependency_constraint(
    dep_name: &str,
    constraint: Option<&str>,
    new_version: &str,
) -> (r: ConstraintCheckResult)
    ensures
        r@ == composer_check(dep_name@, opt_view(constraint), new_version@),
{
    let c = match constraint {
        Some(c) => c,
        None => {
            return ConstraintCheckResult::Skipped {
                reason: join3("dependency '", dep_name, "' not found in manifest"),
            };
        },
    };
    let t = trim_chars(&chars_of(c));
    if t.len() == 0 {
        return ConstraintCheckResult::Skipped { reason: owned("empty constraint") };
    }
    let star = vec!['*'];
    assert(star@ =~= seq!['*']);
    if chars_eq(&t, &star) {
        return ConstraintCheckResult::Satisfied;
    }
    if has_char(&t, '@') {
        return ConstraintCheckResult::Skipped { reason: owned("stability flag in constraint") };
    }
    let nv = chars_of(new_version);
    if has_char(&nv, '-') {
        return ConstraintCheckResult::Skipped { reason: owned("pre-release version") };
    }
    if has_prerelease_marker_exec(&utf8_bytes(&t)) {
        return ConstraintCheckResult::Skipped { reason: owned("pre-release constraint") };
    }
    if pinned_chars(&t) {
        return ConstraintCheckResult::Skipped { reason: owned("pinned version") };
    }
    let v = match composer_version_chars(&nv) {
        Some(v) => v,
        None => {
            return ConstraintCheckResult::Skipped {
                reason: join3("unparseable version '", new_version, "'"),
            };
        },
    };
    match satisfies_chars(&t, v) {
        Some(true) => ConstraintCheckResult::Satisfied,
        Some(false) => ConstraintCheckResult::NotSatisfied {
            constraint: string_of(&t),
            new_version: owned(new_version),
        },
        None => {
            let ts = string_of(&t);
            ConstraintCheckResult::Skipped {
                reason: join3("unparseable constraint '", ts.as_str(), "'"),
            }
        },
    }
}

} // verus!

verus! {

/// The constraint to write for a dependency whose constraint was `old_spec`
/// once it moves to `new_version`; `None` when the constraint stays as it is.
pub open spec fn composer_new_constraint(old_spec: Seq<char>, new_version: Seq<char>) -> Option<
    Seq<char>,
> {
    let t = trim(old_spec);
    if t.len() == 0 {
        Some(seq!['^'] + new_version)
    } else if contains(t, seq!['|', '|']) || (t.contains(' ') && !starts_with(t, seq!['^'])) {
        None
    } else if starts_with(t, seq!['^']) {
        if t.skip(1) == new_version {
            None
        } else {
            Some(seq!['^'] + new_version)
        }
    } else if starts_with(t, seq!['~']) {
        if t.skip(1) == new_version {
            None
        } else {
            Some(seq!['~'] + new_version)
        }
    } else if t == new_version {
        None
    } else if starts_with(t, seq!['>', '=']) || starts_with(t, seq!['<', '=']) || starts_with(
        t,
        seq!['>'],
    ) || starts_with(t, seq!['<']) {
        None
    } else if t.contains('*') {
        None
    } else {
        Some(seq!['^'] + new_version)
    }
}

/// Compute the new Composer constraint for a dependency moving to `new_version`.
pub fn compute_dependency_constraint(old_spec: &str, new_version: &str) -> (r: Option<String>)
    ensures
        r matches Some(s) ==> composer_new_constraint(old_spec@, new_version@) == Some(s@),
        r is None ==> composer_new_constraint(old_spec@, new_version@) is None,
{
    let t = trim_chars(&chars_of(old_spec));
    let nv = chars_of(new_version);
    let caret = vec!['^'];
    let tilde = vec!['~'];
    let bar = vec!['|', '|'];
    let ge = vec!['>', '='];
    let le2 = vec!['<', '='];
    let gt = vec!['>'];
    let lt1 = vec!['<'];
    assert(caret@ =~= seq!['^'] && tilde@ =~= seq!['~'] && bar@ =~= seq!['|', '|'] && ge@ =~= seq![
        '>',
        '=',
    ] && le2@ =~= seq!['<', '='] && gt@ =~= seq!['>'] && lt1@ =~= seq!['<']);
    if t.len() == 0 {
        return Some(string_of(&concat(&caret, &nv)));
    }
    if contains_exec(&t, &bar) || (has_char(&t, ' ') && !starts_with_exec(&t, &caret)) {
        return None;
    }
    if starts_with_exec(&t, &caret) {
        let rest = slice(&t, 1, t.len());
        assert(rest@ =~= t@.skip(1));
        if chars_eq(&rest, &nv) {
            return None;
        }
        return Some(string_of(&concat(&caret, &nv)));
    }
    if starts_with_exec(&t, &tilde) {
        let rest = slice(&t, 1, t.len());
        assert(rest@ =~= t@.skip(1));
        if chars_eq(&rest, &nv) {
            return None;
        }
        return Some(string_of(&concat(&tilde, &nv)));
    }
    if chars_eq(&t, &nv) {
        return None;
    }
    if starts_with_exec(&t, &ge) || starts_with_exec(&t, &le2) || starts_with_exec(&t, &gt)
        || starts_with_exec(&t, &lt1) {
        return None;
    }
    if has_char(&t, '*') {
        return None;
    }
    Some(string_of(&concat(&caret, &nv)))
}

/// The trimmed text of a string field, when it is one and not blank.
pub open spec fn nonblank_field(manifest: Value, key: Seq<char>) -> Option<Seq<char>> {
    match text_of(field(manifest, key)) {
        Some(t) => if trim(t).len() > 0 {
            Some(trim(t))
        } else {
            None
        },
        None => None,
    }
}

/// Whether a `composer.json` describes a package Sampo can publish: it must
/// name a `vendor/package`; without a version, or when abandoned, it is not
/// published.
pub open spec fn publishable_outcome(path: Seq<char>, manifest: Value) -> Result<bool, Seq<char>> {
    match nonblank_field(manifest, "name"@) {
        None => Err("Manifest "@ + path + " is missing a 'name' field"@),
        Some(name) => if !contains(name, "/"@) {
            Err("Manifest "@ + path + " has invalid package name '"@ + name
                + "': must be in 'vendor/package' format"@)
        } else if nonblank_field(manifest, "version"@) is None {
            Ok(false)
        } else {
            match field(manifest, "abandoned"@) {
                Some(Value::Bool(true)) => Ok(false),
                Some(Value::Str(_)) => Ok(false),
                _ => Ok(true),
            }
        },
    }
}

fn nonblank_text(manifest: &Value, key: &str) -> (r: Option<String>)
    ensures
        match nonblank_field(*manifest, key@) {
            Some(t) => r matches Some(x) && x@ == t,
            None => r is None,
        },
{
    match manifest.get(key) {
        Some(v) => match v.as_str() {
            Some(s) => {
                let t = trim_chars(&chars_of(s));
                if t.len() > 0 {
                    Some(string_of(&t))
                } else {
                    None
                }
            },
            None => None,
        },
        None => None,
    }
}

/// Whether the package whose `composer.json` at `manifest_path` reads
/// `text` can be published; a text that is no JSON document is refused.
pub fn publishable_from_text(manifest_path: &str, text: &str) -> (r: Result<bool, SampoError>)
    ensures
        match json_document(text@) {
            Err(e) => r matches Err(SampoError::Publish(m)) && m@ == "Invalid JSON in "@ + manifest_path@ + ": "@ + e,
            Ok(doc) => match publishable_outcome(manifest_path@, doc) {
                Ok(b) => r == Ok::<bool, SampoError>(b),
                Err(e) => r matches Err(SampoError::Publish(m)) && m@ == e,
            },
        },
{
    match parse_json(text) {
        Ok(doc) => is_publishable(manifest_path, &doc),
        Err(e) => {
            let head = join3("Invalid JSON in ", manifest_path, ": ");
            Err(SampoError::Publish(join2(head.as_str(), e.as_str())))
        },
    }
}

/// Whether the package described by the `composer.json` at `manifest_path` can be published.
pub fn is_publishable(manifest_path: &str, manifest: &Value) -> (r: Result<bool, SampoError>)
    ensures
        match publishable_outcome(manifest_path@, *manifest) {
            Ok(b) => r == Ok::<bool, SampoError>(b),
            Err(e) => r matches Err(SampoError::Publish(m)) && m@ == e,
        },
{
    let name = match nonblank_text(manifest, "name") {
        Some(n) => n,
        None => {
            return Err(SampoError::Publish(join3("Manifest ", manifest_path, " is missing a 'name' field")));
        },
    };
    if !contains_exec(&chars_of(name.as_str()), &chars_of("/")) {
        let a = join3("Manifest ", manifest_path, " has invalid package name '");
        return Err(SampoError::Publish(join3(a.as_str(), name.as_str(), "': must be in 'vendor/package' format")));
    }
    if nonblank_text(manifest, "version").is_none() {
        return Ok(false);
    }
    match manifest.get("abandoned") {
        Some(a) => match a {
            Value::Bool(b) => Ok(!*b),
            Value::Str(_) => Ok(false),
            _ => Ok(true),
        },
        None => Ok(true),
    }
}

/// The Composer command that checks a package before release: `composer
/// validate` with the extra arguments; the manifest must name the package.
pub fn publish_args(manifest_path: &str, manifest: &Value, extra_args: &[String]) -> (r: Result<
    Vec<String>,
    SampoError,
>)
    ensures
        match text_of(field(*manifest, "name"@)) {
            None => r matches Err(SampoError::Publish(m)) && m@ == "Manifest "@ + manifest_path@
                + " is missing a 'name' field"@,
            Some(_) => r matches Ok(args) && crate::publish::arg_views(args@) == seq!["validate"@]
                + crate::publish::arg_views(extra_args@),
        },
{
    match manifest.get("name") {
        Some(v) => match v.as_str() {
            Some(_) => {},
            None => {
                return Err(SampoError::Publish(join3("Manifest ", manifest_path, " is missing a 'name' field")));
            },
        },
        None => {
            return Err(SampoError::Publish(join3("Manifest ", manifest_path, " is missing a 'name' field")));
        },
    }
    let mut args: Vec<String> = Vec::new();
    args.push(owned("validate"));
    let ghost head = crate::publish::arg_views(args@);
    assert(head =~= seq!["validate"@]);
    let mut i: usize = 0;
    while i < extra_args.len()
        invariant
            i <= extra_args.len(),
            head == seq!["validate"@],
            crate::publish::arg_views(args@) == head + crate::publish::arg_views(extra_args@.take(i as int)),
        decreases extra_args.len() - i,
    {
        let ghost before = args@;
        let a = owned(extra_args[i].as_str());
        args.push(a);
        assert(args@ =~= before.push(a));
        assert(crate::publish::arg_views(extra_args@.take(i + 1)) =~= crate::publish::arg_views(
            extra_args@.take(i as int),
        ).push(extra_args@[i as int]@));
        assert(crate::publish::arg_views(args@) =~= crate::publish::arg_views(before).push(a@));
        i += 1;
    }
    assert(extra_args@.take(extra_args.len() as int) =~= extra_args@);
    Ok(args)
}

/// The constraint a `composer.json` gives `dep_name`: from `require`, else from `require-dev`.
pub open spec fn dependency_constraint(manifest: Value, dep_name: Seq<char>) -> Option<Seq<char>> {
    match text_of(crate::tree::field_of(field(manifest, "require"@), dep_name)) {
        Some(c) => Some(c),
        None => text_of(crate::tree::field_of(field(manifest, "require-dev"@), dep_name)),
    }
}

fn section_constraint(manifest: &Value, section: &str, dep_name: &str) -> (r: Option<String>)
    ensures
        match text_of(crate::tree::field_of(field(*manifest, section@), dep_name@)) {
            Some(c) => r matches Some(x) && x@ == c,
            None => r is None,
        },
{
    match manifest.get(section) {
        Some(deps) => match deps.get(dep_name) {
            Some(v) => match v.as_str() {
                Some(c) => Some(owned(c)),
                None => None,
            },
            None => None,
        },
        None => None,
    }
}

/// The constraint the manifest gives a dependency, if it lists it.
pub fn find_dependency_constraint(manifest: &Value, dep_name: &str) -> (r: Option<String>)
    ensures
        match dependency_constraint(*manifest, dep_name@) {
            Some(c) => r matches Some(x) && x@ == c,
            None => r is None,
        },
{
    match section_constraint(manifest, "require", dep_name) {
        Some(c) => Some(c),
        None => section_constraint(manifest, "require-dev", dep_name),
    }
}

/// The package a root `composer.json` at `root` describes, or why it does not.
pub open spec fn root_package_outcome(root: Seq<char>, manifest_path: Seq<char>, manifest: Value) -> Result<
    (Seq<char>, Seq<char>),
    Seq<char>,
> {
    match text_of(field(manifest, "name"@)) {
        None => Err("missing name field in "@ + manifest_path),
        Some(name) => if !contains(name, "/"@) {
            Err("package name '"@ + name + "' in "@ + manifest_path + " must be in 'vendor/package' format"@)
        } else {
            Ok(
                (
                    name,
                    match text_of(field(manifest, "version"@)) {
                        Some(v) => v,
                        None => seq![],
                    },
                ),
            )
        },
    }
}

/// The package a root `composer.json` describes (Composer has no workspaces,
/// so it is the only one): its name and version (empty when absent).
pub fn discover_root_package(root: &str, manifest_path: &str, manifest: &Value) -> (r: Result<
    PackageInfo,
    WorkspaceError,
>)
    ensures
        match root_package_outcome(root@, manifest_path@, *manifest) {
            Ok((name, version)) => r matches Ok(p) && p.name@ == name && p.version@ == version
                && p.identifier@ == identifier_of(PackageKind::Packagist, name) && p.path@ == root@
                && p.internal_deps@.len() == 0 && p.kind == PackageKind::Packagist,
            Err(e) => r matches Err(WorkspaceError::InvalidManifest(m)) && m@ == e,
        },
{
    let name = match manifest.get("name") {
        Some(v) => match v.as_str() {
            Some(n) => owned(n),
            None => {
                return Err(WorkspaceError::InvalidManifest(join2("missing name field in ", manifest_path)));
            },
        },
        None => {
            return Err(WorkspaceError::InvalidManifest(join2("missing name field in ", manifest_path)));
        },
    };
    if !contains_exec(&chars_of(name.as_str()), &chars_of("/")) {
        let a = join3("package name '", name.as_str(), "' in ");
        return Err(WorkspaceError::InvalidManifest(join3(a.as_str(), manifest_path, " must be in 'vendor/package' format")));
    }
    let version = match manifest.get("version") {
        Some(v) => match v.as_str() {
            Some(t) => owned(t),
            None => String::new(),
        },
        None => String::new(),
    };
    let identifier = PackageInfo::dependency_identifier(PackageKind::Packagist, name.as_str());
    Ok(PackageInfo {
        name,
        identifier,
        version,
        path: owned(root),
        internal_deps: Vec::new(),
        internal_dev_deps: Vec::new(),
        kind: PackageKind::Packagist,
    })
}

} // verus!
