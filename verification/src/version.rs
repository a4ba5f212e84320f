//! Three-part numeric versions `(major, minor, patch)` and their order.
use crate::text::{copy_chars, lemma_split_nonempty, parse_u64, parse_u64_exec, split, split_exec, views};
use vstd::prelude::*;

verus! {

/// A numeric version `(major, minor, patch)`.
pub type Triple = (u64, u64, u64);

/// A version with unbounded components, for bounds such as `major + 1`.
pub type Bound = (int, int, int);

pub open spec fn bound(v: Triple) -> Bound {
    (v.0 as int, v.1 as int, v.2 as int)
}

/// Lexicographic `<` on versions (the order of Rust tuples).
pub open spec fn lt(a: Bound, b: Bound) -> bool {
    a.0 < b.0 || (a.0 == b.0 && (a.1 < b.1 || (a.1 == b.1 && a.2 < b.2)))
}

/// Lexicographic `<=` on versions.
pub open spec fn le(a: Bound, b: Bound) -> bool {
    lt(a, b) || a == b
}

/// `v` lies in the half-open range `[lower, upper)`.
pub open spec fn in_range(v: Triple, lower: Bound, upper: Bound) -> bool {
    le(lower, bound(v)) && lt(bound(v), upper)
}

pub fn version_lt(a: Triple, b: Triple) -> (r: bool)
    ensures
        r == lt(bound(a), bound(b)),
{
    a.0 < b.0 || (a.0 == b.0 && (a.1 < b.1 || (a.1 == b.1 && a.2 < b.2)))
}

pub fn version_le(a: Triple, b: Triple) -> (r: bool)
    ensures
        r == le(bound(a), bound(b)),
{
    version_lt(a, b) || (a.0 == b.0 && a.1 == b.1 && a.2 == b.2)
}

pub fn version_eq(a: Triple, b: Triple) -> (r: bool)
    ensures
        r == (a == b),
{
    a.0 == b.0 && a.1 == b.1 && a.2 == b.2
}

/// `v < (major + 1, 0, 0)`, computed without overflow.
pub fn below_next_major(v: Triple, major: u64) -> (r: bool)
    ensures
        r == lt(bound(v), (major + 1, 0, 0)),
{
    v.0 <= major
}

/// `v < (major, minor + 1, 0)`, computed without overflow.
pub fn below_next_minor(v: Triple, major: u64, minor: u64) -> (r: bool)
    ensures
        r == lt(bound(v), (major as int, minor + 1, 0)),
{
    v.0 < major || (v.0 == major && v.1 <= minor)
}

/// `v < (major, minor, patch + 1)`, computed without overflow.
pub fn below_next_patch(v: Triple, t: Triple) -> (r: bool)
    ensures
        r == lt(bound(v), (t.0 as int, t.1 as int, t.2 + 1)),
{
    v.0 < t.0 || (v.0 == t.0 && (v.1 < t.1 || (v.1 == t.1 && v.2 <= t.2)))
}

/// Two or three dot-separated pieces read as `u64`s; a missing patch is `0`.
pub open spec fn parts_triple(parts: Seq<Seq<char>>) -> Option<Triple> {
    if parts.len() == 3 {
        match (parse_u64(parts[0]), parse_u64(parts[1]), parse_u64(parts[2])) {
            (Some(a), Some(b), Some(c)) => Some((a, b, c)),
            _ => None,
        }
    } else if parts.len() == 2 {
        match (parse_u64(parts[0]), parse_u64(parts[1])) {
            (Some(a), Some(b)) => Some((a, b, 0)),
            _ => None,
        }
    } else {
        None
    }
}

pub fn parts_triple_exec(parts: &Vec<Vec<char>>) -> (r: Option<Triple>)
    ensures
        r == parts_triple(views(parts@)),
{
    let ghost p = views(parts@);
    if parts.len() == 3 {
        assert(p[0] == parts@[0]@ && p[1] == parts@[1]@ && p[2] == parts@[2]@);
        let a = parse_u64_exec(&parts[0]);
        let b = parse_u64_exec(&parts[1]);
        let c = parse_u64_exec(&parts[2]);
        match (a, b, c) {
            (Some(a), Some(b), Some(c)) => Some((a, b, c)),
            _ => None,
        }
    } else if parts.len() == 2 {
        assert(p[0] == parts@[0]@ && p[1] == parts@[1]@);
        let a = parse_u64_exec(&parts[0]);
        let b = parse_u64_exec(&parts[1]);
        match (a, b) {
            (Some(a), Some(b)) => Some((a, b, 0)),
            _ => None,
        }
    } else {
        None
    }
}

/// The text before the first occurrence of `c` (all of `s` when there is none):
/// the first item of `str::split(c)`.
pub open spec fn before_char(s: Seq<char>, c: char) -> Seq<char> {
    split(s, seq![c])[0]
}

pub fn before_char_exec(v: &Vec<char>, c: char) -> (r: Vec<char>)
    ensures
        r@ == before_char(v@, c),
{
    let sep = vec![c];
    assert(sep@ =~= seq![c]);
    let pieces = split_exec(v, &sep);
    proof {
        lemma_split_nonempty(v@, seq![c]);
    }
    assert(views(pieces@)[0] == pieces@[0]@);
    copy_chars(&pieces[0])
}

/// The ASCII digit for `d` (0 to 9).
pub open spec fn digit_char(d: int) -> char {
    (d + 48) as char
}

/// `n` written in decimal, as `u64::to_string` writes it.
pub open spec fn decimal(n: int) -> Seq<char>
    decreases n,
{
    if n < 10 {
        seq![digit_char(n)]
    } else {
        decimal(n / 10).push(digit_char(n % 10))
    }
}

/// `n` written in decimal.
pub fn decimal_string(n: u64) -> (r: String)
    ensures
        r@ == decimal(n as int),
    decreases n,
{
    let mut s = if n >= 10 {
        decimal_string(n / 10)
    } else {
        String::new()
    };
    let d: u8 = (n % 10) as u8;
    s.push((d + 48) as char);
    proof {
        if n < 10 {
            assert(s@ =~= seq![digit_char(n as int)]);
        }
    }
    s
}

} // verus!
