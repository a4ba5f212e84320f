//! Character-sequence helpers shared by the version and manifest logic.
//!
//! Every executable helper here works on `Vec<char>` and is specified by a
//! spec function over `Seq<char>` that states what the corresponding
//! `str` operation of the standard library computes.
use vstd::prelude::*;
use vstd::string::StringExecFns;

verus! {

pub assume_specification[ String::push ](s: &mut String, ch: char)
    ensures
        final(s)@ == old(s)@.push(ch),
;

// ---------------------------------------------------------------------------
// Characters
// ---------------------------------------------------------------------------

/// `char::is_whitespace`: the Unicode `White_Space` property.
pub open spec fn is_ws(c: char) -> bool {
    ||| ('\u{9}' <= c && c <= '\u{d}')
    ||| c == ' '
    ||| c == '\u{85}'
    ||| c == '\u{a0}'
    ||| c == '\u{1680}'
    ||| ('\u{2000}' <= c && c <= '\u{200a}')
    ||| c == '\u{2028}'
    ||| c == '\u{2029}'
    ||| c == '\u{202f}'
    ||| c == '\u{205f}'
    ||| c == '\u{3000}'
}

pub open spec fn is_digit(c: char) -> bool {
    '0' <= c && c <= '9'
}

pub open spec fn is_upper(c: char) -> bool {
    'A' <= c && c <= 'Z'
}

pub open spec fn is_lower(c: char) -> bool {
    'a' <= c && c <= 'z'
}

pub open spec fn is_alnum(c: char) -> bool {
    is_digit(c) || is_upper(c) || is_lower(c)
}

/// `char::to_ascii_lowercase`.
pub open spec fn lower_char(c: char) -> char {
    if is_upper(c) {
        ((c as u32) + 32) as char
    } else {
        c
    }
}

pub fn char_is_ws(c: char) -> (r: bool)
    ensures
        r == is_ws(c),
{
    ('\u{9}' <= c && c <= '\u{d}') || c == ' ' || c == '\u{85}' || c == '\u{a0}' || c == '\u{1680}'
        || ('\u{2000}' <= c && c <= '\u{200a}') || c == '\u{2028}' || c == '\u{2029}' || c
        == '\u{202f}' || c == '\u{205f}' || c == '\u{3000}'
}

pub fn char_is_digit(c: char) -> (r: bool)
    ensures
        r == is_digit(c),
{
    '0' <= c && c <= '9'
}

pub fn char_is_alnum(c: char) -> (r: bool)
    ensures
        r == is_alnum(c),
{
    ('0' <= c && c <= '9') || ('A' <= c && c <= 'Z') || ('a' <= c && c <= 'z')
}

pub fn char_lower(c: char) -> (r: char)
    ensures
        r == lower_char(c),
{
    if 'A' <= c && c <= 'Z' {
        ((c as u8) + 32) as char
    } else {
        c
    }
}

/// `str::to_ascii_lowercase`.
pub open spec fn lower(s: Seq<char>) -> Seq<char> {
    s.map_values(|c: char| lower_char(c))
}

// ---------------------------------------------------------------------------
// Conversions
// ---------------------------------------------------------------------------

/// The characters of `s`, in order.
pub fn chars_of(s: &str) -> (r: Vec<char>)
    ensures
        r@ == s@,
{
    let mut r: Vec<char> = Vec::new();
    for c in it: s.chars()
        invariant
            r@ == it.seq().take(it.index() as int),
    {
        r.push(c);
    }
    r
}

/// A `String` holding exactly the given characters.
pub fn string_of(v: &Vec<char>) -> (r: String)
    ensures
        r@ == v@,
{
    let mut r = String::new();
    let mut i: usize = 0;
    while i < v.len()
        invariant
            i <= v.len(),
            r@ == v@.take(i as int),
        decreases v.len() - i,
    {
        r.push(v[i]);
        i += 1;
        assert(v@.take(i as int) =~= v@.take((i - 1) as int).push(v@[i - 1]));
    }
    assert(v@.take(v.len() as int) =~= v@);
    r
}

pub fn copy_chars(v: &Vec<char>) -> (r: Vec<char>)
    ensures
        r@ == v@,
{
    slice(v, 0, v.len())
}

/// The characters of `v` from `a` (inclusive) to `b` (exclusive).
pub fn slice(v: &Vec<char>, a: usize, b: usize) -> (r: Vec<char>)
    requires
        a <= b <= v.len(),
    ensures
        r@ == v@.subrange(a as int, b as int),
{
    let mut r: Vec<char> = Vec::new();
    let mut i = a;
    while i < b
        invariant
            a <= i <= b <= v.len(),
            r@ == v@.subrange(a as int, i as int),
        decreases b - i,
    {
        r.push(v[i]);
        i += 1;
        assert(v@.subrange(a as int, i as int) =~= v@.subrange(a as int, (i - 1) as int).push(
            v@[i - 1],
        ));
    }
    r
}

/// `v` followed by `w`.
pub fn concat(v: &Vec<char>, w: &Vec<char>) -> (r: Vec<char>)
    ensures
        r@ == v@ + w@,
{
    let mut r = copy_chars(v);
    let mut i: usize = 0;
    while i < w.len()
        invariant
            i <= w.len(),
            r@ == v@ + w@.take(i as int),
        decreases w.len() - i,
    {
        r.push(w[i]);
        i += 1;
        assert(v@ + w@.take(i as int) =~= (v@ + w@.take((i - 1) as int)).push(w@[i - 1]));
    }
    assert(w@.take(w.len() as int) =~= w@);
    r
}

pub fn lower_chars(v: &Vec<char>) -> (r: Vec<char>)
    ensures
        r@ == lower(v@),
{
    let mut r: Vec<char> = Vec::new();
    let mut i: usize = 0;
    while i < v.len()
        invariant
            i <= v.len(),
            r@ == lower(v@.take(i as int)),
        decreases v.len() - i,
    {
        let c = char_lower(v[i]);
        r.push(c);
        i += 1;
        assert(lower(v@.take(i as int)) =~= lower(v@.take((i - 1) as int)).push(c));
    }
    assert(v@.take(v.len() as int) =~= v@);
    r
}

/// Equality of two character sequences.
pub fn chars_eq(v: &Vec<char>, w: &Vec<char>) -> (r: bool)
    ensures
        r == (v@ == w@),
{
    if v.len() != w.len() {
        return false;
    }
    let mut i: usize = 0;
    while i < v.len()
        invariant
            i <= v.len() == w.len(),
            forall|j: int| 0 <= j < i ==> v@[j] == w@[j],
        decreases v.len() - i,
    {
        if v[i] != w[i] {
            return false;
        }
        i += 1;
    }
    assert(v@ =~= w@);
    true
}

// ---------------------------------------------------------------------------
// Trimming
// ---------------------------------------------------------------------------

pub open spec fn trim_start(s: Seq<char>) -> Seq<char>
    decreases s.len(),
{
    if s.len() > 0 && is_ws(s[0]) {
        trim_start(s.drop_first())
    } else {
        s
    }
}

pub open spec fn trim_end(s: Seq<char>) -> Seq<char>
    decreases s.len(),
{
    if s.len() > 0 && is_ws(s.last()) {
        trim_end(s.drop_last())
    } else {
        s
    }
}

/// `str::trim`.
pub open spec fn trim(s: Seq<char>) -> Seq<char> {
    trim_end(trim_start(s))
}

pub proof fn lemma_trim_start_skip(s: Seq<char>, i: int)
    requires
        0 <= i <= s.len(),
        forall|j: int| 0 <= j < i ==> is_ws(#[trigger] s[j]),
    ensures
        trim_start(s) == trim_start(s.skip(i)),
    decreases i,
{
    if i > 0 {
        assert(s.skip(1) =~= s.drop_first());
        lemma_trim_start_skip(s.drop_first(), i - 1);
        assert(s.drop_first().skip(i - 1) =~= s.skip(i));
    } else {
        assert(s.skip(0) =~= s);
    }
}

pub proof fn lemma_trim_end_take(s: Seq<char>, i: int)
    requires
        0 <= i <= s.len(),
        forall|j: int| i <= j < s.len() ==> is_ws(#[trigger] s[j]),
    ensures
        trim_end(s) == trim_end(s.take(i)),
    decreases s.len() - i,
{
    if i < s.len() {
        assert(s.take(s.len() - 1) =~= s.drop_last());
        lemma_trim_end_take(s.drop_last(), i);
        assert(s.drop_last().take(i) =~= s.take(i));
    } else {
        assert(s.take(i) =~= s);
    }
}

pub proof fn lemma_trim_start_len(s: Seq<char>)
    ensures
        trim_start(s).len() <= s.len(),
        trim_start(s).len() > 0 ==> !is_ws(trim_start(s)[0]),
        trim_start(s) == s.skip(s.len() - trim_start(s).len()),
    decreases s.len(),
{
    if s.len() > 0 && is_ws(s[0]) {
        lemma_trim_start_len(s.drop_first());
        assert(s.drop_first().skip(s.drop_first().len() - trim_start(s.drop_first()).len())
            =~= s.skip(s.len() - trim_start(s).len()));
    } else {
        assert(s.skip(0) =~= s);
    }
}

pub proof fn lemma_trim_end_len(s: Seq<char>)
    ensures
        trim_end(s).len() <= s.len(),
        trim_end(s).len() > 0 ==> !is_ws(trim_end(s).last()),
        trim_end(s) == s.take(trim_end(s).len() as int),
    decreases s.len(),
{
    if s.len() > 0 && is_ws(s.last()) {
        lemma_trim_end_len(s.drop_last());
        assert(s.drop_last().take(trim_end(s.drop_last()).len() as int) =~= s.take(
            trim_end(s).len() as int,
        ));
    } else {
        assert(s.take(s.len() as int) =~= s);
    }
}

/// `str::trim`.
pub fn trim_chars(v: &Vec<char>) -> (r: Vec<char>)
    ensures
        r@ == trim(v@),
{
    let mut a: usize = 0;
    while a < v.len() && char_is_ws(v[a])
        invariant
            a <= v.len(),
            forall|j: int| 0 <= j < a ==> is_ws(#[trigger] v@[j]),
        decreases v.len() - a,
    {
        a += 1;
    }
    proof {
        lemma_trim_start_skip(v@, a as int);
        assert(trim_start(v@.skip(a as int)) == v@.skip(a as int));
    }
    let mut b: usize = v.len();
    while b > a && char_is_ws(v[b - 1])
        invariant
            a <= b <= v.len(),
            forall|j: int| b <= j < v.len() ==> is_ws(#[trigger] v@[j]),
        decreases b,
    {
        b -= 1;
    }
    let ghost t = v@.skip(a as int);
    proof {
        assert forall|j: int| (b - a) <= j < t.len() implies is_ws(#[trigger] t[j]) by {
            assert(t[j] == v@[j + a]);
        }
        lemma_trim_end_take(t, (b - a) as int);
        assert(t.take((b - a) as int) =~= v@.subrange(a as int, b as int));
        if b > a {
            assert(!is_ws(v@.subrange(a as int, b as int).last()));
        }
    }
    slice(v, a, b)
}

/// `str::trim` on a `&str`, as characters.
pub fn trimmed(s: &str) -> (r: Vec<char>)
    ensures
        r@ == trim(s@),
{
    let v = chars_of(s);
    trim_chars(&v)
}

// ---------------------------------------------------------------------------
// Prefixes, suffixes, search
// ---------------------------------------------------------------------------

/// `str::starts_with`.
pub open spec fn starts_with(s: Seq<char>, p: Seq<char>) -> bool {
    p.len() <= s.len() && s.take(p.len() as int) == p
}

/// `str::ends_with`.
pub open spec fn ends_with(s: Seq<char>, p: Seq<char>) -> bool {
    p.len() <= s.len() && s.skip(s.len() - p.len()) == p
}

/// `p` occurs in `s` at position `i`.
pub open spec fn occurs_at(s: Seq<char>, p: Seq<char>, i: int) -> bool {
    0 <= i && i + p.len() <= s.len() && s.subrange(i, i + p.len()) == p
}

/// `str::contains` with a string pattern.
pub open spec fn contains(s: Seq<char>, p: Seq<char>) -> bool {
    exists|i: int| occurs_at(s, p, i)
}

/// First position at or after `i` where `p` occurs.
pub open spec fn find_from(s: Seq<char>, p: Seq<char>, i: int) -> Option<int>
    decreases s.len() + 1 - i,
{
    if i < 0 || i + p.len() > s.len() || i >= s.len() + 1 {
        None
    } else if occurs_at(s, p, i) {
        Some(i)
    } else {
        find_from(s, p, i + 1)
    }
}

/// `str::find` with a string pattern.
pub open spec fn find(s: Seq<char>, p: Seq<char>) -> Option<int> {
    find_from(s, p, 0)
}

/// Last position at or before `i` where `p` occurs.
pub open spec fn rfind_from(s: Seq<char>, p: Seq<char>, i: int) -> Option<int>
    decreases i + 1,
{
    if i < 0 {
        None
    } else if occurs_at(s, p, i) {
        Some(i)
    } else {
        rfind_from(s, p, i - 1)
    }
}

/// `str::rfind` with a string pattern.
pub open spec fn rfind(s: Seq<char>, p: Seq<char>) -> Option<int> {
    rfind_from(s, p, s.len() - p.len())
}

pub proof fn lemma_find_from(s: Seq<char>, p: Seq<char>, i: int)
    requires
        0 <= i,
    ensures
        find_from(s, p, i) matches Some(k) ==> i <= k && occurs_at(s, p, k) && forall|j: int|
            i <= j < k ==> !occurs_at(s, p, j),
        find_from(s, p, i) is None ==> forall|j: int| i <= j ==> !occurs_at(s, p, j),
    decreases s.len() + 1 - i,
{
    if i + p.len() <= s.len() && !occurs_at(s, p, i) {
        lemma_find_from(s, p, i + 1);
    }
}

pub proof fn lemma_find(s: Seq<char>, p: Seq<char>)
    ensures
        find(s, p) matches Some(k) ==> 0 <= k && k + p.len() <= s.len() && occurs_at(s, p, k)
            && forall|j: int| 0 <= j < k ==> !occurs_at(s, p, j),
        find(s, p) is None <==> !contains(s, p),
{
    lemma_find_from(s, p, 0);
}

pub proof fn lemma_rfind_from(s: Seq<char>, p: Seq<char>, i: int)
    ensures
        rfind_from(s, p, i) matches Some(k) ==> 0 <= k <= i && occurs_at(s, p, k) && forall|j: int|
            k < j <= i ==> !occurs_at(s, p, j),
        rfind_from(s, p, i) is None ==> forall|j: int| j <= i ==> !occurs_at(s, p, j),
    decreases i + 1,
{
    if i >= 0 && !occurs_at(s, p, i) {
        lemma_rfind_from(s, p, i - 1);
    }
}

/// Does `p` occur in `v` at position `i`?
pub fn occurs_at_exec(v: &Vec<char>, p: &Vec<char>, i: usize) -> (r: bool)
    ensures
        r == occurs_at(v@, p@, i as int),
{
    if i > v.len() || p.len() > v.len() - i {
        return false;
    }
    let mut k: usize = 0;
    while k < p.len()
        invariant
            i + p.len() <= v.len(),
            k <= p.len(),
            forall|j: int| 0 <= j < k ==> v@[i + j] == p@[j],
        decreases p.len() - k,
    {
        if v[i + k] != p[k] {
            assert(v@.subrange(i as int, i + p.len())[k as int] != p@[k as int]);
            return false;
        }
        k += 1;
    }
    assert(v@.subrange(i as int, i + p.len()) =~= p@);
    true
}

/// `str::starts_with`.
pub fn starts_with_exec(v: &Vec<char>, p: &Vec<char>) -> (r: bool)
    ensures
        r == starts_with(v@, p@),
{
    let r = occurs_at_exec(v, p, 0);
    assert(v@.subrange(0, p@.len() as int) =~= v@.take(p@.len() as int));
    r
}

/// `str::ends_with`.
pub fn ends_with_exec(v: &Vec<char>, p: &Vec<char>) -> (r: bool)
    ensures
        r == ends_with(v@, p@),
{
    if p.len() > v.len() {
        return false;
    }
    let r = occurs_at_exec(v, p, v.len() - p.len());
    assert(v@.subrange(v@.len() - p@.len(), v@.len() as int) =~= v@.skip(v@.len() - p@.len()));
    r
}

/// `str::find` with a string pattern.
pub fn find_exec(v: &Vec<char>, p: &Vec<char>) -> (r: Option<usize>)
    ensures
        r matches Some(k) ==> find(v@, p@) == Some(k as int),
        r is None ==> find(v@, p@) is None,
{
    if p.len() > v.len() {
        return None;
    }
    let mut i: usize = 0;
    loop
        invariant
            p.len() <= v.len(),
            i <= v.len() - p.len(),
            find(v@, p@) == find_from(v@, p@, i as int),
        decreases v.len() - p.len() - i,
    {
        if occurs_at_exec(v, p, i) {
            return Some(i);
        }
        if i == v.len() - p.len() {
            assert(find_from(v@, p@, i + 1) is None);
            return None;
        }
        i += 1;
    }
}

/// `str::rfind` with a string pattern.
pub fn rfind_exec(v: &Vec<char>, p: &Vec<char>) -> (r: Option<usize>)
    ensures
        r matches Some(k) ==> rfind(v@, p@) == Some(k as int),
        r is None ==> rfind(v@, p@) is None,
{
    if p.len() > v.len() {
        return None;
    }
    let mut i: usize = v.len() - p.len();
    loop
        invariant
            p.len() <= v.len(),
            i <= v.len() - p.len(),
            rfind(v@, p@) == rfind_from(v@, p@, i as int),
        decreases i,
    {
        if occurs_at_exec(v, p, i) {
            return Some(i);
        }
        if i == 0 {
            assert(rfind_from(v@, p@, -1) is None);
            return None;
        }
        i -= 1;
    }
}

/// `str::contains` with a string pattern.
pub fn contains_exec(v: &Vec<char>, p: &Vec<char>) -> (r: bool)
    ensures
        r == contains(v@, p@),
{
    proof {
        lemma_find(v@, p@);
    }
    find_exec(v, p).is_some()
}

/// `str::strip_prefix`.
pub open spec fn strip_prefix(s: Seq<char>, p: Seq<char>) -> Option<Seq<char>> {
    if starts_with(s, p) {
        Some(s.skip(p.len() as int))
    } else {
        None
    }
}

/// `str::strip_suffix`.
pub open spec fn strip_suffix(s: Seq<char>, p: Seq<char>) -> Option<Seq<char>> {
    if ends_with(s, p) {
        Some(s.take(s.len() - p.len()))
    } else {
        None
    }
}

/// `str::strip_prefix`.
pub fn strip_prefix_exec(v: &Vec<char>, p: &Vec<char>) -> (r: Option<Vec<char>>)
    ensures
        r matches Some(x) ==> strip_prefix(v@, p@) == Some(x@),
        r is None ==> strip_prefix(v@, p@) is None,
{
    if starts_with_exec(v, p) {
        Some(slice(v, p.len(), v.len()))
    } else {
        None
    }
}

/// `str::strip_suffix`.
pub fn strip_suffix_exec(v: &Vec<char>, p: &Vec<char>) -> (r: Option<Vec<char>>)
    ensures
        r matches Some(x) ==> strip_suffix(v@, p@) == Some(x@),
        r is None ==> strip_suffix(v@, p@) is None,
{
    if ends_with_exec(v, p) {
        Some(slice(v, 0, v.len() - p.len()))
    } else {
        None
    }
}

/// Whether the character `c` occurs in `v`.
pub fn has_char(v: &Vec<char>, c: char) -> (r: bool)
    ensures
        r == v@.contains(c),
{
    let mut i: usize = 0;
    while i < v.len()
        invariant
            i <= v.len(),
            forall|j: int| 0 <= j < i ==> v@[j] != c,
        decreases v.len() - i,
    {
        if v[i] == c {
            return true;
        }
        i += 1;
    }
    false
}

/// Position of the first character of `s` that belongs to `set`; `s.len()` when none does.
pub open spec fn first_in(s: Seq<char>, set: Seq<char>) -> int
    decreases s.len(),
{
    if s.len() == 0 || set.contains(s[0]) {
        0
    } else {
        1 + first_in(s.drop_first(), set)
    }
}

pub proof fn lemma_first_in(s: Seq<char>, set: Seq<char>, i: int)
    requires
        0 <= i <= s.len(),
        forall|j: int| 0 <= j < i ==> !set.contains(#[trigger] s[j]),
        i == s.len() || set.contains(s[i]),
    ensures
        first_in(s, set) == i,
    decreases i,
{
    if i > 0 {
        let t = s.drop_first();
        assert forall|j: int| 0 <= j < i - 1 implies !set.contains(#[trigger] t[j]) by {
            assert(t[j] == s[j + 1]);
        }
        assert(!set.contains(s[0]));
        if i < s.len() {
            assert(t[i - 1] == s[i]);
        }
        lemma_first_in(t, set, i - 1);
    }
}

pub proof fn lemma_first_in_bounds(s: Seq<char>, set: Seq<char>)
    ensures
        0 <= first_in(s, set) <= s.len(),
    decreases s.len(),
{
    if s.len() > 0 && !set.contains(s[0]) {
        lemma_first_in_bounds(s.drop_first(), set);
    }
}

/// The position of the first character of `v` found in `set`, or `v.len()`.
pub fn first_in_exec(v: &Vec<char>, set: &Vec<char>) -> (r: usize)
    ensures
        r == first_in(v@, set@),
        r <= v.len(),
{
    let mut i: usize = 0;
    while i < v.len()
        invariant
            i <= v.len(),
            forall|j: int| 0 <= j < i ==> !set@.contains(#[trigger] v@[j]),
        decreases v.len() - i,
    {
        if has_char(set, v[i]) {
            proof {
                lemma_first_in(v@, set@, i as int);
            }
            return i;
        }
        i += 1;
    }
    proof {
        lemma_first_in(v@, set@, i as int);
    }
    i
}

// ---------------------------------------------------------------------------
// Splitting
// ---------------------------------------------------------------------------

/// `str::split` with a non-empty string pattern: the pieces between the
/// leftmost non-overlapping occurrences of `p`.
pub open spec fn split(s: Seq<char>, p: Seq<char>) -> Seq<Seq<char>>
    recommends
        p.len() > 0,
    decreases s.len(),
{
    if s.len() == 0 || p.len() == 0 {
        seq![s]
    } else if starts_with(s, p) {
        seq![Seq::<char>::empty()] + split(s.skip(p.len() as int), p)
    } else {
        let rest = split(s.drop_first(), p);
        rest.update(0, seq![s[0]] + rest[0])
    }
}

/// The same pieces as `split`, with occurrences of the lower-case pattern `p`
/// looked up in the ASCII lower-case form of `s`.
pub open spec fn split_ci(s: Seq<char>, p: Seq<char>) -> Seq<Seq<char>>
    recommends
        p.len() > 0,
    decreases s.len(),
{
    if s.len() == 0 || p.len() == 0 {
        seq![s]
    } else if starts_with(lower(s), p) {
        seq![Seq::<char>::empty()] + split_ci(s.skip(p.len() as int), p)
    } else {
        let rest = split_ci(s.drop_first(), p);
        rest.update(0, seq![s[0]] + rest[0])
    }
}

pub proof fn lemma_split_nonempty(s: Seq<char>, p: Seq<char>)
    ensures
        split(s, p).len() >= 1,
        split_ci(s, p).len() >= 1,
{
    lemma_split_len(s, p);
    lemma_split_ci_len(s, p);
}

proof fn lemma_split_len(s: Seq<char>, p: Seq<char>)
    ensures
        split(s, p).len() >= 1,
    decreases s.len(),
{
    if s.len() > 0 && p.len() > 0 {
        if starts_with(s, p) {
            lemma_split_len(s.skip(p.len() as int), p);
        } else {
            lemma_split_len(s.drop_first(), p);
        }
    }
}

proof fn lemma_split_ci_len(s: Seq<char>, p: Seq<char>)
    ensures
        split_ci(s, p).len() >= 1,
    decreases s.len(),
{
    if s.len() > 0 && p.len() > 0 {
        if starts_with(lower(s), p) {
            lemma_split_ci_len(s.skip(p.len() as int), p);
        } else {
            lemma_split_ci_len(s.drop_first(), p);
        }
    }
}

/// Prepend `cur` to the first piece of a split.
pub open spec fn prepend_first(cur: Seq<char>, parts: Seq<Seq<char>>) -> Seq<Seq<char>> {
    parts.update(0, cur + parts[0])
}

pub open spec fn views(v: Seq<Vec<char>>) -> Seq<Seq<char>> {
    v.map_values(|x: Vec<char>| x@)
}

/// `str::split` with a non-empty string pattern.
pub fn split_exec(v: &Vec<char>, p: &Vec<char>) -> (r: Vec<Vec<char>>)
    requires
        p.len() > 0,
    ensures
        views(r@) == split(v@, p@),
{
    split_impl(v, p, false)
}

/// `split_ci`: the pieces of `v` between occurrences of the lower-case
/// pattern `p` in the ASCII lower-case form of `v`.
pub fn split_ci_exec(v: &Vec<char>, p: &Vec<char>) -> (r: Vec<Vec<char>>)
    requires
        p.len() > 0,
    ensures
        views(r@) == split_ci(v@, p@),
{
    split_impl(v, p, true)
}

fn split_impl(v: &Vec<char>, p: &Vec<char>, ci: bool) -> (r: Vec<Vec<char>>)
    requires
        p.len() > 0,
    ensures
        !ci ==> views(r@) == split(v@, p@),
        ci ==> views(r@) == split_ci(v@, p@),
{
    let key = if ci {
        lower_chars(v)
    } else {
        copy_chars(v)
    };
    let ghost spl = |s: Seq<char>|
        if ci {
            split_ci(s, p@)
        } else {
            split(s, p@)
        };
    let mut out: Vec<Vec<char>> = Vec::new();
    let mut cur: Vec<char> = Vec::new();
    let mut i: usize = 0;
    proof {
        assert(v@.skip(0) =~= v@);
        lemma_split_nonempty(v@, p@);
        assert(prepend_first(cur@, spl(v@)) =~= spl(v@));
        assert(views(out@) + prepend_first(cur@, spl(v@.skip(0))) =~= spl(v@));
    }
    while i < v.len()
        invariant
            p.len() > 0,
            i <= v.len(),
            key.len() == v.len(),
            ci ==> key@ == lower(v@),
            !ci ==> key@ == v@,
            spl == (|s: Seq<char>|
                if ci {
                    split_ci(s, p@)
                } else {
                    split(s, p@)
                }),
            views(out@) + prepend_first(cur@, spl(v@.skip(i as int))) == spl(v@),
        decreases v.len() - i,
    {
        let ghost rest = v@.skip(i as int);
        proof {
            lemma_split_nonempty(rest, p@);
            assert(rest.len() > 0);
            if ci {
                assert(lower(rest) =~= key@.skip(i as int));
            } else {
                assert(rest =~= key@.skip(i as int));
            }
            assert(starts_with(key@.skip(i as int), p@) == occurs_at(key@, p@, i as int)) by {
                if p@.len() <= key@.skip(i as int).len() {
                    assert(key@.skip(i as int).take(p@.len() as int) =~= key@.subrange(
                        i as int,
                        i + p@.len(),
                    ));
                }
            }
        }
        if occurs_at_exec(&key, p, i) {
            let ghost old_out = views(out@);
            let ghost old_cur = cur@;
            out.push(cur);
            cur = Vec::new();
            proof {
                assert(views(out@) =~= old_out.push(old_cur));
                let next = v@.skip(i + p@.len());
                assert(rest.skip(p@.len() as int) =~= next);
                lemma_split_nonempty(next, p@);
                assert(spl(rest) =~= seq![Seq::<char>::empty()] + spl(next));
                assert(prepend_first(old_cur, spl(rest)) =~= seq![old_cur] + spl(next));
                assert(prepend_first(cur@, spl(next)) =~= spl(next));
                assert(views(out@) + prepend_first(cur@, spl(next)) =~= old_out + prepend_first(
                    old_cur,
                    spl(rest),
                ));
            }
            i += p.len();
        } else {
            let ghost old_cur = cur@;
            cur.push(v[i]);
            proof {
                let next = v@.skip(i + 1);
                assert(rest.drop_first() =~= next);
                lemma_split_nonempty(next, p@);
                assert(spl(rest) =~= spl(next).update(0, seq![rest[0]] + spl(next)[0]));
                assert(old_cur + (seq![rest[0]] + spl(next)[0]) =~= cur@ + spl(next)[0]);
                assert(prepend_first(old_cur, spl(rest)) =~= prepend_first(cur@, spl(next)));
            }
            i += 1;
        }
    }
    proof {
        assert(v@.skip(i as int) =~= Seq::<char>::empty());
        assert(spl(Seq::<char>::empty()) =~= seq![Seq::<char>::empty()]);
    }
    let ghost old_out = views(out@);
    let ghost old_cur = cur@;
    out.push(cur);
    proof {
        assert(views(out@) =~= old_out.push(old_cur));
        assert(prepend_first(old_cur, seq![Seq::<char>::empty()]) =~= seq![old_cur]);
    }
    out
}

// ---------------------------------------------------------------------------
// Numbers
// ---------------------------------------------------------------------------

pub open spec fn all_digits(s: Seq<char>) -> bool {
    forall|i: int| 0 <= i < s.len() ==> is_digit(#[trigger] s[i])
}

/// The decimal value of a sequence of digits.
pub open spec fn digits_value(s: Seq<char>) -> int
    decreases s.len(),
{
    if s.len() == 0 {
        0
    } else {
        digits_value(s.drop_last()) * 10 + ((s.last() as u32) - ('0' as u32))
    }
}

/// The digits of `s` after an optional leading `+`, as `u64::from_str` reads them.
pub open spec fn unsigned_digits(s: Seq<char>) -> Seq<char> {
    if s.len() > 0 && s[0] == '+' {
        s.drop_first()
    } else {
        s
    }
}

/// `u64::from_str`: an optional `+`, then one or more ASCII digits whose value fits in a `u64`.
pub open spec fn parse_u64(s: Seq<char>) -> Option<u64> {
    let d = unsigned_digits(s);
    if d.len() > 0 && all_digits(d) && digits_value(d) <= u64::MAX {
        Some(digits_value(d) as u64)
    } else {
        None
    }
}

proof fn lemma_digits_value_mono(s: Seq<char>, i: int)
    requires
        0 <= i <= s.len(),
        all_digits(s),
    ensures
        digits_value(s.take(i)) <= digits_value(s),
    decreases s.len(),
{
    if i < s.len() {
        assert(all_digits(s.drop_last()));
        lemma_digits_value_mono(s.drop_last(), i);
        assert(s.drop_last().take(i) =~= s.take(i));
        lemma_digits_nonneg(s.drop_last());
    } else {
        assert(s.take(i) =~= s);
    }
}

proof fn lemma_digits_nonneg(s: Seq<char>)
    requires
        all_digits(s),
    ensures
        0 <= digits_value(s),
    decreases s.len(),
{
    if s.len() > 0 {
        assert(all_digits(s.drop_last()));
        lemma_digits_nonneg(s.drop_last());
    }
}

/// `u64::from_str`.
pub fn parse_u64_exec(v: &Vec<char>) -> (r: Option<u64>)
    ensures
        r == parse_u64(v@),
{
    let start: usize = if v.len() > 0 && v[0] == '+' {
        1
    } else {
        0
    };
    let ghost d = unsigned_digits(v@);
    proof {
        if start == 1 {
            assert(d =~= v@.skip(1));
        } else {
            assert(d =~= v@.skip(0));
        }
    }
    if start == v.len() {
        assert(d.len() == 0);
        return None;
    }
    let mut acc: u64 = 0;
    let mut i: usize = start;
    while i < v.len()
        invariant
            start <= i <= v.len(),
            d == v@.skip(start as int),
            d == unsigned_digits(v@),
            forall|j: int| 0 <= j < i - start ==> is_digit(#[trigger] d[j]),
            acc == digits_value(d.take(i - start)),
        decreases v.len() - i,
    {
        let c = v[i];
        if !char_is_digit(c) {
            assert(d[i - start] == c);
            assert(!all_digits(d));
            return None;
        }
        let digit = (c as u32 - '0' as u32) as u64;
        assert(d.take(i + 1 - start).drop_last() =~= d.take(i - start));
        assert(d.take(i + 1 - start).last() == c);
        if acc > (u64::MAX - digit) / 10 {
            proof {
                let t = d.take(i + 1 - start);
                assert(digits_value(t) == acc * 10 + digit);
                assert(digits_value(t) > u64::MAX) by (nonlinear_arith)
                    requires
                        digits_value(t) == acc * 10 + digit,
                        acc > (u64::MAX - digit) / 10,
                        digit <= 9,
                ;
                if all_digits(d) {
                    lemma_digits_value_mono(d, i + 1 - start);
                    assert(digits_value(d) > u64::MAX);
                }
                assert(parse_u64(v@) is None);
            }
            return None;
        }
        acc = acc * 10 + digit;
        i += 1;
    }
    proof {
        assert(d.take(i - start) =~= d);
    }
    Some(acc)
}

} // verus!

verus! {

/// An owned copy of `s`.
pub fn owned(s: &str) -> (r: String)
    ensures
        r@ == s@,
{
    s.to_owned()
}

/// `prefix`, then `suffix`.
pub fn join2(prefix: &str, suffix: &str) -> (r: String)
    ensures
        r@ == prefix@ + suffix@,
{
    let mut r = <String as vstd::string::StringExecFns>::from_str(prefix);
    r.append(suffix);
    r
}

/// `prefix`, then `middle`, then `suffix`.
pub fn join3(prefix: &str, middle: &str, suffix: &str) -> (r: String)
    ensures
        r@ == prefix@ + middle@ + suffix@,
{
    let mut r = <String as vstd::string::StringExecFns>::from_str(prefix);
    r.append(middle);
    r.append(suffix);
    r
}

} // verus!

verus! {

/// The UTF-8 encoding of `v`, as `str::as_bytes` gives it.
pub fn utf8_bytes(v: &Vec<char>) -> (r: Vec<u8>)
    ensures
        r@ == vstd::utf8::encode_utf8(v@),
{
    let s = string_of(v);
    let b = s.as_str().as_bytes();
    vstd::slice::slice_to_vec(b)
}

/// `str::split_whitespace`: the maximal runs of non-whitespace characters.
pub open spec fn words(s: Seq<char>) -> Seq<Seq<char>>
    decreases s.len(),
{
    if s.len() == 0 {
        seq![]
    } else if is_ws(s.last()) {
        words(s.drop_last())
    } else {
        let rest = words(s.drop_last());
        if s.len() >= 2 && !is_ws(s[s.len() - 2]) {
            rest.update(rest.len() - 1, rest.last().push(s.last()))
        } else {
            rest.push(seq![s.last()])
        }
    }
}

proof fn lemma_words_last(s: Seq<char>)
    requires
        s.len() > 0,
        !is_ws(s.last()),
    ensures
        words(s).len() > 0,
    decreases s.len(),
{
    if s.len() >= 2 && !is_ws(s[s.len() - 2]) {
        lemma_words_last(s.drop_last());
    }
}

/// `str::split_whitespace`.
pub fn words_exec(v: &Vec<char>) -> (r: Vec<Vec<char>>)
    ensures
        views(r@) == words(v@),
{
    let mut out: Vec<Vec<char>> = Vec::new();
    let mut cur: Vec<char> = Vec::new();
    let mut i: usize = 0;
    while i < v.len()
        invariant
            i <= v.len(),
            cur@.len() > 0 ==> i > 0 && !is_ws(v@[i - 1]),
            i > 0 && !is_ws(v@[i - 1]) ==> cur@.len() > 0,
            cur@.len() == 0 ==> views(out@) == words(v@.take(i as int)),
            cur@.len() > 0 ==> views(out@).push(cur@) == words(v@.take(i as int)),
        decreases v.len() - i,
    {
        let c = v[i];
        let ghost t = v@.take(i + 1);
        assert(t.drop_last() =~= v@.take(i as int));
        assert(t.last() == c);
        if char_is_ws(c) {
            if cur.len() > 0 {
                let ghost old_out = views(out@);
                let ghost old_cur = cur@;
                out.push(cur);
                cur = Vec::new();
                assert(views(out@) =~= old_out.push(old_cur));
            }
        } else {
            let ghost old_cur = cur@;
            cur.push(c);
            proof {
                if old_cur.len() > 0 {
                    assert(t[t.len() - 2] == v@[i - 1]);
                    let rest = words(v@.take(i as int));
                    assert(rest =~= views(out@).push(old_cur));
                    assert(views(out@).push(cur@) =~= rest.update(
                        rest.len() - 1,
                        rest.last().push(c),
                    ));
                } else {
                    if i > 0 {
                        assert(t[t.len() - 2] == v@[i - 1]);
                    }
                    assert(cur@ =~= seq![c]);
                }
            }
        }
        i += 1;
    }
    assert(v@.take(v.len() as int) =~= v@);
    if cur.len() > 0 {
        out.push(cur);
        proof {
            assert(views(out@) =~= views(out@.drop_last()).push(out@.last()@));
        }
    }
    out
}

} // verus!
