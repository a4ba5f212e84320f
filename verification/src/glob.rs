//! The language of a wildcard pattern, character by character, and the
//! proof that `wildcard_match` answers membership in it.
use crate::filters::{lemma_last_piece, lemma_leftmost_backward, matches_wildcard, placeable, placed, wildcard};
use crate::text::{occurs_at, split, starts_with};
use vstd::prelude::*;

verus! {

/// The language of a wildcard pattern, character by character: `*` stands
/// for any run of characters, possibly empty; every other character for
/// itself; the whole text is matched.
pub open spec fn glob(p: Seq<char>, t: Seq<char>) -> bool
    decreases p.len(), t.len(),
{
    if p.len() == 0 {
        t.len() == 0
    } else if p[0] == '*' {
        glob(p.drop_first(), t) || (t.len() > 0 && glob(p, t.drop_first()))
    } else {
        t.len() > 0 && t[0] == p[0] && glob(p.drop_first(), t.drop_first())
    }
}

/// The pieces `split` cuts a pattern into at `*`: without `*` the pattern
/// itself; otherwise its part before the first `*`, and the pieces of the
/// rest.
proof fn lemma_split_shape(p: Seq<char>)
    ensures
        split(p, seq!['*']).len() >= 1,
        !split(p, seq!['*'])[0].contains('*'),
        split(p, seq!['*']).len() == 1 ==> split(p, seq!['*'])[0] == p,
        split(p, seq!['*']).len() > 1 ==> ({
            let q = split(p, seq!['*'])[0];
            let r = p.skip(q.len() + 1int);
            &&& q.len() < p.len()
            &&& p == q + seq!['*'] + r
            &&& split(r, seq!['*']) == split(p, seq!['*']).drop_first()
        }),
    decreases p.len(),
{
    let star = seq!['*'];
    if p.len() == 0 {
    } else if starts_with(p, star) {
        assert(p.take(1)[0] == p[0]);
        lemma_split_shape(p.skip(1));
        let parts = split(p, star);
        assert(parts == seq![Seq::<char>::empty()] + split(p.skip(1), star));
        assert(parts[0] =~= Seq::<char>::empty());
        assert(parts.drop_first() =~= split(p.skip(1), star));
        assert(p =~= parts[0] + star + p.skip(1));
    } else {
        let d = p.drop_first();
        lemma_split_shape(d);
        let rest = split(d, star);
        let parts = split(p, star);
        assert(parts == rest.update(0, seq![p[0]] + rest[0]));
        assert(p[0] != '*') by {
            if p[0] == '*' {
                assert(p.take(1) =~= star);
            }
        }
        let q = parts[0];
        assert(q =~= seq![p[0]] + rest[0]);
        assert forall|i: int| 0 <= i < q.len() implies q[i] != '*' by {
            if i > 0 {
                assert(q[i] == rest[0][i - 1]);
                if q[i] == '*' {
                    assert(rest[0].contains(rest[0][i - 1]));
                }
            }
        }
        if rest.len() == 1 {
            assert(p =~= seq![p[0]] + d);
        } else {
            let r = d.skip(rest[0].len() + 1int);
            assert(d == rest[0] + star + r);
            assert(p =~= seq![p[0]] + d);
            assert(seq![p[0]] + (rest[0] + star + r) =~= (seq![p[0]] + rest[0]) + star + r);
            assert(p =~= q + star + r);
            assert(p.skip(q.len() + 1int) =~= r);
            assert(parts.drop_first() =~= rest.drop_first());
        }
    }
}

/// A pattern without `*` matches exactly itself.
proof fn lemma_glob_plain(q: Seq<char>, v: Seq<char>)
    requires
        !q.contains('*'),
    ensures
        glob(q, v) <==> v == q,
    decreases q.len(),
{
    if q.len() == 0 {
        if v.len() == 0 {
            assert(v =~= q);
        }
    } else {
        assert(q[0] != '*') by {
            if q[0] == '*' {
                assert(q.contains(q[0]));
            }
        }
        let q1 = q.drop_first();
        assert(!q1.contains('*')) by {
            if q1.contains('*') {
                let i = choose|i: int| 0 <= i < q1.len() && q1[i] == '*';
                assert(q.contains(q[i + 1]));
            }
        }
        assert(glob(q, v) == (v.len() > 0 && v[0] == q[0] && glob(q1, v.drop_first())));
        if v.len() > 0 {
            let v1 = v.drop_first();
            lemma_glob_plain(q1, v1);
            if v[0] == q[0] && v1 == q1 {
                assert forall|i: int| 0 <= i < v.len() implies v[i] == q[i] by {
                    if i > 0 {
                        assert(v[i] == v1[i - 1]);
                        assert(q[i] == q1[i - 1]);
                    }
                }
                assert(v =~= q);
            }
            if v == q {
                assert(v1 =~= q1);
            }
        }
    }
}

/// A pattern that starts with the plain `q` matches the texts that start
/// with `q` and go on with a match of the rest.
proof fn lemma_glob_prefix(q: Seq<char>, r: Seq<char>, v: Seq<char>)
    requires
        !q.contains('*'),
    ensures
        glob(q + r, v) <==> (starts_with(v, q) && glob(r, v.skip(q.len() as int))),
    decreases q.len(),
{
    if q.len() == 0 {
        assert(q + r =~= r);
        assert(v.skip(0) =~= v);
        assert(v.take(0) =~= q);
    } else {
        let p = q + r;
        assert(p[0] == q[0]);
        assert(q[0] != '*') by {
            if q[0] == '*' {
                assert(q.contains(q[0]));
            }
        }
        let q1 = q.drop_first();
        assert(!q1.contains('*')) by {
            if q1.contains('*') {
                let i = choose|i: int| 0 <= i < q1.len() && q1[i] == '*';
                assert(q.contains(q[i + 1]));
            }
        }
        assert(p.drop_first() =~= q1 + r);
        if v.len() > 0 {
            lemma_glob_prefix(q1, r, v.drop_first());
            if v.len() >= q.len() {
                assert(v.drop_first().skip(q1.len() as int) =~= v.skip(q.len() as int));
            }
            if starts_with(v, q) {
                assert(v.take(q.len() as int)[0] == v[0]);
                assert(v.drop_first().take(q1.len() as int) =~= v.take(q.len() as int).drop_first());
            }
            if v[0] == q[0] && starts_with(v.drop_first(), q1) {
                assert(v.take(q.len() as int) =~= seq![v[0]] + v.drop_first().take(q1.len() as int));
                assert(q =~= seq![q[0]] + q1);
            }
        }
    }
}

/// A pattern that starts with `*` matches the texts some suffix of which
/// matches the rest.
proof fn lemma_glob_star(r: Seq<char>, w: Seq<char>)
    ensures
        glob(seq!['*'] + r, w) <==> exists|m: int| 0 <= m <= w.len() && #[trigger] glob(r, w.skip(m)),
    decreases w.len(),
{
    let p = seq!['*'] + r;
    assert(p[0] == '*');
    assert(p.drop_first() =~= r);
    assert(w.skip(0) =~= w);
    assert(glob(p, w) == (glob(r, w) || (w.len() > 0 && glob(p, w.drop_first()))));
    if glob(r, w) {
        assert(glob(r, w.skip(0)));
    }
    if w.len() > 0 {
        lemma_glob_star(r, w.drop_first());
        if glob(p, w.drop_first()) {
            let m = choose|m: int| 0 <= m <= w.drop_first().len() && #[trigger] glob(r, w.drop_first().skip(m));
            assert(w.drop_first().skip(m) =~= w.skip(m + 1));
            assert(glob(r, w.skip(m + 1)));
        }
        if exists|m: int| 0 <= m <= w.len() && #[trigger] glob(r, w.skip(m)) {
            let m = choose|m: int| 0 <= m <= w.len() && #[trigger] glob(r, w.skip(m));
            if m > 0 {
                assert(w.drop_first().skip(m - 1) =~= w.skip(m));
                assert(glob(r, w.drop_first().skip(m - 1)));
            }
        }
    } else {
        if exists|m: int| 0 <= m <= w.len() && #[trigger] glob(r, w.skip(m)) {
            let m = choose|m: int| 0 <= m <= w.len() && #[trigger] glob(r, w.skip(m));
            assert(m == 0);
        }
    }
}

/// The pieces of `r` can be placed in `t` from `s` on exactly when some
/// suffix of `t` from `s` on matches `r`.
#[verifier::spinoff_prover]
#[verifier::rlimit(60)]
proof fn lemma_placeable_glob(r: Seq<char>, t: Seq<char>, s: int)
    requires
        0 <= s <= t.len(),
    ensures
        placeable(split(r, seq!['*']), t, s) <==> exists|k: int| s <= k <= t.len() && #[trigger] glob(r, t.skip(k)),
    decreases r.len(),
{
    let parts = split(r, seq!['*']);
    lemma_split_shape(r);
    let q = parts[0];
    if parts.len() == 1 {
        lemma_last_piece(parts, t, s);
        if placeable(parts, t, s) {
            let k = t.len() - q.len();
            assert(t.skip(k) =~= t.subrange(k, k + q.len()));
            lemma_glob_plain(r, t.skip(k));
            assert(glob(r, t.skip(k)));
        }
        if exists|k: int| s <= k <= t.len() && #[trigger] glob(r, t.skip(k)) {
            let k = choose|k: int| s <= k <= t.len() && #[trigger] glob(r, t.skip(k));
            lemma_glob_plain(r, t.skip(k));
            assert(k == t.len() - q.len());
            assert(t.subrange(k, k + q.len()) =~= t.skip(k));
        }
    } else {
        let rest = r.skip(q.len() + 1int);
        let star_rest = seq!['*'] + rest;
        assert(r =~= q + star_rest);
        if placeable(parts, t, s) {
            let pos = choose|pos: Seq<int>| placed(parts, t, s, pos);
            let k = pos[0];
            assert(occurs_at(t, parts[0], k));
            lemma_leftmost_forward_at(parts, t, s, pos);
            lemma_placeable_glob(rest, t, k + q.len());
            let m = choose|m: int| k + q.len() <= m <= t.len() && #[trigger] glob(rest, t.skip(m));
            lemma_glob_star(rest, t.skip(k + q.len()));
            assert(t.skip(k + q.len()).skip(m - (k + q.len())) =~= t.skip(m));
            assert(glob(rest, t.skip(k + q.len()).skip(m - (k + q.len()))));
            lemma_glob_prefix(q, star_rest, t.skip(k));
            assert(t.skip(k).skip(q.len() as int) =~= t.skip(k + q.len()));
            assert(t.skip(k).take(q.len() as int) =~= t.subrange(k, k + q.len()));
            assert(glob(r, t.skip(k)));
        }
        if exists|k: int| s <= k <= t.len() && #[trigger] glob(r, t.skip(k)) {
            let k = choose|k: int| s <= k <= t.len() && #[trigger] glob(r, t.skip(k));
            lemma_glob_prefix(q, star_rest, t.skip(k));
            assert(t.skip(k).skip(q.len() as int) =~= t.skip(k + q.len()));
            assert(t.skip(k).take(q.len() as int) =~= t.subrange(k, k + q.len()));
            assert(occurs_at(t, q, k));
            lemma_glob_star(rest, t.skip(k + q.len()));
            let m = choose|m: int| 0 <= m <= t.skip(k + q.len()).len() && #[trigger] glob(rest, t.skip(k + q.len()).skip(m));
            assert(t.skip(k + q.len()).skip(m) =~= t.skip(k + q.len() + m));
            lemma_placeable_glob(rest, t, k + q.len());
            assert(glob(rest, t.skip(k + q.len() + m)));
            lemma_leftmost_backward(parts, t, s, k);
        }
    }
}

/// Any placement of the pieces gives a placement of all but the first after it.
proof fn lemma_leftmost_forward_at(parts: Seq<Seq<char>>, t: Seq<char>, s: int, pos: Seq<int>)
    requires
        parts.len() >= 2,
        placed(parts, t, s, pos),
    ensures
        placeable(parts.drop_first(), t, pos[0] + parts[0].len()),
{
    let rest = parts.drop_first();
    let q = pos.drop_first();
    assert forall|i: int| 0 <= i < q.len() implies occurs_at(t, #[trigger] rest[i], q[i]) by {
        assert(rest[i] == parts[i + 1]);
        assert(occurs_at(t, parts[i + 1], pos[i + 1]));
    }
    assert forall|i: int| 0 <= i < q.len() - 1 implies #[trigger] q[i] + rest[i].len() <= q[i + 1] by {
        assert(pos[i + 1] + parts[i + 1].len() <= pos[i + 2]);
    }
    assert(pos[0] + parts[0].len() <= pos[1]);
    assert(placed(rest, t, pos[0] + parts[0].len(), q));
}

/// `wildcard_match` answers whether the text is in the language of the
/// pattern (`glob`): each `*` matches any run of characters, possibly
/// empty, every other character only itself, over the whole text.
pub proof fn law_wildcard_is_glob(pattern: Seq<char>, text: Seq<char>)
    ensures
        matches_wildcard(pattern, text) <==> glob(pattern, text),
{
    let parts = split(pattern, seq!['*']);
    lemma_split_shape(pattern);
    if parts.len() <= 1 {
        lemma_glob_plain(pattern, text);
    } else {
        let q = parts[0];
        let rest = pattern.skip(q.len() + 1int);
        let star_rest = seq!['*'] + rest;
        assert(pattern =~= q + star_rest);
        lemma_glob_prefix(q, star_rest, text);
        assert(split(rest, seq!['*']) == parts.drop_first());
        if starts_with(text, q) {
            let u = text.skip(q.len() as int);
            lemma_glob_star(rest, u);
            lemma_placeable_glob(rest, text, q.len() as int);
            if glob(star_rest, u) {
                let m = choose|m: int| 0 <= m <= u.len() && #[trigger] glob(rest, u.skip(m));
                assert(u.skip(m) =~= text.skip(q.len() + m));
                assert(glob(rest, text.skip(q.len() + m)));
            }
            if placeable(parts.drop_first(), text, q.len() as int) {
                let k = choose|k: int| q.len() <= k <= text.len() && #[trigger] glob(rest, text.skip(k));
                assert(u.skip(k - q.len()) =~= text.skip(k));
                assert(glob(rest, u.skip(k - q.len())));
            }
        }
        if pattern == text {
            assert(glob(pattern, text)) by {
                lemma_glob_self(pattern);
            }
        }
    }
}

/// Every pattern matches its own text.
proof fn lemma_glob_self(p: Seq<char>)
    ensures
        glob(p, p),
    decreases p.len(),
{
    if p.len() > 0 {
        lemma_glob_self(p.drop_first());
        if p[0] == '*' {
            reveal_with_fuel(glob, 3);
            lemma_glob_star_one(p.drop_first());
        }
    }
}

/// `*` followed by `r` matches `*` followed by a match of `r`.
proof fn lemma_glob_star_one(r: Seq<char>)
    requires
        glob(r, r),
    ensures
        glob(seq!['*'] + r, seq!['*'] + r),
{
    let p = seq!['*'] + r;
    lemma_glob_star(r, p);
    assert(p.skip(1) =~= r);
    assert(glob(r, p.skip(1)));
}

} // verus!
