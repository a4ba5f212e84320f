//! Sorted sets of strings: the order `String` compares by, and insertion
//! into a strictly increasing vector.
use vstd::prelude::*;

verus! {

/// Lexicographic order on characters, as `String`'s `Ord` compares
/// (UTF-8 byte order is code point order).
pub open spec fn lex_lt(a: Seq<char>, b: Seq<char>) -> bool
    decreases a.len(),
{
    if a.len() == 0 {
        b.len() > 0
    } else if b.len() == 0 {
        false
    } else if a[0] != b[0] {
        a[0] < b[0]
    } else {
        lex_lt(a.drop_first(), b.drop_first())
    }
}

pub proof fn lemma_lex_irreflexive(a: Seq<char>)
    ensures
        !lex_lt(a, a),
    decreases a.len(),
{
    if a.len() > 0 {
        lemma_lex_irreflexive(a.drop_first());
    }
}

pub proof fn lemma_lex_transitive(a: Seq<char>, b: Seq<char>, c: Seq<char>)
    requires
        lex_lt(a, b),
        lex_lt(b, c),
    ensures
        lex_lt(a, c),
    decreases a.len(),
{
    if a.len() > 0 && b.len() > 0 && c.len() > 0 && a[0] == b[0] && b[0] == c[0] {
        lemma_lex_transitive(a.drop_first(), b.drop_first(), c.drop_first());
    }
}

pub proof fn lemma_lex_total(a: Seq<char>, b: Seq<char>)
    requires
        a != b,
    ensures
        lex_lt(a, b) || lex_lt(b, a),
    decreases a.len(),
{
    if a.len() == 0 {
        assert(b.len() > 0) by {
            if b.len() == 0 {
                assert(a =~= b);
            }
        }
    } else if b.len() == 0 {
    } else if a[0] == b[0] {
        if a.drop_first() =~= b.drop_first() {
            assert(a =~= seq![a[0]] + a.drop_first());
            assert(b =~= seq![b[0]] + b.drop_first());
            assert(false);
        }
        lemma_lex_total(a.drop_first(), b.drop_first());
    } else {
        let (x, y) = (a[0], b[0]);
        assert(x != y);
        assert(x < y || y < x);
    }
}

/// Whether `a` sorts before `b`.
pub fn str_lt(a: &str, b: &str) -> (r: bool)
    ensures
        r == lex_lt(a@, b@),
{
    let x = crate::text::chars_of(a);
    let y = crate::text::chars_of(b);
    let mut i: usize = 0;
    assert(a@.skip(0) =~= a@ && b@.skip(0) =~= b@);
    while i < x.len() && i < y.len() && x[i] == y[i]
        invariant
            i <= x.len(),
            i <= y.len(),
            x@ == a@,
            y@ == b@,
            lex_lt(a@, b@) == lex_lt(a@.skip(i as int), b@.skip(i as int)),
        decreases x.len() - i,
    {
        assert(a@.skip(i as int).drop_first() =~= a@.skip(i + 1));
        assert(b@.skip(i as int).drop_first() =~= b@.skip(i + 1));
        i += 1;
    }
    if i == x.len() {
        i < y.len()
    } else if i == y.len() {
        false
    } else {
        x[i] < y[i]
    }
}

/// The character views of a sequence of strings.
pub open spec fn strs(v: Seq<String>) -> Seq<Seq<char>> {
    v.map_values(|s: String| s@)
}

/// Strictly increasing under `lex_lt`: sorted and without duplicates.
pub open spec fn strictly_sorted(v: Seq<Seq<char>>) -> bool {
    forall|i: int, j: int| 0 <= i < j < v.len() ==> lex_lt(#[trigger] v[i], #[trigger] v[j])
}

/// Insert `x` into the sorted vector `v` unless it is there already.
pub fn insert_sorted(v: &mut Vec<String>, x: String)
    requires
        strictly_sorted(strs(old(v)@)),
    ensures
        strictly_sorted(strs(final(v)@)),
        strs(final(v)@).to_set() == strs(old(v)@).to_set().insert(x@),
{
    let ghost old_v = strs(v@);
    let mut k: usize = 0;
    while k < v.len() && str_lt(v[k].as_str(), x.as_str())
        invariant
            k <= v.len(),
            old_v == strs(v@),
            forall|i: int| 0 <= i < k ==> lex_lt(#[trigger] old_v[i], x@),
        decreases v.len() - k,
    {
        k += 1;
    }
    if k < v.len() && crate::text::chars_eq(
        &crate::text::chars_of(v[k].as_str()),
        &crate::text::chars_of(x.as_str()),
    ) {
        assert(old_v[k as int] == x@);
        assert(old_v.to_set().insert(x@) =~= old_v.to_set());
        return;
    }
    let ghost xv = x@;
    v.insert(k, x);
    let ghost new_v = strs(v@);
    assert(new_v =~= old_v.insert(k as int, xv));
    proof {
        if k < old_v.len() {
            assert(!lex_lt(old_v[k as int], xv));
            assert(old_v[k as int] != xv);
            lemma_lex_total(old_v[k as int], xv);
        }
        assert forall|i: int, j: int| 0 <= i < j < new_v.len() implies lex_lt(
            #[trigger] new_v[i],
            #[trigger] new_v[j],
        ) by {
            if j < k {
                assert(lex_lt(old_v[i], old_v[j]));
            } else if j == k {
                assert(lex_lt(old_v[i], xv));
            } else if i == k {
                if j - 1 > k {
                    assert(lex_lt(old_v[k as int], old_v[j - 1]));
                    lemma_lex_transitive(xv, old_v[k as int], old_v[j - 1]);
                }
            } else if i < k {
                assert(lex_lt(old_v[i], xv));
                if j - 1 > k {
                    assert(lex_lt(old_v[k as int], old_v[j - 1]));
                    lemma_lex_transitive(xv, old_v[k as int], old_v[j - 1]);
                }
                lemma_lex_transitive(old_v[i], xv, old_v[j - 1]);
            } else {
                assert(lex_lt(old_v[i - 1], old_v[j - 1]));
            }
        }
        assert forall|s: Seq<char>| new_v.to_set().contains(s) == old_v.to_set().insert(
            xv,
        ).contains(s) by {
            if new_v.to_set().contains(s) {
                let j = choose|j: int| 0 <= j < new_v.len() && new_v[j] == s;
                if j < k {
                    assert(old_v[j] == s);
                } else if j > k {
                    assert(old_v[j - 1] == s);
                }
            }
            if old_v.to_set().contains(s) {
                let j = choose|j: int| 0 <= j < old_v.len() && old_v[j] == s;
                if j < k {
                    assert(new_v[j] == s);
                } else {
                    assert(new_v[j + 1] == s);
                }
            }
            if s == xv {
                assert(new_v[k as int] == s);
            }
        }
        assert(new_v.to_set() =~= old_v.to_set().insert(xv));
    }
}

} // verus!
