//! Publishing order: packages sorted so that each comes after the workspace
//! packages it depends on.
use crate::errors::SampoError;
use crate::sorted::{insert_sorted, lemma_lex_irreflexive, lemma_lex_transitive, lex_lt, strictly_sorted, strs};
use crate::text::{chars_eq, chars_of, join3, owned};
use crate::types::PackageInfo;
use vstd::prelude::*;
use vstd::seq_lib::seq_to_set_is_finite;
use vstd::set_lib::{lemma_int_range, lemma_len_subset, set_int_range};

verus! {

/// How many of the edges in `e` lead outside `done`.
pub open spec fn outside(e: Seq<usize>, done: Set<usize>) -> nat
    decreases e.len(),
{
    if e.len() == 0 {
        0
    } else {
        outside(e.drop_last(), done) + if done.contains(e.last()) {
            0nat
        } else {
            1nat
        }
    }
}

/// How many of the edges in `e` lead to `n`.
pub open spec fn occurrences(e: Seq<usize>, n: usize) -> nat
    decreases e.len(),
{
    if e.len() == 0 {
        0
    } else {
        occurrences(e.drop_last(), n) + if e.last() == n {
            1nat
        } else {
            0nat
        }
    }
}

proof fn lemma_outside_insert(e: Seq<usize>, done: Set<usize>, n: usize)
    requires
        !done.contains(n),
    ensures
        outside(e, done.insert(n)) + occurrences(e, n) == outside(e, done),
    decreases e.len(),
{
    if e.len() > 0 {
        lemma_outside_insert(e.drop_last(), done, n);
    }
}

proof fn lemma_outside_zero(e: Seq<usize>, done: Set<usize>)
    ensures
        outside(e, done) == 0 <==> forall|k: int| 0 <= k < e.len() ==> done.contains(#[trigger] e[k]),
    decreases e.len(),
{
    if e.len() > 0 {
        lemma_outside_zero(e.drop_last(), done);
        assert forall|k: int| 0 <= k < e.len() - 1 implies e.drop_last()[k] == #[trigger] e[k] by {}
    }
}

proof fn lemma_outside_all(e: Seq<usize>)
    ensures
        outside(e, Set::empty()) == e.len(),
    decreases e.len(),
{
    if e.len() > 0 {
        lemma_outside_all(e.drop_last());
    }
}

proof fn lemma_occurrences_zero(e: Seq<usize>, n: usize)
    requires
        forall|k: int| 0 <= k < e.len() ==> #[trigger] e[k] != n,
    ensures
        occurrences(e, n) == 0,
    decreases e.len(),
{
    if e.len() > 0 {
        assert forall|k: int| 0 <= k < e.len() - 1 implies #[trigger] e.drop_last()[k] != n by {
            assert(e.drop_last()[k] == e[k]);
        }
        lemma_occurrences_zero(e.drop_last(), n);
    }
}

/// The indices of `q` as integers.
pub open spec fn as_ints(q: Seq<usize>) -> Seq<int> {
    q.map_values(|x: usize| x as int)
}

proof fn lemma_index_sets(q: Seq<usize>, n: int)
    requires
        q.no_duplicates(),
        forall|i: int| 0 <= i < q.len() ==> #[trigger] q[i] < n,
        0 <= n <= usize::MAX,
    ensures
        q.len() <= n,
        q.len() < n ==> exists|m: usize| m < n && !q.contains(m),
        q.len() == n ==> forall|m: usize| m < n ==> q.contains(m),
{
    broadcast use seq_to_set_is_finite;
    let qi = as_ints(q);
    assert forall|i: int, j: int| 0 <= i < qi.len() && 0 <= j < qi.len() && i != j implies qi[i]
        != qi[j] by {
        assert(q[i] != q[j]);
    }
    qi.unique_seq_to_set();
    lemma_int_range(0, n);
    assert(qi.to_set().subset_of(set_int_range(0, n))) by {
        assert forall|x: int| qi.to_set().contains(x) implies set_int_range(0, n).contains(x) by {
            let i = choose|i: int| 0 <= i < qi.len() && qi[i] == x;
            assert(q[i] < n);
        }
    }
    lemma_len_subset(qi.to_set(), set_int_range(0, n));
    if q.len() < n {
        if forall|m: usize| m < n ==> q.contains(m) {
            assert(set_int_range(0, n).subset_of(qi.to_set())) by {
                assert forall|x: int| set_int_range(0, n).contains(x) implies qi.to_set().contains(
                    x,
                ) by {
                    let m = x as usize;
                    assert(m as int == x);
                    assert(q.contains(m));
                    let i = choose|i: int| 0 <= i < q.len() && q[i] == m;
                    assert(qi[i] == x);
                }
            }
            lemma_len_subset(set_int_range(0, n), qi.to_set());
        }
    }
    if q.len() == n {
        assert forall|m: usize| m < n implies q.contains(m) by {
            if !q.contains(m) {
                let r = set_int_range(0, n).remove(m as int);
                assert(qi.to_set().subset_of(r)) by {
                    assert forall|x: int| qi.to_set().contains(x) implies r.contains(x) by {
                        let i = choose|i: int| 0 <= i < qi.len() && qi[i] == x;
                        assert(q[i] < n);
                        assert(q[i] != m);
                    }
                }
                lemma_len_subset(qi.to_set(), r);
            }
        }
    }
}

/// `r` is where in `q` the last of the nodes `e` stands: `-1` when `e` is
/// empty, else a position holding a node of `e` with every node of `e` at or
/// before it.
pub open spec fn last_dep_at(q: Seq<usize>, e: Seq<usize>, r: int) -> bool {
    ||| e.len() == 0 && r == -1
    ||| e.len() > 0 && 0 <= r < q.len() && e.contains(q[r]) && forall|k: int| 0 <= k < e.len() ==> q.take(r + 1).contains(#[trigger] e[k])
}

/// Nodes in `q`, each with the position `rk` of the last node it waits for,
/// are ordered by that position, then by their own number.
pub open spec fn ranked(q: Seq<usize>, rk: Seq<int>) -> bool {
    forall|i: int, j: int| 0 <= i < j < q.len() ==> #[trigger] rk[i] < #[trigger] rk[j] || (rk[i] == rk[j] && q[i] < q[j])
}

proof fn lemma_last_dep_push(q: Seq<usize>, e: Seq<usize>, r: int, y: usize)
    requires
        last_dep_at(q, e, r),
    ensures
        last_dep_at(q.push(y), e, r),
{
    if e.len() > 0 {
        assert(q.push(y).take(r + 1) =~= q.take(r + 1));
        assert(q.push(y)[r] == q[r]);
    }
}

/// The edge lists as sequences.
pub open spec fn edge_views(edges: Seq<Vec<usize>>) -> Seq<Seq<usize>> {
    edges.map_values(|e: Vec<usize>| e@)
}

fn count_in(e: &Vec<usize>, x: usize) -> (c: usize)
    ensures
        c == occurrences(e@, x),
        c <= e.len(),
{
    let mut c: usize = 0;
    let mut k: usize = 0;
    while k < e.len()
        invariant
            k <= e.len(),
            c <= k,
            c == occurrences(e@.take(k as int), x),
        decreases e.len() - k,
    {
        assert(e@.take(k + 1).drop_last() =~= e@.take(k as int));
        if e[k] == x {
            c += 1;
        }
        k += 1;
    }
    assert(e@.take(e.len() as int) =~= e@);
    c
}

/// Kahn's algorithm: the nodes `0..edges.len()` in an order where each comes
/// after the nodes it lists in `edges`, ready nodes taken in increasing order
/// and in the order they became ready. Nodes left out all depend on some
/// other node left out.
#[verifier::spinoff_prover]
#[verifier::rlimit(80)]
fn ready_order(edges: &Vec<Vec<usize>>) -> (res: (Vec<usize>, Ghost<Seq<int>>))
    requires
        forall|m: int, k: int|
            0 <= m < edges.len() && 0 <= k < edges@[m].len() ==> #[trigger] edges@[m]@[k]
                < edges.len(),
    ensures
        res.1@.len() == res.0.len(),
        forall|i: int| 0 <= i < res.0.len() ==> last_dep_at(res.0@, edges@[#[trigger] res.0@[i] as int]@, res.1@[i]),
        ranked(res.0@, res.1@),
        res.0@.no_duplicates(),
        forall|i: int| 0 <= i < res.0.len() ==> #[trigger] res.0@[i] < edges.len(),
        forall|a: int, k: int|
            0 <= a < res.0.len() && 0 <= k < edges@[res.0@[a] as int]@.len() ==> res.0@.take(a).contains(
                #[trigger] edges@[res.0@[a] as int]@[k],
            ),
        forall|m: usize|
            m < edges.len() && !res.0@.contains(m) ==> exists|k: int|
                0 <= k < edges@[m as int]@.len() && !res.0@.contains(#[trigger] edges@[m as int]@[k]),
{
    let n = edges.len();
    let ghost e = edge_views(edges@);
    let mut indeg: Vec<usize> = Vec::new();
    let mut q: Vec<usize> = Vec::new();
    let mut m: usize = 0;
    while m < n
        invariant
            m <= n == edges.len(),
            e == edge_views(edges@),
            indeg.len() == m,
            forall|j: int| 0 <= j < m ==> indeg@[j] == #[trigger] e[j].len(),
            q@.no_duplicates(),
            forall|i: int| 0 <= i < q.len() ==> #[trigger] q@[i] < m,
            forall|j: usize| j < m ==> (indeg@[j as int] == 0 <==> q@.contains(j)),
            forall|i: int| 0 <= i < q.len() ==> e[#[trigger] q@[i] as int].len() == 0,
            forall|i: int, j: int| 0 <= i < j < q.len() ==> #[trigger] q@[i] < #[trigger] q@[j],
        decreases n - m,
    {
        let d = edges[m].len();
        let ghost indeg_before = indeg@;
        let ghost q_before = q@;
        indeg.push(d);
        assert(indeg@ =~= indeg_before.push(d));
        if d == 0 {
            q.push(m);
            assert(q@ =~= q_before.push(m));
            assert(!q_before.contains(m));
        }
        assert forall|j: usize| j < m + 1 implies (indeg@[j as int] == 0 <==> q@.contains(j)) by {
            if j < m {
                assert(indeg@[j as int] == indeg_before[j as int]);
                if d == 0 {
                    assert(q@.contains(j) == q_before.contains(j)) by {
                        if q@.contains(j) {
                            let i = choose|i: int| 0 <= i < q@.len() && q@[i] == j;
                            assert(i < q_before.len());
                            assert(q_before[i] == j);
                        }
                        if q_before.contains(j) {
                            let i = choose|i: int| 0 <= i < q_before.len() && q_before[i] == j;
                            assert(q@[i] == j);
                        }
                    }
                }
            } else {
                if d == 0 {
                    assert(q@[q@.len() - 1] == m);
                } else {
                    assert(!q@.contains(m)) by {
                        if q@.contains(m) {
                            let i = choose|i: int| 0 <= i < q@.len() && q@[i] == m;
                            assert(q@[i] < m);
                        }
                    }
                }
            }
        }
        m += 1;
    }
    let ghost mut rk: Seq<int> = Seq::new(q@.len(), |i: int| -1int);
    proof {
        assert forall|i: int| 0 <= i < q.len() implies last_dep_at(q@, e[#[trigger] q@[i] as int], rk[i]) by {
            assert(e[q@[i] as int].len() == 0);
        }
        assert(ranked(q@, rk));
        assert forall|j: int| 0 <= j < n implies indeg@[j] == outside(
            #[trigger] e[j],
            q@.take(0).to_set(),
        ) by {
            assert(q@.take(0).to_set() =~= Set::<usize>::empty());
            lemma_outside_all(e[j]);
        }
    }
    let mut h: usize = 0;
    while h < q.len()
        invariant
            n == edges.len(),
            e == edge_views(edges@),
            forall|a: int, k: int|
                0 <= a < n && 0 <= k < e[a].len() ==> #[trigger] e[a][k] < n,
            indeg.len() == n,
            h <= q.len(),
            q@.no_duplicates(),
            forall|i: int| 0 <= i < q.len() ==> #[trigger] q@[i] < n,
            forall|j: int| 0 <= j < n ==> indeg@[j] == outside(#[trigger] e[j], q@.take(h as int).to_set()),
            forall|j: usize| j < n ==> (indeg@[j as int] == 0 <==> q@.contains(j)),
            forall|a: int, k: int|
                0 <= a < h && 0 <= k < e[q@[a] as int].len() ==> q@.take(a).contains(
                    #[trigger] e[q@[a] as int][k],
                ),
            rk.len() == q.len(),
            forall|i: int| 0 <= i < q.len() ==> last_dep_at(q@, e[#[trigger] q@[i] as int], rk[i]),
            forall|i: int| 0 <= i < q.len() ==> #[trigger] rk[i] < h,
            ranked(q@, rk),
        decreases n - h,
    {
        proof {
            lemma_index_sets(q@, n as int);
        }
        let x = q[h];
        let ghost q0 = q@;
        let ghost indeg0 = indeg@;
        let ghost done = q0.take(h as int).to_set();
        let ghost done1 = done.insert(x);
        assert(!done.contains(x)) by {
            if done.contains(x) {
                let i = choose|i: int| 0 <= i < h && q0.take(h as int)[i] == x;
                assert(q0[i] == q0[h as int]);
            }
        }
        let mut m: usize = 0;
        while m < n
            invariant
                n == edges.len(),
                e == edge_views(edges@),
                m <= n,
                indeg.len() == n,
                h < q0.len(),
                x == q0[h as int],
                q0.no_duplicates(),
                !done.contains(x),
                done1 == done.insert(x),
                done == q0.take(h as int).to_set(),
                forall|j: int| 0 <= j < n ==> indeg0[j] == outside(#[trigger] e[j], done),
                forall|j: usize| j < n ==> (indeg0[j as int] == 0 <==> q0.contains(j)),
                forall|i: int| 0 <= i < q0.len() ==> #[trigger] q0[i] < n,
                forall|j: int| 0 <= j < m ==> indeg@[j] == outside(#[trigger] e[j], done1),
                forall|j: int| m <= j < n ==> indeg@[j] == #[trigger] indeg0[j],
                q@.len() >= q0.len(),
                q@.take(q0.len() as int) == q0,
                forall|i: int| q0.len() <= i < q@.len() ==> #[trigger] q@[i] < m && indeg0[q@[i] as int] > 0,
                forall|i: int, j: int| q0.len() <= i < j < q@.len() ==> #[trigger] q@[i] < #[trigger] q@[j],
                forall|j: usize| j < m ==> (outside(e[j as int], done1) == 0 <==> q@.contains(j)),
                forall|j: usize| m <= j < n ==> (q@.contains(j) <==> q0.contains(j)),
                rk.len() == q.len(),
                forall|i: int| 0 <= i < q.len() ==> last_dep_at(q@, e[#[trigger] q@[i] as int], rk[i]),
                forall|i: int| 0 <= i < q0.len() ==> #[trigger] rk[i] < h,
                forall|i: int| q0.len() <= i < q.len() ==> #[trigger] rk[i] == h,
                ranked(q@, rk),
            decreases n - m,
        {
            let ghost q_start = q@;
            let ghost pushed = false;
            let c = count_in(&edges[m], x);
            assert(edges@[m as int]@ == e[m as int]);
            proof {
                lemma_outside_insert(e[m as int], done, x);
            }
            if c > 0 {
                let v = indeg[m] - c;
                indeg.set(m, v);
                if v == 0 {
                    let ghost before = q@;
                    assert(!q0.contains(m));
                    assert(!before.contains(m)) by {
                        if before.contains(m) {
                            let i = choose|i: int| 0 <= i < before.len() && before[i] == m;
                            if i < q0.len() {
                                assert(q0[i] == before.take(q0.len() as int)[i]);
                            }
                        }
                    }
                    q.push(m);
                    proof {
                        pushed = true;
                    }
                    assert(q@ =~= before.push(m));
                    assert(q@.take(q0.len() as int) =~= before.take(q0.len() as int));
                    proof {
                        let ghost rk0 = rk;
                        rk = rk.push(h as int);
                        let em = e[m as int];
                        assert(outside(em, done1) == 0);
                        lemma_outside_zero(em, done1);
                        if !em.contains(x) {
                            assert forall|k: int| 0 <= k < em.len() implies #[trigger] em[k] != x by {
                                if em[k] == x {
                                    assert(em.contains(em[k]));
                                }
                            }
                            lemma_occurrences_zero(em, x);
                        }
                        assert(q@.take(h + 1) =~= q0.take(h as int).push(x)) by {
                            assert forall|i: int| 0 <= i < h + 1 implies q@.take(h + 1)[i] == q0.take(h as int).push(x)[i] by {
                                assert(q@[i] == q@.take(q0.len() as int)[i]);
                            }
                        }
                        assert forall|k: int| 0 <= k < em.len() implies q@.take(h + 1).contains(#[trigger] em[k]) by {
                            assert(done1.contains(em[k]));
                            if em[k] == x {
                                assert(q@.take(h + 1)[h as int] == x);
                            } else {
                                assert(done.contains(em[k]));
                                let i = choose|i: int| 0 <= i < h && q0.take(h as int)[i] == em[k];
                                assert(q@.take(h + 1)[i] == em[k]);
                            }
                        }
                        assert(q@[h as int] == x) by {
                            assert(q@[h as int] == q@.take(q0.len() as int)[h as int]);
                        }
                        assert(last_dep_at(q@, em, h as int));
                        assert forall|i: int| 0 <= i < q.len() implies last_dep_at(q@, e[#[trigger] q@[i] as int], rk[i]) by {
                            if i < before.len() {
                                assert(q@[i] == before[i]);
                                lemma_last_dep_push(before, e[before[i] as int], rk0[i], m);
                            }
                        }
                        assert(ranked(q@, rk)) by {
                            assert forall|i: int, j: int| 0 <= i < j < q.len() implies #[trigger] rk[i] < #[trigger] rk[j] || (rk[i] == rk[j] && q@[i] < q@[j]) by {
                                if j < before.len() {
                                    assert(rk[i] == rk0[i] && rk[j] == rk0[j]);
                                    assert(q@[i] == before[i] && q@[j] == before[j]);
                                } else {
                                    assert(rk[j] == h);
                                    if i >= q0.len() {
                                        assert(q@[i] == before[i]);
                                        assert(before[i] < m);
                                    }
                                }
                            }
                        }
                    }
                }
            }
            proof {
                assert(pushed ==> q@ == q_start.push(m));
                assert(!pushed ==> q@ == q_start);
                assert(pushed <==> (c > 0 && outside(e[m as int], done1) == 0));
                assert forall|j: usize| j < m + 1 implies (outside(e[j as int], done1) == 0 <==> q@.contains(j)) by {
                    if j < m {
                        assert(q@.contains(j) == q_start.contains(j)) by {
                            if q@.contains(j) {
                                let i = choose|i: int| 0 <= i < q@.len() && q@[i] == j;
                                if pushed && i == q@.len() - 1 {
                                    assert(q@[i] == m);
                                } else {
                                    assert(q_start[i] == j);
                                }
                            }
                            if q_start.contains(j) {
                                let i = choose|i: int| 0 <= i < q_start.len() && q_start[i] == j;
                                assert(q@[i] == j);
                            }
                        }
                    } else {
                        assert(j == m);
                        assert(q_start.contains(m) == q0.contains(m));
                        if pushed {
                            assert(q@[q@.len() - 1] == m);
                        } else if c == 0 {
                            assert(indeg@[m as int] == indeg0[m as int]);
                        } else {
                            assert(indeg0[m as int] > 0);
                            assert(!q0.contains(m));
                        }
                    }
                }
                assert forall|j: usize| m + 1 <= j < n implies (q@.contains(j) <==> q0.contains(j)) by {
                    assert(q@.contains(j) == q_start.contains(j)) by {
                        if q@.contains(j) {
                            let i = choose|i: int| 0 <= i < q@.len() && q@[i] == j;
                            if pushed && i == q@.len() - 1 {
                                assert(q@[i] == m);
                            } else {
                                assert(q_start[i] == j);
                            }
                        }
                        if q_start.contains(j) {
                            let i = choose|i: int| 0 <= i < q_start.len() && q_start[i] == j;
                            assert(q@[i] == j);
                        }
                    }
                }
            }
            m += 1;
        }
        proof {
            assert(q@.take(h + 1) =~= q0.take(h as int).push(x)) by {
                assert(q@.take(q0.len() as int) == q0);
                assert forall|i: int| 0 <= i < h + 1 implies q@.take(h + 1)[i] == q0.take(h as int).push(x)[i] by {
                    assert(q@[i] == q@.take(q0.len() as int)[i]);
                }
            }
            assert(q@.take(h + 1).to_set() =~= done1) by {
                q0.take(h as int).lemma_push_to_set_commute(x);
            }
            assert(q@.no_duplicates()) by {
                assert forall|i: int, j: int| 0 <= i < q@.len() && 0 <= j < q@.len() && i != j implies q@[i] != q@[j] by {
                    if i < q0.len() && j < q0.len() {
                        assert(q@[i] == q@.take(q0.len() as int)[i]);
                        assert(q@[j] == q@.take(q0.len() as int)[j]);
                    } else if i < q0.len() {
                        assert(q@[i] == q@.take(q0.len() as int)[i]);
                        assert(indeg0[q@[j] as int] > 0);
                        assert(q0.contains(q@[i]));
                    } else if j < q0.len() {
                        assert(q@[j] == q@.take(q0.len() as int)[j]);
                        assert(indeg0[q@[i] as int] > 0);
                        assert(q0.contains(q@[j]));
                    }
                }
            }
            assert forall|i: int| 0 <= i < q.len() implies #[trigger] q@[i] < n by {
                if i < q0.len() {
                    assert(q@[i] == q@.take(q0.len() as int)[i]);
                }
            }
            assert forall|a: int, k: int|
                0 <= a < h + 1 && 0 <= k < e[q@[a] as int].len() implies q@.take(a).contains(
                    #[trigger] e[q@[a] as int][k],
                ) by {
                assert(q@[a] == q@.take(q0.len() as int)[a]);
                assert(q@.take(a) =~= q0.take(a));
                if a == h {
                    assert(indeg0[x as int] == 0);
                    lemma_outside_zero(e[x as int], done);
                    assert(done.contains(e[x as int][k]));
                }
            }
        }
        h += 1;
    }
    proof {
        assert(q@.take(h as int) =~= q@);
        assert forall|m: usize| m < n && !q@.contains(m) implies exists|k: int|
            0 <= k < edges@[m as int]@.len() && !q@.contains(#[trigger] edges@[m as int]@[k]) by {
            assert(edges@[m as int]@ == e[m as int]);
            assert(indeg@[m as int] != 0);
            lemma_outside_zero(e[m as int], q@.to_set());
            let k = choose|k: int| 0 <= k < e[m as int].len() && !q@.to_set().contains(#[trigger] e[m as int][k]);
            assert(!q@.contains(edges@[m as int]@[k]));
        }
        assert forall|a: int, k: int|
            0 <= a < q.len() && 0 <= k < edges@[q@[a] as int]@.len() implies q@.take(a).contains(
                #[trigger] edges@[q@[a] as int]@[k],
            ) by {
            assert(edges@[q@[a] as int]@ == e[q@[a] as int]);
        }
    }
    (q, Ghost(rk))
}

/// The first package from position `i` on whose identifier is `id`.
pub open spec fn package_index(packages: Seq<PackageInfo>, id: Seq<char>, i: int) -> Option<int>
    decreases packages.len() - i,
{
    if i < 0 || i >= packages.len() {
        None
    } else if packages[i].identifier@ == id {
        Some(i)
    } else {
        package_index(packages, id, i + 1)
    }
}

/// Some package has the identifier `id`.
pub open spec fn known(packages: Seq<PackageInfo>, id: Seq<char>) -> bool {
    package_index(packages, id, 0) is Some
}

/// The workspace dependencies of the package `id`.
pub open spec fn deps_of(packages: Seq<PackageInfo>, id: Seq<char>) -> Seq<Seq<char>> {
    match package_index(packages, id, 0) {
        Some(i) => strs(packages[i].internal_deps@),
        None => seq![],
    }
}

/// `s` is a non-empty set of included packages each of which depends on
/// another member of `s`: no order can put all of them after their dependencies.
pub open spec fn stuck_set(packages: Seq<PackageInfo>, included: Set<Seq<char>>, s: Set<Seq<char>>) -> bool {
    &&& s.subset_of(included)
    &&& exists|p: Seq<char>| s.contains(p)
    &&& forall|p: Seq<char>|
        s.contains(p) ==> exists|d: Seq<char>| deps_of(packages, p).contains(d) && #[trigger] s.contains(d)
}

/// The dependencies among the included packages form a cycle.
pub open spec fn has_cycle(packages: Seq<PackageInfo>, included: Set<Seq<char>>) -> bool {
    exists|s: Set<Seq<char>>| stuck_set(packages, included, s)
}

/// `order` lists each included package once, each after the included packages it depends on.
pub open spec fn publish_order(packages: Seq<PackageInfo>, included: Set<Seq<char>>, order: Seq<Seq<char>>) -> bool {
    &&& order.no_duplicates()
    &&& order.to_set() == included
    &&& forall|i: int, d: Seq<char>|
        0 <= i < order.len() && #[trigger] deps_of(packages, order[i]).contains(d) && included.contains(d)
            ==> order.take(i).contains(d)
}

/// `r` is where in `order` the last of the included dependencies of the
/// package at position `i` stands: `-1` when it has none.
pub open spec fn waits_for(packages: Seq<PackageInfo>, included: Set<Seq<char>>, order: Seq<Seq<char>>, i: int, r: int) -> bool {
    let ds = deps_of(packages, order[i]);
    ||| r == -1 && forall|d: Seq<char>| #[trigger] ds.contains(d) ==> !included.contains(d)
    ||| 0 <= r < order.len() && included.contains(order[r]) && ds.contains(order[r]) && forall|d: Seq<char>|
        #[trigger] ds.contains(d) && included.contains(d) ==> order.take(r + 1).contains(d)
}

/// Packages taken as they become ready, the ready ones by name: ordered by
/// where the last of their included dependencies stands (those with none
/// first), then by name.
pub open spec fn ready_by_name(packages: Seq<PackageInfo>, included: Set<Seq<char>>, order: Seq<Seq<char>>) -> bool {
    exists|rk: Seq<int>|
        rk.len() == order.len() && (forall|i: int| 0 <= i < order.len() ==> waits_for(packages, included, order, i, #[trigger] rk[i]))
            && forall|i: int, j: int|
            0 <= i < j < order.len() ==> #[trigger] rk[i] < #[trigger] rk[j] || (rk[i] == rk[j] && lex_lt(order[i], order[j]))
}

proof fn lemma_ready_by_name(
    packages: Seq<PackageInfo>,
    names: Seq<Seq<char>>,
    edges: Seq<Vec<usize>>,
    order: Seq<usize>,
    ranks: Seq<int>,
    o: Seq<Seq<char>>,
)
    requires
        edges.len() == names.len(),
        strictly_sorted(names),
        order.len() == names.len(),
        forall|i: int| 0 <= i < order.len() ==> #[trigger] order[i] < names.len(),
        o.len() == order.len(),
        forall|i: int| 0 <= i < order.len() ==> #[trigger] o[i] == names[order[i] as int],
        forall|m: usize| m < names.len() ==> order.contains(m),
        ranks.len() == order.len(),
        forall|i: int| 0 <= i < order.len() ==> last_dep_at(order, edges[#[trigger] order[i] as int]@, ranks[i]),
        ranked(order, ranks),
        forall|a: int, k: int| 0 <= a < names.len() && 0 <= k < edges[a]@.len() ==> #[trigger] edges[a]@[k] < names.len()
            && deps_of(packages, names[a]).contains(names[edges[a]@[k] as int]),
        forall|a: int, d: Seq<char>| 0 <= a < names.len() && #[trigger] deps_of(packages, names[a]).contains(d) && names.contains(d)
            ==> exists|k: int| 0 <= k < edges[a]@.len() && names[#[trigger] edges[a]@[k] as int] == d,
    ensures
        ready_by_name(packages, names.to_set(), o),
{
    let included = names.to_set();
    assert forall|i: int| 0 <= i < o.len() implies waits_for(packages, included, o, i, #[trigger] ranks[i]) by {
        let node = order[i] as int;
        let en = edges[node]@;
        let ds = deps_of(packages, o[i]);
        assert(ds == deps_of(packages, names[node]));
        assert(last_dep_at(order, en, ranks[i]));
        if en.len() == 0 {
            assert forall|d: Seq<char>| #[trigger] ds.contains(d) implies !included.contains(d) by {
                if included.contains(d) {
                    assert(names.contains(d));
                    let k = choose|k: int| 0 <= k < en.len() && names[#[trigger] en[k] as int] == d;
                }
            }
        } else {
            let r = ranks[i];
            let t = choose|k: int| 0 <= k < en.len() && en[k] == order[r];
            assert(deps_of(packages, names[node]).contains(names[en[t] as int]));
            assert(o[r] == names[order[r] as int]);
            assert(included.contains(o[r]));
            assert forall|d: Seq<char>| #[trigger] ds.contains(d) && included.contains(d) implies o.take(r + 1).contains(d) by {
                assert(names.contains(d));
                let k = choose|k: int| 0 <= k < en.len() && names[#[trigger] en[k] as int] == d;
                assert(order.take(r + 1).contains(en[k]));
                let b = choose|b: int| 0 <= b < r + 1 && #[trigger] order.take(r + 1)[b] == en[k];
                assert(o.take(r + 1)[b] == o[b]);
                assert(o[b] == d);
            }
        }
    }
    assert forall|i: int, j: int| 0 <= i < j < o.len() implies #[trigger] ranks[i] < #[trigger] ranks[j] || (ranks[i] == ranks[j]
        && lex_lt(o[i], o[j])) by {
        if ranks[i] == ranks[j] {
            assert(order[i] < order[j]);
            assert(lex_lt(names[order[i] as int], names[order[j] as int]));
        }
    }
    assert(ready_by_name(packages, included, o));
}

fn find_package(packages: &[PackageInfo], id: &str) -> (r: Option<usize>)
    ensures
        match package_index(packages@, id@, 0) {
            Some(i) => r == Some(i as usize),
            None => r is None,
        },
{
    let k = chars_of(id);
    let mut i: usize = 0;
    while i < packages.len()
        invariant
            i <= packages.len(),
            k@ == id@,
            package_index(packages@, id@, 0) == package_index(packages@, id@, i as int),
        decreases packages.len() - i,
    {
        if chars_eq(&chars_of(packages[i].identifier.as_str()), &k) {
            return Some(i);
        }
        i += 1;
    }
    None
}

fn position_of(ids: &Vec<String>, x: &str) -> (r: Option<usize>)
    ensures
        r matches Some(j) ==> j < ids.len() && ids@[j as int]@ == x@,
        r is None ==> !strs(ids@).contains(x@),
{
    let k = chars_of(x);
    let mut j: usize = 0;
    while j < ids.len()
        invariant
            j <= ids.len(),
            k@ == x@,
            forall|q: int| 0 <= q < j ==> strs(ids@)[q] != x@,
        decreases ids.len() - j,
    {
        if chars_eq(&chars_of(ids[j].as_str()), &k) {
            return Some(j);
        }
        j += 1;
    }
    None
}

proof fn lemma_first_member(names: Seq<Seq<char>>, s: Set<Seq<char>>, i: int)
    requires
        0 <= i <= names.len(),
        forall|b: int| 0 <= b < i ==> !s.contains(#[trigger] names[b]),
        exists|j: int| i <= j < names.len() && s.contains(#[trigger] names[j]),
    ensures
        exists|a: int|
            0 <= a < names.len() && s.contains(#[trigger] names[a]) && forall|b: int|
                0 <= b < a ==> !s.contains(#[trigger] names[b]),
    decreases names.len() - i,
{
    if s.contains(names[i]) {
        assert(forall|b: int| 0 <= b < i ==> !s.contains(#[trigger] names[b]));
    } else {
        assert(exists|j: int| i + 1 <= j < names.len() && s.contains(#[trigger] names[j])) by {
            let j = choose|j: int| i <= j < names.len() && s.contains(#[trigger] names[j]);
            assert(j != i);
        }
        lemma_first_member(names, s, i + 1);
    }
}

proof fn lemma_package_index_range(packages: Seq<PackageInfo>, id: Seq<char>, i: int)
    requires
        0 <= i,
    ensures
        package_index(packages, id, i) matches Some(k) ==> i <= k < packages.len()
            && packages[k].identifier@ == id,
    decreases packages.len() - i,
{
    if i < packages.len() && packages[i].identifier@ != id {
        lemma_package_index_range(packages, id, i + 1);
    }
}

/// The selected identifiers, sorted and without duplicates.
fn sorted_ids(selected: &[String]) -> (ids: Vec<String>)
    ensures
        strictly_sorted(strs(ids@)),
        strs(ids@).no_duplicates(),
        strs(ids@).to_set() == strs(selected@).to_set(),
{
    let mut ids: Vec<String> = Vec::new();
    assert(strs(ids@).to_set() =~= Set::empty());
    assert(strs(selected@.take(0)).to_set() =~= Set::empty());
    let mut i: usize = 0;
    while i < selected.len()
        invariant
            i <= selected.len(),
            strictly_sorted(strs(ids@)),
            strs(ids@).to_set() == strs(selected@.take(i as int)).to_set(),
        decreases selected.len() - i,
    {
        insert_sorted(&mut ids, owned(selected[i].as_str()));
        assert(strs(selected@.take(i + 1)) =~= strs(selected@.take(i as int)).push(selected@[i as int]@));
        proof {
            strs(selected@.take(i as int)).lemma_push_to_set_commute(selected@[i as int]@);
        }
        i += 1;
    }
    assert(selected@.take(selected.len() as int) =~= selected@);
    let ghost names = strs(ids@);
    assert(names.no_duplicates()) by {
        assert forall|a: int, b: int| 0 <= a < names.len() && 0 <= b < names.len() && a != b implies names[a] != names[b] by {
            if a < b {
                assert(lex_lt(names[a], names[b]));
                lemma_lex_irreflexive(names[a]);
            } else {
                assert(lex_lt(names[b], names[a]));
                lemma_lex_irreflexive(names[b]);
            }
        }
    }
    ids
}

/// The package of each identifier, or the position of the first one no package has.
fn package_positions(packages: &[PackageInfo], ids: &Vec<String>) -> (r: Result<Vec<usize>, usize>)
    ensures
        match r {
            Ok(pkg) => pkg.len() == ids.len() && forall|j: int| 0 <= j < ids.len() ==> package_index(
                packages@,
                strs(ids@)[j],
                0,
            ) == Some(#[trigger] pkg@[j] as int) && pkg@[j] < packages.len(),
            Err(m) => m < ids.len() && !known(packages@, strs(ids@)[m as int]) && forall|j: int|
                0 <= j < m ==> known(packages@, #[trigger] strs(ids@)[j]),
        },
{
    let ghost names = strs(ids@);
    let mut pkg: Vec<usize> = Vec::new();
    let mut m: usize = 0;
    while m < ids.len()
        invariant
            m <= ids.len(),
            names == strs(ids@),
            pkg.len() == m,
            forall|j: int| 0 <= j < m ==> package_index(packages@, names[j], 0) == Some(#[trigger] pkg@[j] as int) && pkg@[j] < packages.len(),
            forall|j: int| 0 <= j < m ==> known(packages@, #[trigger] names[j]),
        decreases ids.len() - m,
    {
        assert(names[m as int] == ids@[m as int]@);
        match find_package(packages, ids[m].as_str()) {
            Some(p) => {
                proof {
                    lemma_package_index_range(packages@, names[m as int], 0);
                }
                let ghost before = pkg@;
                pkg.push(p);
                assert(pkg@ =~= before.push(p));
                assert forall|j: int| 0 <= j < m + 1 implies package_index(packages@, names[j], 0) == Some(#[trigger] pkg@[j] as int) && pkg@[j] < packages.len() by {
                    if j < m {
                        assert(pkg@[j] == before[j]);
                    } else {
                        let i = package_index(packages@, names[m as int], 0)->0;
                        assert(0 <= i < packages.len());
                        assert(p == i as usize);
                        assert(package_index(packages@, names[m as int], 0) == Some(p as int));
                        assert(pkg@[j] == p);
                    }
                }
            },
            None => {
                return Err(m);
            },
        }
        m += 1;
    }
    Ok(pkg)
}

/// For each identifier, the positions in `ids` of its selected dependencies.
fn dependency_edges(packages: &[PackageInfo], ids: &Vec<String>, pkg: &Vec<usize>) -> (edges: Vec<Vec<usize>>)
    requires
        pkg.len() == ids.len(),
        forall|j: int| 0 <= j < ids.len() ==> package_index(packages@, strs(ids@)[j], 0) == Some(#[trigger] pkg@[j] as int) && pkg@[j] < packages.len(),
    ensures
        edges.len() == ids.len(),
        forall|a: int, k: int| 0 <= a < ids.len() && 0 <= k < edges@[a]@.len() ==> #[trigger] edges@[a]@[k] < ids.len()
            && deps_of(packages@, strs(ids@)[a]).contains(strs(ids@)[edges@[a]@[k] as int]),
        forall|a: int, d: Seq<char>| 0 <= a < ids.len() && #[trigger] deps_of(packages@, strs(ids@)[a]).contains(d) && strs(ids@).contains(d)
            ==> exists|k: int| 0 <= k < edges@[a]@.len() && strs(ids@)[#[trigger] edges@[a]@[k] as int] == d,
{
    let ghost names = strs(ids@);
    let n = ids.len();
    let mut edges: Vec<Vec<usize>> = Vec::new();
    let mut m: usize = 0;
    while m < n
        invariant
            m <= n == ids.len(),
            names == strs(ids@),
            pkg.len() == n,
            forall|j: int| 0 <= j < n ==> package_index(packages@, names[j], 0) == Some(#[trigger] pkg@[j] as int) && pkg@[j] < packages.len(),
            edges.len() == m,
            forall|a: int, k: int| 0 <= a < m && 0 <= k < edges@[a]@.len() ==> #[trigger] edges@[a]@[k] < n
                && deps_of(packages@, names[a]).contains(names[edges@[a]@[k] as int]),
            forall|a: int, d: Seq<char>| 0 <= a < m && #[trigger] deps_of(packages@, names[a]).contains(d) && names.contains(d)
                ==> exists|k: int| 0 <= k < edges@[a]@.len() && names[#[trigger] edges@[a]@[k] as int] == d,
        decreases n - m,
    {
        let p = pkg[m];
        let deps = &packages[p].internal_deps;
        let ghost dv = strs(deps@);
        assert(deps_of(packages@, names[m as int]) == dv);
        let mut row: Vec<usize> = Vec::new();
        let mut k: usize = 0;
        while k < deps.len()
            invariant
                k <= deps.len(),
                n == ids.len(),
                names == strs(ids@),
                dv == strs(deps@),
                forall|t: int| 0 <= t < row@.len() ==> #[trigger] row@[t] < n && dv.contains(names[row@[t] as int]),
                forall|t: int| 0 <= t < k && names.contains(#[trigger] dv[t]) ==> exists|u: int| 0 <= u < row@.len() && names[#[trigger] row@[u] as int] == dv[t],
            decreases deps.len() - k,
        {
            assert(dv[k as int] == deps@[k as int]@);
            let ghost before = row@;
            match position_of(ids, deps[k].as_str()) {
                Some(j) => {
                    row.push(j);
                    assert(row@ =~= before.push(j));
                    assert(names[j as int] == dv[k as int]);
                    assert(names[row@[row@.len() - 1] as int] == dv[k as int]);
                    assert(dv.contains(names[j as int]));
                },
                None => {
                    assert(!names.contains(dv[k as int]));
                },
            }
            assert forall|t: int| 0 <= t < k + 1 && names.contains(#[trigger] dv[t]) implies exists|u: int| 0 <= u < row@.len() && names[#[trigger] row@[u] as int] == dv[t] by {
                if t < k {
                    let u = choose|u: int| 0 <= u < before.len() && names[#[trigger] before[u] as int] == dv[t];
                    assert(row@[u] == before[u]);
                } else {
                    assert(names[row@[row@.len() - 1] as int] == dv[k as int]);
                }
            }
            k += 1;
        }
        let ghost before = edges@;
        let ghost rv = row@;
        edges.push(row);
        assert(edges@.len() == m + 1);
        assert(edges@[m as int]@ == rv);
        assert(forall|a: int| 0 <= a < m ==> edges@[a] == before[a]);
        assert forall|a: int, d: Seq<char>| 0 <= a < m + 1 && #[trigger] deps_of(packages@, names[a]).contains(d) && names.contains(d)
            implies exists|k: int| 0 <= k < edges@[a]@.len() && names[#[trigger] edges@[a]@[k] as int] == d by {
            if a == m {
                let t = choose|t: int| 0 <= t < dv.len() && dv[t] == d;
                let u = choose|u: int| 0 <= u < rv.len() && names[#[trigger] rv[u] as int] == dv[t];
                assert(edges@[a]@[u] == rv[u]);
            } else {
                let k = choose|k: int| 0 <= k < before[a]@.len() && names[#[trigger] before[a]@[k] as int] == d;
                assert(edges@[a]@[k] == before[a]@[k]);
            }
        }
        m += 1;
    }
    edges
}

/// The identifiers at the given positions.
fn names_at(ids: &Vec<String>, order: &Vec<usize>) -> (out: Vec<String>)
    requires
        forall|i: int| 0 <= i < order.len() ==> #[trigger] order@[i] < ids.len(),
    ensures
        strs(out@).len() == order.len(),
        forall|i: int| 0 <= i < order.len() ==> #[trigger] strs(out@)[i] == strs(ids@)[order@[i] as int],
{
    let mut out: Vec<String> = Vec::new();
    let mut a: usize = 0;
    while a < order.len()
        invariant
            a <= order.len(),
            forall|i: int| 0 <= i < order.len() ==> #[trigger] order@[i] < ids.len(),
            out.len() == a,
            forall|i: int| 0 <= i < a ==> #[trigger] strs(out@)[i] == strs(ids@)[order@[i] as int],
        decreases order.len() - a,
    {
        let ghost before = out@;
        let name = owned(ids[order[a]].as_str());
        assert(name@ == strs(ids@)[order@[a as int] as int]);
        out.push(name);
        assert(out@ =~= before.push(name));
        assert forall|i: int| 0 <= i < a + 1 implies #[trigger] strs(out@)[i] == strs(ids@)[order@[i] as int] by {
            if i < a {
                assert(out@[i] == before[i]);
                assert(strs(before)[i] == before[i]@);
            } else {
                assert(out@[i] == name);
            }
        }
        a += 1;
    }
    out
}

#[verifier::spinoff_prover]
#[verifier::rlimit(60)]
proof fn lemma_cycle_when_stuck(
    packages: Seq<PackageInfo>,
    names: Seq<Seq<char>>,
    edges: Seq<Vec<usize>>,
    order: Seq<usize>,
)
    requires
        edges.len() == names.len(),
        order.no_duplicates(),
        forall|i: int| 0 <= i < order.len() ==> #[trigger] order[i] < names.len(),
        order.len() < names.len(),
        names.len() <= usize::MAX,
        forall|a: int, k: int| 0 <= a < names.len() && 0 <= k < edges[a]@.len() ==> #[trigger] edges[a]@[k] < names.len()
            && deps_of(packages, names[a]).contains(names[edges[a]@[k] as int]),
        forall|m: usize| m < names.len() && !order.contains(m) ==> exists|k: int|
            0 <= k < edges[m as int]@.len() && !order.contains(#[trigger] edges[m as int]@[k]),
    ensures
        has_cycle(packages, names.to_set()),
{
    let n = names.len();
    lemma_index_sets(order, n as int);
    let s = Set::new(|p: Seq<char>| exists|j: usize| j < n && !order.contains(j) && #[trigger] names[j as int] == p);
    let missing = choose|m: usize| m < n && !order.contains(m);
    assert(s.contains(names[missing as int]));
    assert(s.subset_of(names.to_set())) by {
        assert forall|p: Seq<char>| s.contains(p) implies names.to_set().contains(p) by {
            let j = choose|j: usize| j < n && !order.contains(j) && names[j as int] == p;
            assert(names.contains(p));
        }
    }
    assert forall|p: Seq<char>| s.contains(p) implies exists|d: Seq<char>| deps_of(packages, p).contains(d) && #[trigger] s.contains(d) by {
        let j = choose|j: usize| j < n && !order.contains(j) && names[j as int] == p;
        let k = choose|k: int| 0 <= k < edges[j as int]@.len() && !order.contains(#[trigger] edges[j as int]@[k]);
        let t = edges[j as int]@[k];
        assert(s.contains(names[t as int]));
        assert(deps_of(packages, p).contains(names[t as int]));
    }
    assert(stuck_set(packages, names.to_set(), s));
}

/// A publishing order leaves no room for a cycle: the first member of a
/// stuck set in the order would have a dependency in the set placed before it.
#[verifier::spinoff_prover]
#[verifier::rlimit(80)]
proof fn lemma_order_excludes_cycle(packages: Seq<PackageInfo>, included: Set<Seq<char>>, o: Seq<Seq<char>>)
    requires
        publish_order(packages, included, o),
    ensures
        !has_cycle(packages, included),
{
    if has_cycle(packages, included) {
        let s = choose|s: Set<Seq<char>>| stuck_set(packages, included, s);
        let p0 = choose|p: Seq<char>| s.contains(p);
        assert(o.to_set().contains(p0));
        let j0 = choose|j: int| 0 <= j < o.len() && o[j] == p0;
        assert(s.contains(o[j0]));
        lemma_first_member(o, s, 0);
        let a0 = choose|a: int| 0 <= a < o.len() && s.contains(#[trigger] o[a]) && forall|b: int| 0 <= b < a ==> !s.contains(#[trigger] o[b]);
        let d = choose|d: Seq<char>| deps_of(packages, o[a0]).contains(d) && #[trigger] s.contains(d);
        assert(o.take(a0).contains(d));
        let b = choose|b: int| 0 <= b < a0 && o.take(a0)[b] == d;
        assert(o[b] == d);
    }
}

/// The names taken in a permutation of their positions list each name once.
proof fn lemma_permuted_names(names: Seq<Seq<char>>, order: Seq<usize>, o: Seq<Seq<char>>)
    requires
        names.no_duplicates(),
        names.len() <= usize::MAX,
        order.no_duplicates(),
        order.len() == names.len(),
        forall|i: int| 0 <= i < order.len() ==> #[trigger] order[i] < names.len(),
        o.len() == order.len(),
        forall|i: int| 0 <= i < order.len() ==> #[trigger] o[i] == names[order[i] as int],
    ensures
        o.no_duplicates(),
        o.to_set() == names.to_set(),
{
    let n = names.len();
    let included = names.to_set();
    lemma_index_sets(order, n as int);
    assert forall|x: int, y: int| 0 <= x < o.len() && 0 <= y < o.len() && x != y implies o[x] != o[y] by {
        assert(order[x] != order[y]);
    }
    assert(o.to_set() =~= included) by {
        assert forall|p: Seq<char>| o.to_set().contains(p) == included.contains(p) by {
            if o.to_set().contains(p) {
                let x = choose|x: int| 0 <= x < o.len() && o[x] == p;
                assert(names.contains(p));
            }
            if included.contains(p) {
                let j = choose|j: int| 0 <= j < names.len() && names[j] == p;
                assert(order.contains(j as usize));
                let x = choose|x: int| 0 <= x < order.len() && order[x] == j as usize;
                assert(o[x] == p);
            }
        }
    }
}

/// Names taken in an order of positions that puts each after its edges put
/// each name after its included dependencies.
proof fn lemma_order_is_topological(
    packages: Seq<PackageInfo>,
    names: Seq<Seq<char>>,
    edges: Seq<Vec<usize>>,
    order: Seq<usize>,
    o: Seq<Seq<char>>,
)
    requires
        edges.len() == names.len(),
        names.no_duplicates(),
        names.len() <= usize::MAX,
        order.no_duplicates(),
        order.len() == names.len(),
        forall|i: int| 0 <= i < order.len() ==> #[trigger] order[i] < names.len(),
        o.len() == order.len(),
        forall|i: int| 0 <= i < order.len() ==> #[trigger] o[i] == names[order[i] as int],
        forall|a: int, k: int| 0 <= a < order.len() && 0 <= k < edges[order[a] as int]@.len() ==> order.take(a).contains(
            #[trigger] edges[order[a] as int]@[k]),
        forall|a: int, d: Seq<char>| 0 <= a < names.len() && #[trigger] deps_of(packages, names[a]).contains(d) && names.contains(d)
            ==> exists|k: int| 0 <= k < edges[a]@.len() && names[#[trigger] edges[a]@[k] as int] == d,
    ensures
        publish_order(packages, names.to_set(), o),
        !has_cycle(packages, names.to_set()),
{
    let included = names.to_set();
    lemma_permuted_names(names, order, o);
    assert forall|x: int, d: Seq<char>|
        0 <= x < o.len() && #[trigger] deps_of(packages, o[x]).contains(d) && included.contains(d)
            implies o.take(x).contains(d) by {
        let node = order[x];
        assert(names.contains(d));
        assert(deps_of(packages, names[node as int]).contains(d));
        let k = choose|k: int| 0 <= k < edges[node as int]@.len() && names[#[trigger] edges[node as int]@[k] as int] == d;
        assert(order.take(x).contains(edges[node as int]@[k]));
        let b = choose|b: int| 0 <= b < x && order.take(x)[b] == edges[node as int]@[k];
        assert(o.take(x)[b] == d);
    }
    lemma_order_excludes_cycle(packages, included, o);
}

/// Order the selected packages for publishing: each after the selected
/// packages it depends on; ready packages go in name order, then in the order
/// they become ready.
pub fn topo_order(packages: &[PackageInfo], selected: &[String]) -> (r: Result<Vec<String>, SampoError>)
    ensures
        ({
            let included = strs(selected@).to_set();
            if exists|p: Seq<char>| included.contains(p) && !known(packages@, p) {
                r matches Err(SampoError::Publish(m)) && exists|p: Seq<char>|
                    included.contains(p) && !known(packages@, p) && m@ == "missing package info for '"@
                        + p + "'"@ && forall|q: Seq<char>|
                        included.contains(q) && !known(packages@, q) ==> !lex_lt(q, p)
            } else if has_cycle(packages@, included) {
                r matches Err(SampoError::Publish(m)) && m@
                    == "dependency cycle detected among publishable crates"@
            } else {
                r matches Ok(order) && publish_order(packages@, included, strs(order@)) && ready_by_name(
                    packages@,
                    included,
                    strs(order@),
                )
            }
        }),
{
    let ghost included = strs(selected@).to_set();
    let ids = sorted_ids(selected);
    let ghost names = strs(ids@);
    let n = ids.len();
    let pkg = match package_positions(packages, &ids) {
        Ok(pkg) => pkg,
        Err(m) => {
            proof {
                assert(included.contains(names[m as int]));
                assert forall|q: Seq<char>| included.contains(q) && !known(packages@, q) implies !lex_lt(q, names[m as int]) by {
                    assert(names.to_set().contains(q));
                    let j = choose|j: int| 0 <= j < names.len() && names[j] == q;
                    if j < m {
                        assert(known(packages@, names[j]));
                    } else if j > m {
                        assert(lex_lt(names[m as int], names[j]));
                        if lex_lt(q, names[m as int]) {
                            lemma_lex_transitive(q, names[m as int], q);
                            lemma_lex_irreflexive(q);
                        }
                    } else {
                        lemma_lex_irreflexive(q);
                    }
                }
            }
            assert(names[m as int] == ids@[m as int]@);
            return Err(SampoError::Publish(join3("missing package info for '", ids[m].as_str(), "'")));
        },
    };
    assert(forall|p: Seq<char>| included.contains(p) ==> known(packages@, p)) by {
        assert forall|p: Seq<char>| included.contains(p) implies known(packages@, p) by {
            assert(names.to_set().contains(p));
            let j = choose|j: int| 0 <= j < names.len() && names[j] == p;
            assert(package_index(packages@, names[j], 0) == Some(pkg@[j] as int));
        }
    }
    let edges = dependency_edges(packages, &ids, &pkg);
    let (order, Ghost(ranks)) = ready_order(&edges);
    if order.len() < n {
        proof {
            lemma_cycle_when_stuck(packages@, names, edges@, order@);
        }
        return Err(SampoError::Publish(owned("dependency cycle detected among publishable crates")));
    }
    proof {
        lemma_index_sets(order@, n as int);
    }
    let out = names_at(&ids, &order);
    proof {
        assert forall|a: int, k: int| 0 <= a < order.len() && 0 <= k < edges@[order@[a] as int]@.len() implies order@.take(a).contains(
            #[trigger] edges@[order@[a] as int]@[k]) by {}
        lemma_order_is_topological(packages@, names, edges@, order@, strs(out@));
        lemma_ready_by_name(packages@, names, edges@, order@, ranks, strs(out@));
    }
    Ok(out)
}

} // verus!
