//! The walk over a Maven reactor's POMs, from the root POM through
//! `<modules>`: which POM is read next, what a module entry adds, when an
//! unreadable POM ends the walk, and the order of the POMs found. Reading
//! the files is the caller's part.
use crate::paths::{clean, clean_path, join_path, joined};
use crate::pom::{module_manifest, module_pom, ParsedPom};
use crate::sorted::{lemma_lex_irreflexive, lemma_lex_total, lemma_lex_transitive, lex_lt, str_lt, strs};
use crate::text::{chars_eq, chars_of, owned, string_of, trim, trim_chars};
use vstd::prelude::*;

verus! {

/// A walk over a reactor: the POM paths still to take (the next one last),
/// the paths taken, and the POMs read, each with its directory and path.
pub struct ReactorWalk {
    pub queue: Vec<String>,
    pub visited: Vec<String>,
    pub found: Vec<(String, String, ParsedPom)>,
}

/// Taking the next POM: paths come off the end of the queue, cleaned; one
/// already taken is dropped, and the first one not taken yet is the next
/// to read and counts as taken. The result, the queue and the paths taken.
pub open spec fn next_step(q: Seq<Seq<char>>, v: Seq<Seq<char>>) -> (
    Option<Seq<char>>,
    Seq<Seq<char>>,
    Seq<Seq<char>>,
)
    decreases q.len(),
{
    if q.len() == 0 {
        (None, q, v)
    } else if v.contains(clean(q.last())) {
        next_step(q.drop_last(), v)
    } else {
        (Some(clean(q.last())), q.drop_last(), v.push(clean(q.last())))
    }
}

/// The path a `<module>` entry `m` names, from the directory `dir`.
pub open spec fn module_target(dir: Seq<char>, m: Seq<char>) -> Seq<char> {
    if m.len() > 0 && m[0] == '/' {
        m
    } else {
        joined(dir, m)
    }
}

/// The targets of the non-blank `<module>` entries, trimmed, in order.
pub open spec fn targets_of(dir: Seq<char>, modules: Seq<Seq<char>>) -> Seq<Seq<char>>
    decreases modules.len(),
{
    if modules.len() == 0 {
        seq![]
    } else {
        let rest = targets_of(dir, modules.drop_last());
        let m = trim(modules.last());
        if m.len() > 0 {
            rest.push(module_target(dir, m))
        } else {
            rest
        }
    }
}

/// The POMs the first `n` targets name (`files`: whether each target is a
/// file), in order.
pub open spec fn module_poms(targets: Seq<Seq<char>>, files: Seq<bool>, n: int) -> Seq<Seq<char>>
    decreases n,
{
    if n <= 0 {
        seq![]
    } else {
        match module_pom(targets[n - 1], files[n - 1]) {
            Ok(p) => module_poms(targets, files, n - 1).push(p),
            Err(_) => module_poms(targets, files, n - 1),
        }
    }
}

/// The warnings for the first `n` targets that name no POM to walk.
pub open spec fn module_warnings(targets: Seq<Seq<char>>, files: Seq<bool>, n: int) -> Seq<Seq<char>>
    decreases n,
{
    if n <= 0 {
        seq![]
    } else {
        match module_pom(targets[n - 1], files[n - 1]) {
            Ok(_) => module_warnings(targets, files, n - 1),
            Err(w) => module_warnings(targets, files, n - 1).push(w),
        }
    }
}

pub open spec fn opt_view(o: Option<String>) -> Option<Seq<char>> {
    match o {
        Some(s) => Some(s@),
        None => None,
    }
}

/// The targets of the `<module>` entries of `parsed`, read in `dir`.
pub fn module_targets(dir: &str, parsed: &ParsedPom) -> (r: Vec<String>)
    ensures
        strs(r@) == targets_of(dir@, strs(parsed.modules@)),
{
    let ghost mods = strs(parsed.modules@);
    let mut r: Vec<String> = Vec::new();
    let mut i: usize = 0;
    assert(mods.take(0) =~= Seq::<Seq<char>>::empty());
    while i < parsed.modules.len()
        invariant
            i <= parsed.modules.len(),
            mods == strs(parsed.modules@),
            strs(r@) == targets_of(dir@, mods.take(i as int)),
        decreases parsed.modules.len() - i,
    {
        assert(mods.take(i + 1).drop_last() =~= mods.take(i as int));
        assert(mods.take(i + 1).last() == parsed.modules@[i as int]@);
        let m = trim_chars(&chars_of(parsed.modules[i].as_str()));
        if m.len() > 0 {
            let ms = string_of(&m);
            let t = if m[0] == '/' {
                ms
            } else {
                join_path(dir, ms.as_str())
            };
            let ghost before = strs(r@);
            r.push(t);
            assert(strs(r@) =~= before.push(t@));
        }
        i += 1;
    }
    assert(mods.take(parsed.modules.len() as int) =~= mods);
    r
}

fn contains_path(v: &Vec<String>, p: &str) -> (r: bool)
    ensures
        r == strs(v@).contains(p@),
{
    let k = chars_of(p);
    let mut i: usize = 0;
    while i < v.len()
        invariant
            i <= v.len(),
            k@ == p@,
            forall|j: int| 0 <= j < i ==> v@[j]@ != p@,
        decreases v.len() - i,
    {
        if chars_eq(&chars_of(v[i].as_str()), &k) {
            assert(strs(v@)[i as int] == p@);
            return true;
        }
        i += 1;
    }
    assert forall|j: int| 0 <= j < strs(v@).len() implies strs(v@)[j] != p@ by {
        assert(strs(v@)[j] == v@[j]@);
    }
    false
}

impl ReactorWalk {
    /// A walk that starts at the `pom.xml` of `root`.
    pub fn new(root: &str) -> (w: ReactorWalk)
        ensures
            strs(w.queue@) == seq![joined(root@, "pom.xml"@)],
            w.visited@.len() == 0,
            w.found@.len() == 0,
    {
        let first = join_path(root, "pom.xml");
        let mut queue: Vec<String> = Vec::new();
        queue.push(first);
        assert(strs(queue@) =~= seq![joined(root@, "pom.xml"@)]);
        ReactorWalk { queue, visited: Vec::new(), found: Vec::new() }
    }

    /// The next POM to read (see `next_step`); `None` when the walk is over.
    pub fn next_pom(&mut self) -> (r: Option<String>)
        ensures
            (opt_view(r), strs(final(self).queue@), strs(final(self).visited@)) == next_step(
                strs(old(self).queue@),
                strs(old(self).visited@),
            ),
            final(self).found@ == old(self).found@,
    {
        loop
            invariant
                next_step(strs(self.queue@), strs(self.visited@)) == next_step(
                    strs(old(self).queue@),
                    strs(old(self).visited@),
                ),
                self.found@ == old(self).found@,
            decreases self.queue.len(),
        {
            let ghost q = strs(self.queue@);
            match self.queue.pop() {
                None => {
                    return None;
                },
                Some(p) => {
                    assert(strs(self.queue@) =~= q.drop_last());
                    let c = clean_path(p.as_str());
                    if !contains_path(&self.visited, c.as_str()) {
                        let ghost v = strs(self.visited@);
                        self.visited.push(owned(c.as_str()));
                        assert(strs(self.visited@) =~= v.push(c@));
                        return Some(c);
                    }
                },
            }
        }
    }

    /// Whether a POM that cannot be read ends the walk with its error: when
    /// nothing was read and nothing is left to take, it was the root POM.
    pub fn unreadable_ends_walk(&self) -> (r: bool)
        ensures
            r == (self.found.len() == 0 && self.queue.len() == 0),
    {
        self.found.len() == 0 && self.queue.len() == 0
    }

    /// Record the POM read at `path`, in `dir`: the POMs its module targets
    /// name (`files`: whether each target is a file) are queued in order,
    /// and the warnings for the others are returned.
    pub fn add_pom(&mut self, dir: String, path: String, parsed: ParsedPom, targets: &[String], files: &[bool]) -> (r:
        Vec<String>)
        requires
            files.len() == targets.len(),
        ensures
            strs(final(self).queue@) == strs(old(self).queue@) + module_poms(
                strs(targets@),
                files@,
                targets.len() as int,
            ),
            strs(r@) == module_warnings(strs(targets@), files@, targets.len() as int),
            final(self).visited@ == old(self).visited@,
            final(self).found@ == old(self).found@.push((dir, path, parsed)),
    {
        let ghost ts = strs(targets@);
        let ghost q0 = strs(self.queue@);
        let mut warnings: Vec<String> = Vec::new();
        let mut k: usize = 0;
        while k < targets.len()
            invariant
                k <= targets.len(),
                files.len() == targets.len(),
                ts == strs(targets@),
                strs(self.queue@) == q0 + module_poms(ts, files@, k as int),
                strs(warnings@) == module_warnings(ts, files@, k as int),
                self.visited@ == old(self).visited@,
                self.found@ == old(self).found@,
            decreases targets.len() - k,
        {
            assert(ts[k as int] == targets@[k as int]@);
            match module_manifest(targets[k].as_str(), files[k]) {
                Ok(p) => {
                    let ghost before = strs(self.queue@);
                    self.queue.push(p);
                    assert(strs(self.queue@) =~= before.push(p@));
                    assert(q0 + module_poms(ts, files@, k + 1) =~= (q0 + module_poms(ts, files@, k as int)).push(p@));
                },
                Err(w) => {
                    let ghost before = strs(warnings@);
                    warnings.push(w);
                    assert(strs(warnings@) =~= before.push(w@));
                },
            }
            k += 1;
        }
        self.found.push((dir, path, parsed));
        warnings
    }
}

/// Whether `ix` lists each of `0 .. n` once.
pub open spec fn is_permutation(ix: Seq<int>, n: int) -> bool {
    &&& ix.len() == n
    &&& forall|k: int| 0 <= k < n ==> 0 <= #[trigger] ix[k] < n
    &&& forall|a: int, b: int| 0 <= a < b < n ==> ix[a] != ix[b]
}

/// The POMs found, ordered by path: the same entries, none of them before
/// one whose path is smaller.
pub fn sorted_by_path(found: Vec<(String, String, ParsedPom)>) -> (r: Vec<(String, String, ParsedPom)>)
    ensures
        exists|ix: Seq<int>|
            is_permutation(ix, found.len() as int) && forall|k: int|
                0 <= k < r.len() ==> #[trigger] r@[k] == found@[ix[k]],
        forall|a: int, b: int| 0 <= a < b < r.len() ==> !lex_lt(r@[b].1@, r@[a].1@),
{
    let n = found.len();
    let ghost src = found@;
    let mut rest = found;
    let mut out: Vec<(String, String, ParsedPom)> = Vec::new();
    let ghost mut ix: Seq<int> = seq![];
    let mut i: usize = 0;
    while rest.len() > 0
        invariant
            n == src.len(),
            rest@ == src.take(n - i),
            i <= n,
            rest.len() == n - i,
            ix.len() == out.len(),
            out.len() == i,
            forall|k: int| 0 <= k < i ==> n - i <= #[trigger] ix[k] < n,
            forall|a: int, b: int| 0 <= a < b < i ==> ix[a] != ix[b],
            forall|k: int| 0 <= k < i ==> #[trigger] out@[k] == src[ix[k]],
            forall|a: int, b: int| 0 <= a < b < i ==> !lex_lt(out@[b].1@, out@[a].1@),
        decreases rest.len(),
    {
        let e = rest.pop().unwrap();
        let ghost j = n - i - 1;
        assert(e == src[j]);
        assert(rest@ =~= src.take(n - (i + 1)));
        let mut p: usize = 0;
        while p < out.len() && !str_lt(e.1.as_str(), out[p].1.as_str())
            invariant
                p <= out.len(),
                forall|k: int| 0 <= k < p ==> !lex_lt(e.1@, #[trigger] out@[k].1@),
            decreases out.len() - p,
        {
            p += 1;
        }
        proof {
            assert forall|k: int| p <= k < out.len() implies !lex_lt(out@[k].1@, e.1@) by {
                if lex_lt(out@[k].1@, e.1@) {
                    lemma_lex_transitive(out@[k].1@, e.1@, out@[p as int].1@);
                    if k == p {
                        lemma_lex_irreflexive(out@[k].1@);
                    }
                }
            }
        }
        let ghost before = out@;
        out.insert(p, e);
        proof {
            let old_ix = ix;
            ix = ix.insert(p as int, j);
            assert forall|k: int| 0 <= k < i + 1 implies ix[k] == (if k < p {
                old_ix[k]
            } else if k == p {
                j
            } else {
                old_ix[k - 1]
            }) by {}
            assert forall|k: int| 0 <= k < i + 1 implies #[trigger] out@[k] == src[ix[k]] by {
                if k < p {
                    assert(out@[k] == before[k]);
                } else if k > p {
                    assert(out@[k] == before[k - 1]);
                }
            }
            assert forall|a: int, b: int| 0 <= a < b < i + 1 implies !lex_lt(out@[b].1@, out@[a].1@) by {
                if b < p {
                    assert(out@[a] == before[a] && out@[b] == before[b]);
                } else if a > p {
                    assert(out@[a] == before[a - 1] && out@[b] == before[b - 1]);
                } else if a == p {
                    assert(out@[b] == before[b - 1]);
                } else if b == p {
                    assert(out@[a] == before[a]);
                } else {
                    assert(out@[a] == before[a] && out@[b] == before[b - 1]);
                }
            }
            assert forall|k: int| 0 <= k < i + 1 implies n - (i + 1) <= #[trigger] ix[k] < n by {
                if k < p {
                    assert(n - i <= old_ix[k]);
                } else if k > p {
                    assert(n - i <= old_ix[k - 1]);
                }
            }
            assert forall|a: int, b: int| 0 <= a < b < i + 1 implies ix[a] != ix[b] by {
                if a < p && b < p {
                } else if a > p && b > p {
                    assert(old_ix[a - 1] != old_ix[b - 1]);
                } else if a == p {
                    assert(n - i <= old_ix[b - 1]);
                } else if b == p {
                    assert(n - i <= old_ix[a]);
                } else {
                    assert(old_ix[a] != old_ix[b - 1]);
                }
            }
        }
        i += 1;
    }
    proof {
        assert(is_permutation(ix, n as int));
    }
    out
}

} // verus!
