//! Package filtering: wildcard patterns over names and paths.
use crate::text::{
    chars_eq, chars_of, occurs_at, occurs_at_exec, split, split_exec, starts_with,
    starts_with_exec, views,
};
use crate::config::Config;
use crate::paths::{relative_path, relative_to};
use crate::sorted::{insert_sorted, strictly_sorted, strs};
use crate::types::{PackageInfo, Workspace};
use vstd::prelude::*;

verus! {

/// `pos` places the pieces of `parts` in `t` in order and without overlap:
/// the first at or after `start`, the last ending exactly at the end of `t`.
pub open spec fn placed(parts: Seq<Seq<char>>, t: Seq<char>, start: int, pos: Seq<int>) -> bool {
    &&& pos.len() == parts.len()
    &&& forall|i: int| 0 <= i < pos.len() ==> occurs_at(t, #[trigger] parts[i], pos[i])
    &&& parts.len() > 0 ==> start <= pos[0]
    &&& forall|i: int|
        0 <= i < pos.len() - 1 ==> #[trigger] pos[i] + parts[i].len() <= pos[i + 1]
    &&& parts.len() > 0 ==> pos.last() + parts.last().len() == t.len()
}

/// The pieces after the first `*` of a pattern can be placed in `t` from `start` on.
pub open spec fn placeable(parts: Seq<Seq<char>>, t: Seq<char>, start: int) -> bool {
    exists|pos: Seq<int>| placed(parts, t, start, pos)
}

/// Anchored wildcard matching where `*` stands for any run of characters:
/// without `*` the text must equal the pattern; otherwise the text starts
/// with the piece before the first `*` and the remaining pieces can be placed
/// after it in order, the last one ending the text.
pub open spec fn wildcard(pattern: Seq<char>, t: Seq<char>) -> bool {
    let parts = split(pattern, seq!['*']);
    if parts.len() <= 1 {
        t == pattern
    } else {
        starts_with(t, parts[0]) && placeable(parts.drop_first(), t, parts[0].len() as int)
    }
}

proof fn lemma_no_occurrence(parts: Seq<Seq<char>>, t: Seq<char>, idx: int)
    requires
        parts.len() >= 1,
        forall|j: int| j >= idx ==> !occurs_at(t, parts[0], j),
    ensures
        !placeable(parts, t, idx),
{
    if placeable(parts, t, idx) {
        let pos = choose|pos: Seq<int>| placed(parts, t, idx, pos);
        assert(occurs_at(t, parts[0], pos[0]));
    }
}

proof fn lemma_empty_piece(parts: Seq<Seq<char>>, t: Seq<char>, idx: int)
    requires
        parts.len() >= 2,
        parts[0].len() == 0,
        0 <= idx <= t.len(),
    ensures
        placeable(parts, t, idx) == placeable(parts.drop_first(), t, idx),
{
    let rest = parts.drop_first();
    if placeable(parts, t, idx) {
        let pos = choose|pos: Seq<int>| placed(parts, t, idx, pos);
        let q = pos.drop_first();
        assert forall|i: int| 0 <= i < q.len() implies occurs_at(t, #[trigger] rest[i], q[i]) by {
            assert(rest[i] == parts[i + 1]);
            assert(occurs_at(t, parts[i + 1], pos[i + 1]));
        }
        assert forall|i: int| 0 <= i < q.len() - 1 implies #[trigger] q[i] + rest[i].len() <= q[i
            + 1] by {
            assert(pos[i + 1] + parts[i + 1].len() <= pos[i + 2]);
        }
        assert(pos[0] + parts[0].len() <= pos[1]);
        assert(placed(rest, t, idx, q));
    }
    if placeable(rest, t, idx) {
        let q = choose|q: Seq<int>| placed(rest, t, idx, q);
        let pos = seq![idx].add(q);
        assert forall|i: int| 0 <= i < pos.len() implies occurs_at(t, #[trigger] parts[i], pos[i]) by {
            if i == 0 {
                assert(t.subrange(idx, idx) =~= parts[0]);
            } else {
                assert(parts[i] == rest[i - 1]);
                assert(occurs_at(t, rest[i - 1], q[i - 1]));
            }
        }
        assert forall|i: int| 0 <= i < pos.len() - 1 implies #[trigger] pos[i] + parts[i].len()
            <= pos[i + 1] by {
            if i > 0 {
                assert(q[i - 1] + rest[i - 1].len() <= q[i]);
            }
        }
        assert(placed(parts, t, idx, pos));
    }
}

proof fn lemma_leftmost_forward(parts: Seq<Seq<char>>, t: Seq<char>, idx: int, k: int)
    requires
        parts.len() >= 2,
        idx <= k,
        occurs_at(t, parts[0], k),
        forall|j: int| idx <= j < k ==> !occurs_at(t, parts[0], j),
        placeable(parts, t, idx),
    ensures
        placeable(parts.drop_first(), t, k + parts[0].len()),
{
    let rest = parts.drop_first();
    let pos = choose|pos: Seq<int>| placed(parts, t, idx, pos);
    let q = pos.drop_first();
    assert(occurs_at(t, parts[0], pos[0]));
    assert(k <= pos[0]);
    assert forall|i: int| 0 <= i < q.len() implies occurs_at(t, #[trigger] rest[i], q[i]) by {
        assert(rest[i] == parts[i + 1]);
        assert(occurs_at(t, parts[i + 1], pos[i + 1]));
    }
    assert forall|i: int| 0 <= i < q.len() - 1 implies #[trigger] q[i] + rest[i].len() <= q[i
        + 1] by {
        assert(pos[i + 1] + parts[i + 1].len() <= pos[i + 2]);
    }
    assert(pos[0] + parts[0].len() <= pos[1]);
    let next = k + parts[0].len();
    assert(placed(rest, t, next, q));
}

pub(crate) proof fn lemma_leftmost_backward(parts: Seq<Seq<char>>, t: Seq<char>, idx: int, k: int)
    requires
        parts.len() >= 2,
        idx <= k,
        occurs_at(t, parts[0], k),
        placeable(parts.drop_first(), t, k + parts[0].len()),
    ensures
        placeable(parts, t, idx),
{
    let rest = parts.drop_first();
    let next = k + parts[0].len();
    let q = choose|q: Seq<int>| placed(rest, t, next, q);
    let pos = seq![k].add(q);
    assert forall|i: int| 0 <= i < pos.len() implies occurs_at(t, #[trigger] parts[i], pos[i]) by {
        if i > 0 {
            assert(parts[i] == rest[i - 1]);
            assert(occurs_at(t, rest[i - 1], q[i - 1]));
        }
    }
    assert forall|i: int| 0 <= i < pos.len() - 1 implies #[trigger] pos[i] + parts[i].len()
        <= pos[i + 1] by {
        if i > 0 {
            assert(q[i - 1] + rest[i - 1].len() <= q[i]);
        }
    }
    assert(placed(parts, t, idx, pos));
}

proof fn lemma_leftmost_piece(parts: Seq<Seq<char>>, t: Seq<char>, idx: int, k: int)
    requires
        parts.len() >= 2,
        idx <= k,
        occurs_at(t, parts[0], k),
        forall|j: int| idx <= j < k ==> !occurs_at(t, parts[0], j),
    ensures
        placeable(parts, t, idx) == placeable(parts.drop_first(), t, k + parts[0].len()),
{
    if placeable(parts, t, idx) {
        lemma_leftmost_forward(parts, t, idx, k);
    }
    if placeable(parts.drop_first(), t, k + parts[0].len()) {
        lemma_leftmost_backward(parts, t, idx, k);
    }
}

pub(crate) proof fn lemma_last_piece(parts: Seq<Seq<char>>, t: Seq<char>, idx: int)
    requires
        parts.len() == 1,
        0 <= idx <= t.len(),
    ensures
        placeable(parts, t, idx) == (parts[0].len() <= t.len() - idx && occurs_at(
            t,
            parts[0],
            t.len() - parts[0].len(),
        )),
{
    if placeable(parts, t, idx) {
        let pos = choose|pos: Seq<int>| placed(parts, t, idx, pos);
        assert(occurs_at(t, parts[0], pos[0]));
    }
    if parts[0].len() <= t.len() - idx && occurs_at(t, parts[0], t.len() - parts[0].len()) {
        let pos = seq![t.len() - parts[0].len()];
        assert(occurs_at(t, parts[0], pos[0]));
        assert(placed(parts, t, idx, pos));
    }
}

/// The first position at or after `from` where `p` occurs in `t`.
fn find_from_exec(t: &Vec<char>, p: &Vec<char>, from: usize) -> (r: Option<usize>)
    ensures
        r matches Some(k) ==> from <= k && occurs_at(t@, p@, k as int) && forall|j: int|
            from <= j < k ==> !occurs_at(t@, p@, j),
        r is None ==> forall|j: int| j >= from ==> !occurs_at(t@, p@, j),
{
    if p.len() > t.len() || from > t.len() - p.len() {
        return None;
    }
    let last = t.len() - p.len();
    let mut j: usize = from;
    loop
        invariant
            from <= j <= last,
            last + p.len() == t.len(),
            forall|i: int| from <= i < j ==> !occurs_at(t@, p@, i),
        decreases last - j,
    {
        if occurs_at_exec(t, p, j) {
            return Some(j);
        }
        if j == last {
            return None;
        }
        j += 1;
    }
}

/// Simple wildcard match supporting `*` as any sequence (case-sensitive, anchored).
pub fn wildcard_match(pattern: &str, text: &str) -> (r: bool)
    ensures
        r == (pattern@ == text@ || wildcard(pattern@, text@)),
{
    let p = chars_of(pattern);
    let t = chars_of(text);
    if chars_eq(&p, &t) {
        return true;
    }
    let star = vec!['*'];
    assert(star@ =~= seq!['*']);
    let parts = split_exec(&p, &star);
    let ghost ps = views(parts@);
    proof {
        crate::text::lemma_split_nonempty(p@, seq!['*']);
    }
    let n = parts.len();
    if n <= 1 {
        return false;
    }
    assert(ps[0] == parts@[0]@);
    if !starts_with_exec(&t, &parts[0]) {
        return false;
    }
    let mut idx: usize = parts[0].len();
    let mut i: usize = 1;
    assert(ps.drop_first() =~= ps.subrange(1, n as int));
    while i + 1 < n
        invariant
            n == parts.len(),
            n >= 2,
            ps == views(parts@),
            1 <= i < n,
            idx <= t.len(),
            wildcard(p@, t@) == placeable(ps.subrange(i as int, n as int), t@, idx as int),
            ps == split(p@, seq!['*']),
            starts_with(t@, ps[0]),
            p@ == pattern@,
            t@ == text@,
            p@ != t@,
        decreases n - i,
    {
        let m = &parts[i];
        let ghost rest = ps.subrange(i as int, n as int);
        assert(rest[0] == m@);
        assert(rest.drop_first() =~= ps.subrange(i + 1, n as int));
        if m.len() == 0 {
            proof {
                lemma_empty_piece(rest, t@, idx as int);
            }
        } else {
            match find_from_exec(&t, m, idx) {
                Some(k) => {
                    proof {
                        lemma_leftmost_piece(rest, t@, idx as int, k as int);
                    }
                    idx = k + m.len();
                },
                None => {
                    proof {
                        lemma_no_occurrence(rest, t@, idx as int);
                    }
                    return false;
                },
            }
        }
        i += 1;
    }
    let last = &parts[n - 1];
    let ghost rest = ps.subrange(i as int, n as int);
    assert(rest.len() == 1 && rest[0] == last@);
    proof {
        lemma_last_piece(rest, t@, idx as int);
    }
    if last.len() == 0 {
        assert(t@.subrange(t@.len() as int, t@.len() as int) =~= last@);
        return true;
    }
    last.len() <= t.len() - idx && occurs_at_exec(&t, last, t.len() - last.len())
}

/// Whether configuration rules leave the package out: unpublishable
/// packages when `ignore_unpublished` is set, and packages whose name or
/// workspace-relative path matches an `ignore` pattern.
pub open spec fn ignored(cfg: Config, root: Seq<char>, info: PackageInfo, publishable: bool) -> bool {
    (cfg.ignore_unpublished && !publishable) || exists|k: int|
        0 <= k < cfg.ignore.len() && #[trigger] pattern_hits(cfg.ignore@[k]@, info, root)
}

/// The pattern matches the package's name or its path relative to `root`.
pub open spec fn pattern_hits(pattern: Seq<char>, info: PackageInfo, root: Seq<char>) -> bool {
    matches_wildcard(pattern, info.name@) || matches_wildcard(pattern, relative_to(info.path@, root))
}

/// What `wildcard_match` answers.
pub open spec fn matches_wildcard(pattern: Seq<char>, text: Seq<char>) -> bool {
    pattern == text || wildcard(pattern, text)
}

/// Whether the configuration leaves `info` out of the workspace `ws`;
/// `publishable` tells whether the package can be published to its registry
/// (it is only read when `ignore_unpublished` is set).
pub fn should_ignore_package(cfg: &Config, ws: &Workspace, info: &PackageInfo, publishable: bool) -> (r: bool)
    ensures
        r == ignored(*cfg, ws.root@, *info, publishable),
{
    if cfg.ignore_unpublished && !publishable {
        return true;
    }
    if cfg.ignore.len() == 0 {
        return false;
    }
    let rel = relative_path(info.path.as_str(), ws.root.as_str());
    let mut k: usize = 0;
    while k < cfg.ignore.len()
        invariant
            k <= cfg.ignore.len(),
            rel@ == relative_to(info.path@, ws.root@),
            forall|j: int| 0 <= j < k ==> !#[trigger] pattern_hits(cfg.ignore@[j]@, *info, ws.root@),
        decreases cfg.ignore.len() - k,
    {
        let pat = cfg.ignore[k].as_str();
        if wildcard_match(pat, info.name.as_str()) || wildcard_match(pat, rel.as_str()) {
            assert(pattern_hits(cfg.ignore@[k as int]@, *info, ws.root@));
            return true;
        }
        k += 1;
    }
    false
}

/// The positions of the members the configuration keeps, in order;
/// `publishable[i]` tells whether member `i` can be published.
pub fn filter_members(ws: &Workspace, cfg: &Config, publishable: &[bool]) -> (r: Vec<usize>)
    requires
        publishable.len() == ws.members.len(),
    ensures
        forall|j: int| 0 <= j < r.len() ==> #[trigger] r@[j] < ws.members.len(),
        forall|i: int, j: int| 0 <= i < j < r.len() ==> r@[i] < r@[j],
        forall|m: int| 0 <= m < ws.members.len() ==> (r@.contains(m as usize) <==> !ignored(
            *cfg,
            ws.root@,
            #[trigger] ws.members@[m],
            publishable@[m],
        )),
{
    let mut out: Vec<usize> = Vec::new();
    let mut m: usize = 0;
    while m < ws.members.len()
        invariant
            m <= ws.members.len(),
            publishable.len() == ws.members.len(),
            forall|j: int| 0 <= j < out.len() ==> #[trigger] out@[j] < m,
            forall|i: int, j: int| 0 <= i < j < out.len() ==> out@[i] < out@[j],
            forall|q: int| 0 <= q < m ==> (out@.contains(q as usize) <==> !ignored(
                *cfg,
                ws.root@,
                #[trigger] ws.members@[q],
                publishable@[q],
            )),
        decreases ws.members.len() - m,
    {
        let ghost before = out@;
        let ign = should_ignore_package(cfg, ws, &ws.members[m], publishable[m]);
        assert(ign == ignored(*cfg, ws.root@, ws.members@[m as int], publishable@[m as int]));
        if !ign {
            out.push(m);
            assert(out@ =~= before.push(m));
            assert(out@[before.len() as int] == m);
        }
        assert forall|q: int| 0 <= q < m + 1 implies (out@.contains(q as usize) <==> !ignored(
            *cfg,
            ws.root@,
            #[trigger] ws.members@[q],
            publishable@[q],
        )) by {
            if out@.contains(q as usize) {
                let j = choose|j: int| 0 <= j < out@.len() && out@[j] == q as usize;
                if j < before.len() {
                    assert(before[j] == q as usize);
                }
            }
            if q < m && before.contains(q as usize) {
                let j = choose|j: int| 0 <= j < before.len() && before[j] == q as usize;
                assert(out@[j] == q as usize);
            }
            if q == m && before.contains(q as usize) {
                let j = choose|j: int| 0 <= j < before.len() && before[j] == q as usize;
                assert(before[j] < m);
            }
            if q == m && !ign {
                assert(out@.contains(m));
            }
        }
        m += 1;
    }
    out
}

/// The names of the packages the configuration keeps, sorted and without duplicates.
pub fn list_visible_packages(ws: &Workspace, cfg: &Config, publishable: &[bool]) -> (r: Vec<String>)
    requires
        publishable.len() == ws.members.len(),
    ensures
        strictly_sorted(strs(r@)),
        forall|name: Seq<char>| #[trigger] strs(r@).contains(name) <==> exists|m: int|
            0 <= m < ws.members.len() && ws.members@[m].name@ == name && !ignored(
                *cfg,
                ws.root@,
                #[trigger] ws.members@[m],
                publishable@[m],
            ),
{
    let kept = filter_members(ws, cfg, publishable);
    let mut names: Vec<String> = Vec::new();
    let mut j: usize = 0;
    while j < kept.len()
        invariant
            j <= kept.len(),
            forall|q: int| 0 <= q < kept.len() ==> #[trigger] kept@[q] < ws.members.len(),
            strictly_sorted(strs(names@)),
            forall|name: Seq<char>| #[trigger] strs(names@).contains(name) <==> exists|q: int|
                0 <= q < j && ws.members@[kept@[q] as int].name@ == name,
        decreases kept.len() - j,
    {
        let ghost before = strs(names@);
        let name = crate::text::owned(ws.members[kept[j]].name.as_str());
        insert_sorted(&mut names, name);
        assert forall|x: Seq<char>| #[trigger] strs(names@).contains(x) <==> exists|q: int|
            0 <= q < j + 1 && ws.members@[kept@[q] as int].name@ == x by {
            assert(strs(names@).to_set().contains(x) == strs(names@).contains(x));
            assert(before.to_set().contains(x) == before.contains(x));
            if x == name@ {
                assert(ws.members@[kept@[j as int] as int].name@ == x);
            }
            if exists|q: int| 0 <= q < j + 1 && ws.members@[kept@[q] as int].name@ == x {
                let q = choose|q: int| 0 <= q < j + 1 && ws.members@[kept@[q] as int].name@ == x;
                if q < j {
                    assert(before.contains(x));
                }
            }
        }
        j += 1;
    }
    assert forall|name: Seq<char>| #[trigger] strs(names@).contains(name) <==> exists|m: int|
        0 <= m < ws.members.len() && ws.members@[m].name@ == name && !ignored(
            *cfg,
            ws.root@,
            #[trigger] ws.members@[m],
            publishable@[m],
        ) by {
        if strs(names@).contains(name) {
            let q = choose|q: int| 0 <= q < kept.len() && ws.members@[kept@[q] as int].name@ == name;
            let m = kept@[q] as int;
            assert(kept@.contains(m as usize));
            assert(!ignored(*cfg, ws.root@, ws.members@[m], publishable@[m]));
        }
        if exists|m: int|
            0 <= m < ws.members.len() && ws.members@[m].name@ == name && !ignored(
                *cfg,
                ws.root@,
                ws.members@[m],
                publishable@[m],
            ) {
            let m = choose|m: int|
                0 <= m < ws.members.len() && ws.members@[m].name@ == name && !ignored(
                    *cfg,
                    ws.root@,
                    ws.members@[m],
                    publishable@[m],
                );
            assert(kept@.contains(m as usize));
            let q = choose|q: int| 0 <= q < kept.len() && kept@[q] == m as usize;
            assert(ws.members@[kept@[q] as int].name@ == name);
        }
    }
    names
}

proof fn lemma_split_without_star(s: Seq<char>)
    requires
        !s.contains('*'),
    ensures
        split(s, seq!['*']).len() == 1,
    decreases s.len(),
{
    if s.len() > 0 {
        if starts_with(s, seq!['*']) {
            assert(s.subrange(0, 1)[0] == s[0]);
            assert(s[0] == '*');
            assert(s.contains(s[0]));
        }
        let rest = s.drop_first();
        assert forall|i: int| 0 <= i < rest.len() implies rest[i] != '*' by {
            assert(rest[i] == s[i + 1]);
            if rest[i] == '*' {
                assert(s.contains(s[i + 1]));
            }
        }
        lemma_split_without_star(rest);
    }
}

/// A pattern without `*` matches exactly the text equal to it.
pub proof fn law_plain_pattern_matches_itself_only(pattern: Seq<char>, text: Seq<char>)
    requires
        !pattern.contains('*'),
    ensures
        matches_wildcard(pattern, text) <==> pattern == text,
{
    lemma_split_without_star(pattern);
}

/// An ignore pattern leaves out every package whose name it matches and
/// every package whose path relative to the workspace root it matches,
/// whatever characters the pattern holds.
pub proof fn law_pattern_match_ignores(cfg: Config, root: Seq<char>, info: PackageInfo, publishable: bool, k: int)
    requires
        0 <= k < cfg.ignore.len(),
        matches_wildcard(cfg.ignore@[k]@, info.name@) || matches_wildcard(
            cfg.ignore@[k]@,
            relative_to(info.path@, root),
        ),
    ensures
        ignored(cfg, root, info, publishable),
{
    assert(pattern_hits(cfg.ignore@[k]@, info, root));
}

/// A package is left out exactly when `ignore_unpublished` is set and it
/// cannot be published, or some ignore pattern matches its name or its path
/// relative to the workspace root.
pub proof fn law_ignored_exactly_when(cfg: Config, root: Seq<char>, info: PackageInfo, publishable: bool)
    ensures
        ignored(cfg, root, info, publishable) <==> ((cfg.ignore_unpublished && !publishable) || exists|k: int|
            #![trigger cfg.ignore@[k]]
            0 <= k < cfg.ignore.len() && (matches_wildcard(cfg.ignore@[k]@, info.name@) || matches_wildcard(
                cfg.ignore@[k]@,
                relative_to(info.path@, root),
            ))),
{
    assert forall|k: int|
        #![trigger cfg.ignore@[k]]
        0 <= k < cfg.ignore.len() && (matches_wildcard(cfg.ignore@[k]@, info.name@) || matches_wildcard(
            cfg.ignore@[k]@,
            relative_to(info.path@, root),
        )) implies ignored(cfg, root, info, publishable) by {
        law_pattern_match_ignores(cfg, root, info, publishable, k);
    }
    if ignored(cfg, root, info, publishable) && !(cfg.ignore_unpublished && !publishable) {
        let k = choose|k: int| 0 <= k < cfg.ignore.len() && #[trigger] pattern_hits(cfg.ignore@[k]@, info, root);
        assert(matches_wildcard(cfg.ignore@[k]@, info.name@) || matches_wildcard(
            cfg.ignore@[k]@,
            relative_to(info.path@, root),
        ));
    }
}

} // verus!
