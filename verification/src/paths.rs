//! Lexical path handling on `/`-separated path text.
use crate::text::{chars_of, concat, copy_chars, split, split_exec, starts_with, string_of, views};
use vstd::prelude::*;

verus! {

/// The directories left after walking `segs` from left to right: empty
/// pieces and `.` are skipped, `..` drops the last directory kept so far
/// (never going above the start), anything else is kept.
pub open spec fn resolve_segments(segs: Seq<Seq<char>>) -> Seq<Seq<char>>
    decreases segs.len(),
{
    if segs.len() == 0 {
        seq![]
    } else {
        let st = resolve_segments(segs.drop_last());
        let x = segs.last();
        if x.len() == 0 || x == seq!['.'] {
            st
        } else if x == seq!['.', '.'] {
            if st.len() > 0 {
                st.drop_last()
            } else {
                st
            }
        } else {
            st.push(x)
        }
    }
}

/// The pieces joined with `/` between them.
pub open spec fn join_segments(segs: Seq<Seq<char>>) -> Seq<char>
    decreases segs.len(),
{
    if segs.len() == 0 {
        seq![]
    } else if segs.len() == 1 {
        segs[0]
    } else {
        join_segments(segs.drop_last()) + seq!['/'] + segs.last()
    }
}

/// A path with `.` and `..` resolved lexically; an absolute path keeps its
/// leading `/` and cannot climb above it.
pub open spec fn clean(p: Seq<char>) -> Seq<char> {
    let body = join_segments(resolve_segments(split(p, seq!['/'])));
    if p.len() > 0 && p[0] == '/' {
        seq!['/'] + body
    } else {
        body
    }
}

/// `base` joined with the relative, non-empty `name`, as `Path::join` does it.
pub open spec fn joined(base: Seq<char>, name: Seq<char>) -> Seq<char> {
    if base.len() == 0 {
        name
    } else if base.last() == '/' {
        base + name
    } else {
        base + seq!['/'] + name
    }
}

/// Resolve `.` and `..` in a path without touching the file system.
pub fn clean_path(path: &str) -> (r: String)
    ensures
        r@ == clean(path@),
{
    let p = chars_of(path);
    let slash = vec!['/'];
    assert(slash@ =~= seq!['/']);
    let parts = split_exec(&p, &slash);
    let ghost segs = views(parts@);
    let mut stack: Vec<Vec<char>> = Vec::new();
    let mut i: usize = 0;
    while i < parts.len()
        invariant
            i <= parts.len(),
            segs == views(parts@),
            views(stack@) == resolve_segments(segs.take(i as int)),
        decreases parts.len() - i,
    {
        let x = &parts[i];
        assert(segs.take(i + 1).drop_last() =~= segs.take(i as int));
        assert(segs.take(i + 1).last() == x@);
        if x.len() == 0 || (x.len() == 1 && x[0] == '.') {
            assert(x.len() == 1 ==> x@ =~= seq!['.']);
        } else if x.len() == 2 && x[0] == '.' && x[1] == '.' {
            assert(x@ =~= seq!['.', '.']);
            if stack.len() > 0 {
                let ghost before = stack@;
                stack.pop();
                assert(stack@ =~= before.drop_last());
                assert(views(stack@) =~= views(before).drop_last());
            }
        } else {
            assert(x@ != seq!['.'] && x@ != seq!['.', '.']) by {
                if x@ == seq!['.'] {
                    assert(x@.len() == 1 && x@[0] == '.');
                }
                if x@ == seq!['.', '.'] {
                    assert(x@.len() == 2 && x@[0] == '.' && x@[1] == '.');
                }
            }
            stack.push(copy_chars(x));
            assert(views(stack@) =~= resolve_segments(segs.take(i as int)).push(x@));
        }
        i += 1;
    }
    assert(segs.take(parts.len() as int) =~= segs);
    let body = join_exec(&stack);
    if p.len() > 0 && p[0] == '/' {
        string_of(&concat(&slash, &body))
    } else {
        string_of(&body)
    }
}

/// The pieces of `segs` joined with `/`.
fn join_exec(segs: &Vec<Vec<char>>) -> (r: Vec<char>)
    ensures
        r@ == join_segments(views(segs@)),
{
    let mut out: Vec<char> = Vec::new();
    let mut i: usize = 0;
    let slash = vec!['/'];
    assert(slash@ =~= seq!['/']);
    while i < segs.len()
        invariant
            i <= segs.len(),
            slash@ == seq!['/'],
            out@ == join_segments(views(segs@).take(i as int)),
        decreases segs.len() - i,
    {
        let ghost pre = views(segs@).take(i as int);
        assert(views(segs@).take(i + 1).drop_last() =~= pre);
        assert(views(segs@).take(i + 1).last() == segs@[i as int]@);
        if i == 0 {
            assert(views(segs@).take(1) =~= seq![segs@[0]@]);
            out = copy_chars(&segs[0]);
        } else {
            let with_slash = concat(&out, &slash);
            out = concat(&with_slash, &segs[i]);
        }
        i += 1;
    }
    assert(views(segs@).take(segs.len() as int) =~= views(segs@));
    out
}

/// `base.join(name)` for a relative, non-empty `name`.
pub fn join_path(base: &str, name: &str) -> (r: String)
    ensures
        r@ == joined(base@, name@),
{
    let b = chars_of(base);
    let n = chars_of(name);
    if b.len() == 0 {
        string_of(&n)
    } else if b[b.len() - 1] == '/' {
        string_of(&concat(&b, &n))
    } else {
        let slash = vec!['/'];
        let with_slash = concat(&b, &slash);
        assert(with_slash@ =~= b@ + seq!['/']);
        string_of(&concat(&with_slash, &n))
    }
}

/// The file name of a path: its last component, unless the path ends in `..`
/// or has none.
pub open spec fn file_name(path: Seq<char>) -> Option<Seq<char>> {
    match last_component(split(path, seq!['/'])) {
        Some(n) => if n == seq!['.', '.'] {
            None
        } else {
            Some(n)
        },
        None => None,
    }
}

/// The last piece that is neither empty nor `.`.
pub open spec fn last_component(pieces: Seq<Seq<char>>) -> Option<Seq<char>>
    decreases pieces.len(),
{
    if pieces.len() == 0 {
        None
    } else if pieces.last().len() > 0 && pieces.last() != seq!['.'] {
        Some(pieces.last())
    } else {
        last_component(pieces.drop_last())
    }
}

/// The file name of `path`, as `file_name` describes it.
pub fn file_name_of(path: &str) -> (r: Option<Vec<char>>)
    ensures
        match file_name(path@) {
            Some(n) => r matches Some(v) && v@ == n,
            None => r is None,
        },
{
    let slash = vec!['/'];
    assert(slash@ =~= seq!['/']);
    let pieces = split_exec(&chars_of(path), &slash);
    let ghost p = views(pieces@);
    let mut last: Option<usize> = None;
    let mut i: usize = 0;
    while i < pieces.len()
        invariant
            i <= pieces.len(),
            p == views(pieces@),
            p == split(path@, seq!['/']),
            match last {
                Some(k) => k < i && last_component(p.take(i as int)) == Some(p[k as int]),
                None => last_component(p.take(i as int)) is None,
            },
        decreases pieces.len() - i,
    {
        let x = &pieces[i];
        assert(p[i as int] == x@);
        assert(p.take(i + 1).drop_last() =~= p.take(i as int));
        assert(p.take(i + 1).last() == x@);
        let is_dot = x.len() == 1 && x[0] == '.';
        assert(is_dot == (x@ == seq!['.'])) by {
            if x@ == seq!['.'] {
                assert(x@.len() == 1 && x@[0] == '.');
            }
            if is_dot {
                assert(x@ =~= seq!['.']);
            }
        }
        if x.len() > 0 && !is_dot {
            last = Some(i);
        }
        i += 1;
    }
    assert(p.take(pieces.len() as int) =~= p);
    match last {
        None => None,
        Some(k) => {
            let name = &pieces[k];
            let dots = vec!['.', '.'];
            assert(dots@ =~= seq!['.', '.']);
            if crate::text::chars_eq(name, &dots) {
                None
            } else {
                Some(copy_chars(name))
            }
        },
    }
}

/// The named pieces of a path: the pieces between `/` that are neither empty nor `.`.
pub open spec fn named_parts(pieces: Seq<Seq<char>>) -> Seq<Seq<char>>
    decreases pieces.len(),
{
    if pieces.len() == 0 {
        seq![]
    } else {
        let rest = named_parts(pieces.drop_last());
        let x = pieces.last();
        if x.len() == 0 || x == seq!['.'] {
            rest
        } else {
            rest.push(x)
        }
    }
}

/// The components of a path as `Path` compares them, `..` kept as it is.
pub open spec fn path_parts(path: Seq<char>) -> Seq<Seq<char>> {
    named_parts(split(path, seq!['/']))
}

/// Pieces joined with `/` between them.
pub open spec fn joined_parts(parts: Seq<Seq<char>>) -> Seq<char>
    decreases parts.len(),
{
    if parts.len() == 0 {
        seq![]
    } else if parts.len() == 1 {
        parts[0]
    } else {
        joined_parts(parts.drop_last()) + seq!['/'] + parts.last()
    }
}

/// The text with each backslash written as `/`.
pub open spec fn forward_slashes(s: Seq<char>) -> Seq<char> {
    s.map_values(|c: char| if c == '\\' { '/' } else { c })
}

/// `path` relative to `root` when `root` is a leading part of it (component by
/// component, both absolute or both relative), else `path` itself; with
/// backslashes written as `/`.
pub open spec fn relative_to(path: Seq<char>, root: Seq<char>) -> Seq<char> {
    let pp = path_parts(path);
    let rp = path_parts(root);
    if starts_with(path, seq!['/']) == starts_with(root, seq!['/']) && rp.len() <= pp.len() && pp.take(
        rp.len() as int,
    ) == rp {
        forward_slashes(joined_parts(pp.skip(rp.len() as int)))
    } else {
        forward_slashes(path)
    }
}

pub(crate) fn parts_of(path: &str) -> (r: Vec<Vec<char>>)
    ensures
        views(r@) == path_parts(path@),
{
    let slash = vec!['/'];
    assert(slash@ =~= seq!['/']);
    let pieces = split_exec(&chars_of(path), &slash);
    let ghost p = views(pieces@);
    let mut out: Vec<Vec<char>> = Vec::new();
    let mut i: usize = 0;
    while i < pieces.len()
        invariant
            i <= pieces.len(),
            p == views(pieces@),
            views(out@) == named_parts(p.take(i as int)),
        decreases pieces.len() - i,
    {
        let x = &pieces[i];
        assert(p.take(i + 1).drop_last() =~= p.take(i as int));
        assert(p.take(i + 1).last() == x@);
        let is_dot = x.len() == 1 && x[0] == '.';
        assert(is_dot == (x@ == seq!['.'])) by {
            if x@ == seq!['.'] {
                assert(x@.len() == 1 && x@[0] == '.');
            }
            if is_dot {
                assert(x@ =~= seq!['.']);
            }
        }
        if x.len() > 0 && !is_dot {
            let ghost before = out@;
            let c = copy_chars(x);
            out.push(c);
            assert(views(out@) =~= views(before).push(x@));
        }
        i += 1;
    }
    assert(p.take(pieces.len() as int) =~= p);
    out
}

fn slashes_forward(v: &Vec<char>) -> (r: Vec<char>)
    ensures
        r@ == forward_slashes(v@),
{
    let mut out: Vec<char> = Vec::new();
    let mut i: usize = 0;
    while i < v.len()
        invariant
            i <= v.len(),
            out@ == forward_slashes(v@.take(i as int)),
        decreases v.len() - i,
    {
        let c = v[i];
        out.push(if c == '\\' { '/' } else { c });
        assert(forward_slashes(v@.take(i + 1)) =~= forward_slashes(v@.take(i as int)).push(
            if c == '\\' { '/' } else { c },
        ));
        i += 1;
    }
    assert(v@.take(v.len() as int) =~= v@);
    out
}

/// `path` relative to `root`, as `relative_to` describes it.
pub fn relative_path(path: &str, root: &str) -> (r: String)
    ensures
        r@ == relative_to(path@, root@),
{
    let pp = parts_of(path);
    let rp = parts_of(root);
    let ghost ppv = views(pp@);
    let ghost rpv = views(rp@);
    let pc = chars_of(path);
    let rc = chars_of(root);
    let slash = vec!['/'];
    assert(slash@ =~= seq!['/']);
    let path_abs = crate::text::starts_with_exec(&pc, &slash);
    let root_abs = crate::text::starts_with_exec(&rc, &slash);
    let mut prefix = path_abs == root_abs && rp.len() <= pp.len();
    let mut i: usize = 0;
    while prefix && i < rp.len()
        invariant
            i <= rp.len(),
            ppv == views(pp@),
            rpv == views(rp@),
            prefix ==> path_abs == root_abs && rp.len() <= pp.len() && forall|j: int| 0 <= j < i ==> ppv[j] == rpv[j],
            path_abs == starts_with(path@, seq!['/']),
            root_abs == starts_with(root@, seq!['/']),
            !prefix ==> !(path_abs == root_abs && rpv.len() <= ppv.len() && ppv.take(rpv.len() as int) == rpv),
        decreases rp.len() - i,
    {
        if !crate::text::chars_eq(&pp[i], &rp[i]) {
            assert(ppv[i as int] != rpv[i as int]);
            assert(ppv.take(rpv.len() as int)[i as int] != rpv[i as int]);
            prefix = false;
        }
        i += 1;
    }
    if prefix {
        assert(ppv.take(rpv.len() as int) =~= rpv);
        let mut out: Vec<char> = Vec::new();
        let mut k: usize = rp.len();
        let ghost rest = ppv.skip(rpv.len() as int);
        while k < pp.len()
            invariant
                rp.len() <= k <= pp.len(),
                ppv == views(pp@),
                rest == ppv.skip(rp.len() as int),
                out@ == joined_parts(rest.take(k - rp.len())),
            decreases pp.len() - k,
        {
            let ghost before = out@;
            assert(rest.take(k + 1 - rp.len()).drop_last() =~= rest.take(k - rp.len()));
            assert(rest.take(k + 1 - rp.len()).last() == pp@[k as int]@);
            if k > rp.len() {
                out.push('/');
            }
            out = concat(&out, &pp[k]);
            if k == rp.len() {
                assert(rest.take(1) =~= seq![pp@[k as int]@]);
                assert(out@ =~= pp@[k as int]@);
            } else {
                assert(out@ =~= before + seq!['/'] + pp@[k as int]@);
            }
            k += 1;
        }
        assert(rest.take(pp.len() - rp.len()) =~= rest);
        string_of(&slashes_forward(&out))
    } else {
        string_of(&slashes_forward(&pc))
    }
}

} // verus!
