//! Rendering Markdown consistently across the changelog and changesets.
use crate::text::{split, split_exec, views};
use vstd::prelude::*;
use vstd::string::StringExecFns;

verus! {

/// A line as `str::lines` yields it when a newline followed it: without a final `\r`.
pub open spec fn without_cr(l: Seq<char>) -> Seq<char> {
    if l.len() > 0 && l.last() == '\r' {
        l.drop_last()
    } else {
        l
    }
}

/// `str::lines`: the pieces between `\n`s, a `\r` before a `\n` removed, and
/// no empty last line after a final newline.
pub open spec fn text_lines(s: Seq<char>) -> Seq<Seq<char>> {
    let parts = split(s, seq!['\n']);
    let ended = parts.drop_last().map_values(|l: Seq<char>| without_cr(l));
    if parts.last().len() == 0 {
        ended
    } else {
        ended.push(parts.last())
    }
}

/// The continuation lines of a list item, each indented by two spaces.
pub open spec fn continuation(lines: Seq<Seq<char>>) -> Seq<char>
    decreases lines.len(),
{
    if lines.len() == 0 {
        seq![]
    } else {
        continuation(lines.drop_last()) + "  "@ + lines.last() + "\n"@
    }
}

/// A Markdown list item holding `message`: its first line after `- `, the
/// others indented by two spaces, each ending in a newline.
pub open spec fn list_item(message: Seq<char>) -> Seq<char> {
    let ls = text_lines(message);
    if ls.len() == 0 {
        "- \n"@
    } else {
        "- "@ + ls[0] + "\n"@ + continuation(ls.drop_first())
    }
}

/// The lines of `v`, as `str::lines` yields them.
fn lines_of(s: &str) -> (r: Vec<String>)
    ensures
        r@.len() == text_lines(s@).len(),
        forall|i: int| 0 <= i < r@.len() ==> #[trigger] r@[i]@ == text_lines(s@)[i],
{
    let v = crate::text::chars_of(s);
    let nl = vec!['\n'];
    assert(nl@ =~= seq!['\n']);
    let parts = split_exec(&v, &nl);
    proof {
        crate::text::lemma_split_nonempty(s@, seq!['\n']);
    }
    let ghost p = views(parts@);
    let mut out: Vec<String> = Vec::new();
    let n = parts.len();
    let mut i: usize = 0;
    while i + 1 < n
        invariant
            n == parts.len(),
            n >= 1,
            p == views(parts@),
            p == split(s@, seq!['\n']),
            i + 1 <= n,
            out@.len() == i,
            forall|j: int| 0 <= j < i ==> #[trigger] out@[j]@ == without_cr(p[j]),
        decreases n - i,
    {
        let piece = &parts[i];
        assert(p[i as int] == piece@);
        let k = piece.len();
        if k > 0 && piece[k - 1] == '\r' {
            out.push(crate::text::string_of(&crate::text::slice(piece, 0, k - 1)));
            assert(piece@.drop_last() =~= piece@.subrange(0, k - 1));
        } else {
            out.push(crate::text::string_of(piece));
        }
        i += 1;
    }
    let last = &parts[n - 1];
    assert(p.last() == last@);
    let ghost ended = p.drop_last().map_values(|l: Seq<char>| without_cr(l));
    assert(ended.len() == out@.len());
    if last.len() > 0 {
        out.push(crate::text::string_of(last));
    }
    out
}

/// Format a Markdown list item for a changeset message; continuation lines
/// are indented so they stay part of the item, and the result always ends
/// with a newline.
pub fn format_markdown_list_item(message: &str) -> (r: String)
    ensures
        r@ == list_item(message@),
        r@.len() > 0 && r@.last() == '\n',
{
    let lines = lines_of(message);
    let mut out = String::new();
    proof {
        reveal_strlit("- \n");
        reveal_strlit("\n");
        reveal_strlit("  ");
        reveal_strlit("- ");
    }
    if lines.len() == 0 {
        out.append("- \n");
        return out;
    }
    out.append("- ");
    out.append(lines[0].as_str());
    out.append("\n");
    let ghost ls = text_lines(message@);
    let mut i: usize = 1;
    assert(ls.drop_first().take(0) =~= Seq::<Seq<char>>::empty());
    while i < lines.len()
        invariant
            1 <= i <= lines.len(),
            lines@.len() == ls.len(),
            ls == text_lines(message@),
            forall|j: int| 0 <= j < lines@.len() ==> #[trigger] lines@[j]@ == ls[j],
            out@ == "- "@ + ls[0] + "\n"@ + continuation(ls.drop_first().take(i - 1)),
        decreases lines.len() - i,
    {
        assert(ls.drop_first().take(i as int).drop_last() =~= ls.drop_first().take(i - 1));
        assert(ls.drop_first().take(i as int).last() == lines@[i as int]@);
        out.append("  ");
        out.append(lines[i].as_str());
        out.append("\n");
        i += 1;
    }
    assert(ls.drop_first().take(i - 1) =~= ls.drop_first());
    out
}

} // verus!
