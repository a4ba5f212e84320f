//! Rewriting dependency specifiers when a workspace dependency gets a new version.
use crate::semantic::{parse_semver, parse_semver_req, semver_req_parses, semver_version};
use crate::text::{all_digits, chars_eq, chars_of, join2, owned, parse_u64, parse_u64_exec, split, split_exec, starts_with, starts_with_exec, string_of, trim, trim_chars, views};
use vstd::prelude::*;

verus! {

pub open spec fn opt_text(o: Option<String>) -> Option<Seq<char>> {
    match o {
        Some(s) => Some(s@),
        None => None,
    }
}

/// The npm specifier that replaces `old` for `new_version`: `workspace:`
/// ranges keep their operator (`workspace:*` stays), `^` and `~` ranges keep
/// theirs, `*`, paths, aliases, URLs and comparison ranges stay, and `None`
/// when nothing would change.
pub open spec fn dependency_specifier(old: Seq<char>, new_version: Seq<char>) -> Option<Seq<char>> {
    let t = trim(old);
    if t.len() == 0 {
        Some(new_version)
    } else if starts_with(t, "workspace:"@) {
        let suffix = t.skip(10);
        if suffix == "*"@ {
            None
        } else if starts_with(suffix, "^"@) {
            Some("workspace:^"@ + new_version)
        } else if starts_with(suffix, "~"@) {
            Some("workspace:~"@ + new_version)
        } else {
            Some("workspace:"@ + new_version)
        }
    } else if t == "*"@ || starts_with(t, "file:"@) || starts_with(t, "link:"@) || starts_with(
        t,
        "npm:"@,
    ) || starts_with(t, "git:"@) || starts_with(t, "http:"@) || starts_with(t, "https:"@) {
        None
    } else if starts_with(t, "^"@) {
        if t.skip(1) == new_version {
            None
        } else {
            Some("^"@ + new_version)
        }
    } else if starts_with(t, "~"@) {
        if t.skip(1) == new_version {
            None
        } else {
            Some("~"@ + new_version)
        }
    } else if t == new_version || starts_with(t, ">"@) || starts_with(t, "<"@) {
        None
    } else {
        Some(new_version)
    }
}

/// The npm dependency specifier to write for `new_version` in place of `old_spec`.
pub fn compute_dependency_specifier(old_spec: &str, new_version: &str) -> (r: Option<String>)
    ensures
        opt_text(r) == dependency_specifier(old_spec@, new_version@),
{
    proof {
        reveal_strlit("workspace:");
        reveal_strlit("*");
    }
    let t = trim_chars(&chars_of(old_spec));
    let nv = chars_of(new_version);
    if t.len() == 0 {
        return Some(owned(new_version));
    }
    let ws = chars_of("workspace:");
    if starts_with_exec(&t, &ws) {
        let suffix = crate::text::slice(&t, 10, t.len());
        assert(suffix@ =~= t@.skip(10));
        if chars_eq(&suffix, &chars_of("*")) {
            return None;
        }
        if starts_with_exec(&suffix, &chars_of("^")) {
            return Some(join2("workspace:^", new_version));
        }
        if starts_with_exec(&suffix, &chars_of("~")) {
            return Some(join2("workspace:~", new_version));
        }
        return Some(join2("workspace:", new_version));
    }
    if chars_eq(&t, &chars_of("*")) || starts_with_exec(&t, &chars_of("file:"))
        || starts_with_exec(&t, &chars_of("link:")) || starts_with_exec(&t, &chars_of("npm:"))
        || starts_with_exec(&t, &chars_of("git:")) || starts_with_exec(&t, &chars_of("http:"))
        || starts_with_exec(&t, &chars_of("https:")) {
        return None;
    }
    if starts_with_exec(&t, &chars_of("^")) || starts_with_exec(&t, &chars_of("~")) {
        let caret = starts_with_exec(&t, &chars_of("^"));
        let rest = crate::text::slice(&t, 1, t.len());
        assert(rest@ =~= t@.skip(1));
        if chars_eq(&rest, &nv) {
            return None;
        }
        return Some(
            if caret {
                join2("^", new_version)
            } else {
                join2("~", new_version)
            },
        );
    }
    if chars_eq(&t, &nv) || starts_with_exec(&t, &chars_of(">")) || starts_with_exec(
        &t,
        &chars_of("<"),
    ) {
        return None;
    }
    Some(owned(new_version))
}

/// One or two dot-separated runs of ASCII digits, read as numbers.
pub open spec fn numeric_shorthand(value: Seq<char>) -> Option<Seq<u64>> {
    let parts = split(value, seq!['.']);
    if parts.len() == 1 {
        if parts[0].len() > 0 && all_digits(parts[0]) && parse_u64(parts[0]) is Some {
            Some(seq![parse_u64(parts[0])->0])
        } else {
            None
        }
    } else if parts.len() == 2 {
        if parts[0].len() > 0 && all_digits(parts[0]) && parse_u64(parts[0]) is Some
            && parts[1].len() > 0 && all_digits(parts[1]) && parse_u64(parts[1]) is Some {
            Some(seq![parse_u64(parts[0])->0, parse_u64(parts[1])->0])
        } else {
            None
        }
    } else {
        None
    }
}

/// A non-empty run of digits whose value is `x`.
pub open spec fn numeric_piece(s: Seq<char>, x: u64) -> bool {
    s.len() > 0 && all_digits(s) && parse_u64(s) == Some(x)
}

fn digits_only(v: &Vec<char>) -> (r: bool)
    ensures
        r == (v@.len() > 0 && all_digits(v@)),
{
    if v.len() == 0 {
        return false;
    }
    let mut i: usize = 0;
    while i < v.len()
        invariant
            i <= v.len(),
            forall|j: int| 0 <= j < i ==> crate::text::is_digit(#[trigger] v@[j]),
        decreases v.len() - i,
    {
        if !crate::text::char_is_digit(v[i]) {
            return false;
        }
        i += 1;
    }
    true
}

/// Read `major` or `major.minor` written with digits only.
pub fn parse_numeric_shorthand(value: &str) -> (r: Option<Vec<u64>>)
    ensures
        match numeric_shorthand(value@) {
            Some(s) => r matches Some(v) && v@ == s,
            None => r is None,
        },
{
    let dot = vec!['.'];
    assert(dot@ =~= seq!['.']);
    let parts = split_exec(&chars_of(value), &dot);
    let ghost p = views(parts@);
    if parts.len() == 0 || parts.len() > 2 {
        return None;
    }
    let mut out: Vec<u64> = Vec::new();
    let mut i: usize = 0;
    while i < parts.len()
        invariant
            i <= parts.len() <= 2,
            1 <= parts.len(),
            p == views(parts@),
            p == split(value@, seq!['.']),
            out@.len() == i,
            forall|j: int| 0 <= j < i ==> numeric_piece(p[j], #[trigger] out@[j]),
        decreases parts.len() - i,
    {
        assert(p[i as int] == parts@[i as int]@);
        if !digits_only(&parts[i]) {
            return None;
        }
        let x = match parse_u64_exec(&parts[i]) {
            Some(x) => x,
            None => return None,
        };
        let ghost before = out@;
        out.push(x);
        assert(out@ =~= before.push(x));
        assert(out@[i as int] == x);
        assert(numeric_piece(p[i as int], x));
        i += 1;
    }
    if parts.len() == 1 {
        assert(out@ =~= seq![out@[0]]);
    } else {
        assert(out@ =~= seq![out@[0], out@[1]]);
    }
    Some(out)
}

/// The version to write for a workspace dependency currently at `existing`:
/// a full version is replaced by `new_version`; a `major` or `major.minor`
/// shorthand keeps its precision; `*` and anything else stay (`None`), as
/// does a value that would not change.
pub open spec fn workspace_dependency_version(existing: Seq<char>, new_version: Seq<char>) -> Option<
    Seq<char>,
> {
    let t = trim(existing);
    if t == "*"@ {
        None
    } else if semver_version(t) is Ok {
        if t == new_version {
            None
        } else {
            Some(new_version)
        }
    } else {
        match numeric_shorthand(t) {
            None => None,
            Some(sh) => if !semver_req_parses(t) {
                None
            } else {
                match semver_version(new_version) {
                    Err(_) => None,
                    Ok(p) => {
                        let resolved = if sh.len() == 1 {
                            crate::version::decimal(p.0 as int)
                        } else {
                            crate::version::decimal(p.0 as int) + "."@ + crate::version::decimal(
                                p.1 as int,
                            )
                        };
                        if resolved == t {
                            None
                        } else {
                            Some(resolved)
                        }
                    },
                }
            },
        }
    }
}

/// The version to write for a workspace dependency currently at `existing`.
pub fn compute_workspace_dependency_version(existing: &str, new_version: &str) -> (r: Option<String>)
    ensures
        opt_text(r) == workspace_dependency_version(existing@, new_version@),
{
    proof {
        reveal_strlit("*");
    }
    let t = string_of(&trim_chars(&chars_of(existing)));
    if chars_eq(&chars_of(t.as_str()), &chars_of("*")) {
        return None;
    }
    if parse_semver(t.as_str()).is_ok() {
        if chars_eq(&chars_of(t.as_str()), &chars_of(new_version)) {
            return None;
        }
        return Some(owned(new_version));
    }
    let sh = match parse_numeric_shorthand(t.as_str()) {
        Some(s) => s,
        None => return None,
    };
    if parse_semver_req(t.as_str()).is_none() {
        return None;
    }
    let parsed = match parse_semver(new_version) {
        Ok(p) => p,
        Err(_) => return None,
    };
    let major = crate::version::decimal_string(parsed.major());
    let resolved = if sh.len() == 1 {
        major
    } else {
        let minor = crate::version::decimal_string(parsed.minor());
        crate::text::join3(major.as_str(), ".", minor.as_str())
    };
    if chars_eq(&chars_of(resolved.as_str()), &chars_of(t.as_str())) {
        None
    } else {
        Some(resolved)
    }
}

/// A dependency written as a plain version or range of its own (not empty,
/// not `*`, no `workspace:`, `file:`, `link:`, `npm:`, `git:`, `http:` or
/// `https:` form, no `^`, `~` or comparison operator) that differs from the
/// released version is rewritten to exactly that version.
pub proof fn law_plain_specifier_takes_new_version(old: Seq<char>, new_version: Seq<char>)
    requires
        trim(old).len() > 0,
        trim(old) != "*"@,
        !starts_with(trim(old), "workspace:"@),
        !starts_with(trim(old), "file:"@),
        !starts_with(trim(old), "link:"@),
        !starts_with(trim(old), "npm:"@),
        !starts_with(trim(old), "git:"@),
        !starts_with(trim(old), "http:"@),
        !starts_with(trim(old), "https:"@),
        !starts_with(trim(old), "^"@),
        !starts_with(trim(old), "~"@),
        !starts_with(trim(old), ">"@),
        !starts_with(trim(old), "<"@),
        trim(old) != new_version,
    ensures
        dependency_specifier(old, new_version) == Some(new_version),
{
}

/// A `^` or `~` range on another version keeps its operator and takes the
/// released version.
pub proof fn law_range_operator_kept(old: Seq<char>, new_version: Seq<char>)
    requires
        starts_with(trim(old), "^"@) || starts_with(trim(old), "~"@),
        trim(old).skip(1) != new_version,
    ensures
        dependency_specifier(old, new_version) == Some(seq![trim(old)[0]] + new_version),
{
    reveal_strlit("^");
    reveal_strlit("~");
    reveal_strlit("workspace:");
    reveal_strlit("*");
    reveal_strlit("file:");
    reveal_strlit("link:");
    reveal_strlit("npm:");
    reveal_strlit("git:");
    reveal_strlit("http:");
    reveal_strlit("https:");
    let t = trim(old);
    assert(t.take(1)[0] == t[0]);
    if starts_with(t, "workspace:"@) {
        assert(t.take(10)[0] == t[0]);
    }
    if starts_with(t, "file:"@) {
        assert(t.take(5)[0] == t[0]);
    }
    if starts_with(t, "link:"@) {
        assert(t.take(5)[0] == t[0]);
    }
    if starts_with(t, "npm:"@) {
        assert(t.take(4)[0] == t[0]);
    }
    if starts_with(t, "git:"@) {
        assert(t.take(4)[0] == t[0]);
    }
    if starts_with(t, "http:"@) {
        assert(t.take(5)[0] == t[0]);
    }
    if starts_with(t, "https:"@) {
        assert(t.take(6)[0] == t[0]);
    }
    assert(t != "*"@);
    assert(seq!['^'] =~= "^"@);
    assert(seq!['~'] =~= "~"@);
}

/// A `workspace:` specifier keeps its protocol and operator: `workspace:*`
/// stays as it is; `workspace:^…` and `workspace:~…` take the released
/// version after their operator; any other `workspace:` form takes it
/// plainly.
pub proof fn law_workspace_protocol_kept(old: Seq<char>, new_version: Seq<char>)
    requires
        starts_with(trim(old), "workspace:"@),
    ensures
        ({
            let suffix = trim(old).skip(10);
            dependency_specifier(old, new_version) == if suffix == "*"@ {
                None
            } else if starts_with(suffix, "^"@) {
                Some("workspace:^"@ + new_version)
            } else if starts_with(suffix, "~"@) {
                Some("workspace:~"@ + new_version)
            } else {
                Some("workspace:"@ + new_version)
            }
        }),
{
    reveal_strlit("workspace:");
    assert(trim(old).len() >= 10);
}

/// Specifiers that do not name a version of the registry stay as written
/// (`*`, `file:`, `link:`, `npm:` aliases, `git:` and `http(s):` URLs), and
/// so do comparison ranges (`>…`, `<…`) and a specifier already equal to
/// the released version.
pub proof fn law_non_version_specifiers_kept(old: Seq<char>, new_version: Seq<char>)
    requires
        ({
            let t = trim(old);
            ||| t == "*"@
            ||| starts_with(t, "file:"@)
            ||| starts_with(t, "link:"@)
            ||| starts_with(t, "npm:"@)
            ||| starts_with(t, "git:"@)
            ||| starts_with(t, "http:"@)
            ||| starts_with(t, "https:"@)
            ||| starts_with(t, ">"@)
            ||| starts_with(t, "<"@)
            ||| (t == new_version && t.len() > 0 && !starts_with(t, "^"@) && !starts_with(t, "~"@) && !starts_with(
                t,
                "workspace:"@,
            ))
        }),
    ensures
        dependency_specifier(old, new_version) is None,
{
    reveal_strlit("^");
    reveal_strlit("~");
    reveal_strlit("workspace:");
    reveal_strlit("*");
    reveal_strlit("file:");
    reveal_strlit("link:");
    reveal_strlit("npm:");
    reveal_strlit("git:");
    reveal_strlit("http:");
    reveal_strlit("https:");
    reveal_strlit(">");
    reveal_strlit("<");
    let t = trim(old);
    if t.len() > 0 {
        assert(t.take(1)[0] == t[0]);
        if starts_with(t, "workspace:"@) {
            assert(t.take(10)[0] == t[0]);
        }
        if starts_with(t, "file:"@) || starts_with(t, "link:"@) || starts_with(t, "http:"@) {
            assert(t.take(5)[0] == t[0]);
        }
        if starts_with(t, "npm:"@) || starts_with(t, "git:"@) {
            assert(t.take(4)[0] == t[0]);
        }
        if starts_with(t, "https:"@) {
            assert(t.take(6)[0] == t[0]);
        }
        if starts_with(t, ">"@) || starts_with(t, "<"@) {
            assert(t.take(1)[0] == t[0]);
        }
        if t == "*"@ {
            assert(t[0] == '*');
        }
    }
}

/// An empty specifier takes the released version.
pub proof fn law_empty_specifier_takes_new_version(old: Seq<char>, new_version: Seq<char>)
    requires
        trim(old).len() == 0,
    ensures
        dependency_specifier(old, new_version) == Some(new_version),
{
}

} // verus!
