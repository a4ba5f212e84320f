//! PyPI registry conventions.
use crate::text::{chars_of, string_of};
use vstd::prelude::*;

verus! {

/// What `str::to_lowercase` makes of `s`: its Unicode lower-case mapping.
pub uninterp spec fn unicode_lowercase(s: Seq<char>) -> Seq<char>;

/// `str::to_lowercase`.
#[verifier::external_body]
fn to_lowercase(s: &str) -> (r: String)
    ensures
        r@ == unicode_lowercase(s@),
{
    s.to_lowercase()
}

/// The name PyPI's JSON API knows a package by: lower case, with `_` and `.`
/// written as `-`.
pub open spec fn registry_name(s: Seq<char>) -> Seq<char> {
    unicode_lowercase(s).map_values(|c: char| if c == '_' || c == '.' { '-' } else { c })
}

/// Normalize a package name the way the registry's JSON API expects it.
pub fn normalize_package_name(name: &str) -> (r: String)
    ensures
        r@ == registry_name(name@),
{
    let low = chars_of(to_lowercase(name).as_str());
    let mut out: Vec<char> = Vec::new();
    let mut i: usize = 0;
    while i < low.len()
        invariant
            i <= low.len(),
            low@ == unicode_lowercase(name@),
            out@ == low@.take(i as int).map_values(
                |c: char| if c == '_' || c == '.' { '-' } else { c },
            ),
        decreases low.len() - i,
    {
        let c = low[i];
        out.push(if c == '_' || c == '.' { '-' } else { c });
        assert(low@.take(i + 1) =~= low@.take(i as int).push(c));
        i += 1;
    }
    assert(low@.take(low.len() as int) =~= low@);
    string_of(&out)
}

} // verus!
