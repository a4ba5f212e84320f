//! rebar3 (Erlang) publishing conventions.
use crate::npm::{flag_given, has_flag};
use crate::publish::arg_views;
use crate::errors::SampoError;
use crate::text::{chars_of, join3, owned, rfind, rfind_exec, slice, string_of};
use vstd::prelude::*;

verus! {

/// The arguments of `rebar3 hex publish`: a dry run when asked, confirmation
/// and the public `hexpm` repository unless the user already gave them, then
/// the user's arguments.
pub open spec fn rebar3_publish_args(dry_run: bool, extra: Seq<String>) -> Seq<Seq<char>> {
    seq!["hex"@, "publish"@] + (if dry_run && !flag_given(extra, "--dry-run"@) {
        seq!["--dry-run"@]
    } else {
        seq![]
    }) + (if !flag_given(extra, "--yes"@) && !flag_given(extra, "-y"@) {
        seq!["--yes"@]
    } else {
        seq![]
    }) + (if !flag_given(extra, "--repo"@) && !flag_given(extra, "-r"@) {
        seq!["--repo"@, "hexpm"@]
    } else {
        seq![]
    }) + arg_views(extra)
}

/// The arguments to run `rebar3` with to publish a package.
pub fn publish_args(dry_run: bool, extra_args: &[String]) -> (r: Vec<String>)
    ensures
        arg_views(r@) == rebar3_publish_args(dry_run, extra_args@),
{
    let mut args: Vec<String> = Vec::new();
    args.push(owned("hex"));
    args.push(owned("publish"));
    let ghost a = seq!["hex"@, "publish"@];
    assert(arg_views(args@) =~= a);
    if dry_run && !has_flag(extra_args, "--dry-run") {
        args.push(owned("--dry-run"));
    }
    let ghost b = a + (if dry_run && !flag_given(extra_args@, "--dry-run"@) {
        seq!["--dry-run"@]
    } else {
        seq![]
    });
    assert(arg_views(args@) =~= b);
    if !has_flag(extra_args, "--yes") && !has_flag(extra_args, "-y") {
        args.push(owned("--yes"));
    }
    let ghost c = b + (if !flag_given(extra_args@, "--yes"@) && !flag_given(extra_args@, "-y"@) {
        seq!["--yes"@]
    } else {
        seq![]
    });
    assert(arg_views(args@) =~= c);
    if !has_flag(extra_args, "--repo") && !has_flag(extra_args, "-r") {
        args.push(owned("--repo"));
        args.push(owned("hexpm"));
    }
    let ghost d = c + (if !flag_given(extra_args@, "--repo"@) && !flag_given(extra_args@, "-r"@) {
        seq!["--repo"@, "hexpm"@]
    } else {
        seq![]
    });
    assert(arg_views(args@) =~= d);
    let mut i: usize = 0;
    while i < extra_args.len()
        invariant
            i <= extra_args.len(),
            arg_views(args@) == d + arg_views(extra_args@.take(i as int)),
        decreases extra_args.len() - i,
    {
        let ghost before = args@;
        args.push(owned(extra_args[i].as_str()));
        assert(arg_views(extra_args@.take(i + 1)) =~= arg_views(extra_args@.take(i as int)).push(
            extra_args@[i as int]@,
        ));
        assert(arg_views(args@) =~= arg_views(before).push(extra_args@[i as int]@));
        i += 1;
    }
    assert(extra_args@.take(extra_args.len() as int) =~= extra_args@);
    args
}

/// The directory holding `path`: the text before its last `/`, empty for
/// a bare name, none for the empty path.
pub open spec fn parent_text(path: Seq<char>) -> Option<Seq<char>> {
    if path.len() == 0 {
        None
    } else {
        match rfind(path, seq!['/']) {
            Some(i) => Some(path.take(i)),
            None => Some(seq![]),
        }
    }
}

fn parent_of(path: &Vec<char>) -> (r: Option<Vec<char>>)
    ensures
        match parent_text(path@) {
            Some(p) => r matches Some(x) && x@ == p,
            None => r is None,
        },
{
    if path.len() == 0 {
        return None;
    }
    let slash = vec!['/'];
    assert(slash@ =~= seq!['/']);
    match rfind_exec(path, &slash) {
        Some(i) => {
            proof {
                crate::text::lemma_rfind_from(path@, seq!['/'], (path.len() - 1) as int);
            }
            let head = slice(path, 0, i);
            assert(head@ =~= path@.take(i as int));
            Some(head)
        },
        None => {
            let none: Vec<char> = Vec::new();
            assert(none@ =~= Seq::<char>::empty());
            Some(none)
        },
    }
}

/// The application an `.app.src` manifest belongs to: the directory above
/// the one holding it (`src`); a manifest without that ancestry cannot be
/// published.
pub fn application_root(manifest_path: &str) -> (r: Result<String, SampoError>)
    ensures
        match parent_text(manifest_path@) {
            Some(d) => match parent_text(d) {
                Some(root) => r matches Ok(x) && x@ == root,
                None => r matches Err(SampoError::Publish(m)) && m@ == "Manifest "@ + manifest_path@
                    + " is not inside an application's src directory"@,
            },
            None => r matches Err(SampoError::Publish(m)) && m@ == "Manifest "@ + manifest_path@
                + " is not inside an application's src directory"@,
        },
{
    let refusal = join3("Manifest ", manifest_path, " is not inside an application's src directory");
    match parent_of(&chars_of(manifest_path)) {
        Some(d) => match parent_of(&d) {
            Some(root) => Ok(string_of(&root)),
            None => Err(SampoError::Publish(refusal)),
        },
        None => Err(SampoError::Publish(refusal)),
    }
}

} // verus!
