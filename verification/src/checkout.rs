//! Where a run reads the modules from: a local checkout for a `file://`
//! source, else a shallow clone of the source's branch.
use vstd::prelude::*;

use crate::path::join;
use crate::text::{opt_string_view, starts_with, strings_view};

verus! {

/// The local repository a source names: what follows `file://`.
pub open spec fn local_repository_spec(source: Seq<char>) -> Option<Seq<char>> {
    if starts_with(source, "file://"@) {
        Some(source.skip(7))
    } else {
        None
    }
}

/// The branch that is cloned: `MOI_BRANCH`, or `main`.
pub open spec fn clone_branch_spec(configured: Option<Seq<char>>) -> Seq<char> {
    match configured {
        Some(b) => b,
        None => "main"@,
    }
}

/// The arguments of `git` that clone the branch of the source into the
/// target directory, one commit deep.
pub open spec fn clone_arguments_spec(branch: Seq<char>, source: Seq<char>, target: Seq<char>) -> Seq<
    Seq<char>,
> {
    seq!["clone"@, "--depth"@, "1"@, "--branch"@, branch, source, target]
}

/// The local repository a `file://` source names, or `None` when the source
/// has to be cloned.
pub fn local_repository(source: &str) -> (r: Option<String>)
    ensures
        opt_string_view(r) == local_repository_spec(source@),
{
    proof {
        reveal_strlit("file://");
    }
    if !crate::text::has_prefix(source, "file://") {
        return None;
    }
    let v = crate::text::chars_of(source);
    let mut rest: Vec<char> = Vec::new();
    let mut i: usize = 7;
    while i < v.len()
        invariant
            7 <= i <= v.len(),
            v@ == source@,
            rest@ == v@.subrange(7, i as int),
        decreases v.len() - i,
    {
        rest.push(v[i]);
        i += 1;
        assert(rest@ =~= v@.subrange(7, i as int));
    }
    assert(rest@ =~= source@.skip(7));
    Some(crate::text::string_of(&rest))
}

/// The branch that is cloned: the configured one, or `main`.
pub fn clone_branch(configured: Option<String>) -> (b: String)
    ensures
        b@ == clone_branch_spec(opt_string_view(configured)),
{
    match configured {
        Some(b) => b,
        None => crate::text::owned("main"),
    }
}

/// The arguments of `git` that clone the branch of the source into `target`.
pub fn clone_arguments(branch: &str, source: &str, target: &str) -> (v: Vec<String>)
    ensures
        strings_view(v@) == clone_arguments_spec(branch@, source@, target@),
{
    let mut v: Vec<String> = Vec::new();
    v.push(crate::text::owned("clone"));
    v.push(crate::text::owned("--depth"));
    v.push(crate::text::owned("1"));
    v.push(crate::text::owned("--branch"));
    v.push(crate::text::owned(branch));
    v.push(crate::text::owned(source));
    v.push(crate::text::owned(target));
    assert(strings_view(v@) =~= clone_arguments_spec(branch@, source@, target@));
    v
}

/// The directory of an environment's modules:
/// `<repository>/<folder>/<environment>/modules`.
pub fn modules_dir(repository: &str, folder_name: &str, environment: &str) -> (s: String)
    ensures
        s@ == join(join(join(repository@, folder_name@), environment@), "modules"@),
{
    let a = crate::path::join_path(repository, folder_name);
    let b = crate::path::join_path(a.as_str(), environment);
    crate::path::join_path(b.as_str(), "modules")
}

} // verus!
