//! Paths are handled as text: joining, the checks module definitions place on
//! them, and the expansion of a leading `~`.
use vstd::prelude::*;

use crate::error::{MoiError, MoiErrorView};
use crate::text::starts_with;

verus! {

/// The path is absolute: it begins with `/`.
pub open spec fn is_absolute(p: Seq<char>) -> bool {
    p.len() > 0 && p[0] == '/'
}

/// Position `i` starts a path component that is exactly `..`.
pub open spec fn parent_component_at(p: Seq<char>, i: int) -> bool {
    &&& 0 <= i
    &&& i + 2 <= p.len()
    &&& p[i] == '.'
    &&& p[i + 1] == '.'
    &&& (i == 0 || p[i - 1] == '/')
    &&& (i + 2 == p.len() || p[i + 2] == '/')
}

/// Some component of the path is `..`.
pub open spec fn has_parent_component(p: Seq<char>) -> bool {
    exists|i: int| parent_component_at(p, i)
}

/// `base` joined with `rel`, as `Path::join` does on Unix: an absolute `rel`
/// replaces `base`, and a separator is inserted unless `base` is empty or
/// already ends with one.
pub open spec fn join(base: Seq<char>, rel: Seq<char>) -> Seq<char> {
    if is_absolute(rel) {
        rel
    } else if base.len() == 0 || base.last() == '/' {
        base + rel
    } else {
        base + seq!['/'] + rel
    }
}

/// The path with a leading `~` replaced by the home directory, or the error
/// when that is needed and no home directory is known.
pub open spec fn expand_home_spec(path: Seq<char>, home: Option<Seq<char>>) -> Result<
    Seq<char>,
    MoiErrorView,
> {
    if path == seq!['~'] || starts_with(path, seq!['~', '/']) {
        match home {
            None => Err(MoiErrorView::Config("HOME is not set"@)),
            Some(h) => if path == seq!['~'] {
                Ok(h)
            } else {
                Ok(join(h, path.skip(2)))
            },
        }
    } else {
        Ok(path)
    }
}

/// Whether the path is absolute.
pub fn path_is_absolute(p: &str) -> (r: bool)
    ensures
        r == is_absolute(p@),
{
    let v = crate::text::chars_of(p);
    v.len() > 0 && v[0] == '/'
}

/// Whether some component of the path is `..`.
pub fn path_has_parent_component(p: &str) -> (r: bool)
    ensures
        r == has_parent_component(p@),
{
    let v = crate::text::chars_of(p);
    let mut i: usize = 0;
    while i < v.len()
        invariant
            v@ == p@,
            i <= v.len(),
            forall|j: int| 0 <= j < i ==> !parent_component_at(p@, j),
        decreases v.len() - i,
    {
        if v.len() >= 2 && i <= v.len() - 2 && v[i] == '.' && v[i + 1] == '.' && (i == 0 || v[i - 1] == '/') && (
        i + 2 == v.len() || v[i + 2] == '/') {
            assert(parent_component_at(p@, i as int));
            return true;
        }
        i += 1;
    }
    assert forall|j: int| !parent_component_at(p@, j) by {
        if 0 <= j && j < v.len() {
        }
    }
    false
}

/// `base` joined with `rel`.
pub fn join_path(base: &str, rel: &str) -> (r: String)
    ensures
        r@ == join(base@, rel@),
{
    if path_is_absolute(rel) {
        return crate::text::owned(rel);
    }
    let b = crate::text::chars_of(base);
    if b.len() == 0 || b[b.len() - 1] == '/' {
        crate::text::concat(base, rel)
    } else {
        proof {
            reveal_strlit("/");
        }
        crate::text::concat3(base, "/", rel)
    }
}

/// The path with a leading `~` or `~/` replaced by the home directory.
pub fn expand_home(path: &str, home: Option<&str>) -> (r: Result<String, MoiError>)
    ensures
        crate::error::string_result(r) == expand_home_spec(path@, crate::text::opt_str_view(home)),
{
    let v = crate::text::chars_of(path);
    let is_tilde = v.len() == 1 && v[0] == '~';
    let has_tilde_prefix = v.len() >= 2 && v[0] == '~' && v[1] == '/';
    proof {
        if is_tilde {
            assert(path@ =~= seq!['~']);
        }
        if path@ == seq!['~'] {
            assert(v@[0] == '~');
        }
        if has_tilde_prefix {
            assert(path@.take(2) =~= seq!['~', '/']);
        }
        if starts_with(path@, seq!['~', '/']) {
            assert(path@.take(2)[0] == '~' && path@.take(2)[1] == '/');
        }
    }
    if !is_tilde && !has_tilde_prefix {
        return Ok(crate::text::owned(path));
    }
    match home {
        None => Err(MoiError::config(crate::text::owned("HOME is not set"))),
        Some(h) => {
            if is_tilde {
                Ok(crate::text::owned(h))
            } else {
                let mut rest: Vec<char> = Vec::new();
                let mut i: usize = 2;
                while i < v.len()
                    invariant
                        2 <= i <= v.len(),
                        rest@ == v@.subrange(2, i as int),
                    decreases v.len() - i,
                {
                    rest.push(v[i]);
                    i += 1;
                }
                assert(rest@ =~= path@.skip(2));
                let rest_s = crate::text::string_of(&rest);
                Ok(join_path(h, rest_s.as_str()))
            }
        },
    }
}

} // verus!
