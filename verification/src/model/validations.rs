//! The checks that module definitions place on paths and strings.
use vstd::prelude::*;

use crate::path::{has_parent_component, is_absolute};

verus! {

/// The error of a path that would need shell variable expansion.
pub open spec fn shell_expansion_message(where_: Seq<char>) -> Seq<char> {
    where_ + ": shell variable expansion is not supported"@
}

/// The error of an empty path.
pub open spec fn empty_path_message(where_: Seq<char>) -> Seq<char> {
    where_ + ": must be a non-empty path"@
}

/// The error of a path that leaves the module directory.
pub open spec fn not_module_relative_message(where_: Seq<char>) -> Seq<char> {
    where_ + ": must be module-relative and must not contain .."@
}

/// The error of an empty string.
pub open spec fn empty_string_message(where_: Seq<char>) -> Seq<char> {
    where_ + ": must be a non-empty string"@
}

/// What `no_shell_expansion` decides.
pub open spec fn no_shell_expansion_spec(path: Seq<char>, where_: Seq<char>) -> Result<(), Seq<char>> {
    if path.contains('$') {
        Err(shell_expansion_message(where_))
    } else {
        Ok(())
    }
}

/// What `path_string` decides.
pub open spec fn path_string_spec(path: Seq<char>, where_: Seq<char>) -> Result<(), Seq<char>> {
    if path.len() == 0 {
        Err(empty_path_message(where_))
    } else {
        no_shell_expansion_spec(path, where_)
    }
}

/// What `module_relative_path` decides.
pub open spec fn module_relative_path_spec(path: Seq<char>, where_: Seq<char>) -> Result<
    (),
    Seq<char>,
> {
    match path_string_spec(path, where_) {
        Err(e) => Err(e),
        Ok(()) => if is_absolute(path) || has_parent_component(path) {
            Err(not_module_relative_message(where_))
        } else {
            Ok(())
        },
    }
}

/// What `non_empty_string` decides.
pub open spec fn non_empty_string_spec(value: Seq<char>, where_: Seq<char>) -> Result<(), Seq<char>> {
    if value.len() == 0 {
        Err(empty_string_message(where_))
    } else {
        Ok(())
    }
}

/// The view of a validation result.
pub open spec fn unit_result(r: Result<(), String>) -> Result<(), Seq<char>> {
    match r {
        Ok(()) => Ok(()),
        Err(e) => Err(e@),
    }
}

/// Rejects a path that contains `$`: shell variables are not expanded.
pub fn no_shell_expansion(path: &str, where_: &str) -> (r: Result<(), String>)
    ensures
        unit_result(r) == no_shell_expansion_spec(path@, where_@),
{
    if crate::text::has_char(path, '$') {
        return Err(crate::text::concat(where_, ": shell variable expansion is not supported"));
    }
    Ok(())
}

/// Rejects an empty path and one that needs shell expansion.
pub fn path_string(path: &str, where_: &str) -> (r: Result<(), String>)
    ensures
        unit_result(r) == path_string_spec(path@, where_@),
{
    if path.is_empty() {
        return Err(crate::text::concat(where_, ": must be a non-empty path"));
    }
    no_shell_expansion(path, where_)
}

/// Rejects a path that is not relative to the module directory.
pub fn module_relative_path(path: &str, where_: &str) -> (r: Result<(), String>)
    ensures
        unit_result(r) == module_relative_path_spec(path@, where_@),
{
    path_string(path, where_)?;
    if crate::path::path_is_absolute(path) || crate::path::path_has_parent_component(path) {
        return Err(
            crate::text::concat(where_, ": must be module-relative and must not contain .."),
        );
    }
    Ok(())
}

/// Rejects an empty string.
pub fn non_empty_string(value: &str, where_: &str) -> (r: Result<(), String>)
    ensures
        unit_result(r) == non_empty_string_spec(value@, where_@),
{
    if value.is_empty() {
        return Err(crate::text::concat(where_, ": must be a non-empty string"));
    }
    Ok(())
}

} // verus!
