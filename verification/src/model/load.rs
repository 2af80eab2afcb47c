//! What loading a module directory decides once its `module.toml` is read.
use vstd::prelude::*;

use crate::error::{MoiError, MoiErrorView};
use crate::model::module::{Module, ModuleView};
use crate::path::join;
use crate::text::opt_str_view;

verus! {

/// The definition file of a module directory.
pub open spec fn manifest_of(module_dir: Seq<char>) -> Seq<char> {
    join(module_dir, "module.toml"@)
}

/// What loading decides: the module's name must be its directory's name.
pub open spec fn directory_check(
    name: Seq<char>,
    dir_name: Option<Seq<char>>,
    manifest: Seq<char>,
) -> Result<(), MoiErrorView> {
    match dir_name {
        None => Err(MoiErrorView::Config("invalid module directory name"@)),
        Some(d) => if name == d {
            Ok(())
        } else {
            Err(
                MoiErrorView::Config(
                    manifest + ": name must match directory name ("@ + d + ")"@,
                ),
            )
        },
    }
}

/// The definition file of a module directory: its `module.toml`.
pub fn manifest_path(module_dir: &str) -> (s: String)
    ensures
        s@ == manifest_of(module_dir@),
{
    crate::path::join_path(module_dir, "module.toml")
}

/// The module read from `manifest`, once its name is checked against its
/// directory's name (`None` when that name is not valid text), with the
/// directory recorded.
pub fn finish_loaded_module(
    module: Module,
    module_dir: String,
    dir_name: Option<&str>,
    manifest: &str,
) -> (r: Result<Module, MoiError>)
    ensures
        match directory_check(module@.name, opt_str_view(dir_name), manifest@) {
            Ok(()) => r matches Ok(m) && m@ == (ModuleView { path: module_dir@, ..module@ }),
            Err(e) => r matches Err(x) && x@ == e,
        },
{
    match dir_name {
        None => Err(MoiError::config(crate::text::owned("invalid module directory name"))),
        Some(d) => {
            if !crate::text::str_eq(module.name().as_str(), d) {
                let mut message = crate::text::concat(manifest, ": name must match directory name (");
                message.push_str(d);
                message.push_str(")");
                return Err(MoiError::config(message));
            }
            let mut module = module;
            module.set_path(module_dir);
            Ok(module)
        },
    }
}

/// The error of an environment without a modules directory.
pub fn missing_modules_dir(dir: &str) -> (e: MoiError)
    ensures
        e@ == MoiErrorView::Config("modules directory not found: "@ + dir@),
{
    MoiError::config(crate::text::concat("modules directory not found: ", dir))
}

} // verus!
