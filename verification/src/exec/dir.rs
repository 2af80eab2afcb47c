//! Creating a module's directories: where, with which mode, and how the
//! operation is described.
use vstd::prelude::*;

use crate::error::{MoiError, MoiErrorView};
use crate::model::dir::Dir;
use crate::model::mode::{mode_text, Mode};
use crate::model::platform_filter::filter_label;
use crate::path::expand_home_spec;
use crate::text::opt_str_view;

verus! {

/// How a mode is shown after an operation: ` mode=` and four octal digits, or
/// nothing without a mode.
pub open spec fn mode_suffix(mode: Option<Mode>) -> Seq<char> {
    match mode {
        Some(m) => " mode="@ + mode_text(m.spec_value()),
        None => Seq::empty(),
    }
}

/// The text of [`mode_suffix`].
pub fn mode_suffix_text(mode: Option<Mode>) -> (s: String)
    ensures
        s@ == mode_suffix(mode),
{
    match mode {
        Some(m) => {
            let digits = m.to_string();
            crate::text::concat(" mode=", digits.as_str())
        },
        None => String::new(),
    }
}

/// A directory to create.
#[derive(Debug)]
pub struct DirOperation {
    path: String,
    platform_label: &'static str,
    mode: Option<Mode>,
}

/// The abstract value of a [`DirOperation`].
pub struct DirOperationView {
    pub path: Seq<char>,
    pub label: Seq<char>,
    pub mode: Option<Mode>,
}

impl View for DirOperation {
    type V = DirOperationView;

    closed spec fn view(&self) -> DirOperationView {
        DirOperationView { path: self.path@, label: self.platform_label@, mode: self.mode }
    }
}

/// The line that describes creating the directory.
pub open spec fn dir_description(op: DirOperationView) -> Seq<char> {
    "dir"@ + op.label + " "@ + op.path + mode_suffix(op.mode)
}

impl DirOperation {
    /// The operation for a `[[dirs]]` entry, its path with `~` expanded.
    pub fn resolve(dir: &Dir, home: Option<&str>) -> (r: Result<DirOperation, MoiError>)
        ensures
            match expand_home_spec(dir@.path, opt_str_view(home)) {
                Ok(p) => r matches Ok(op) && op@ == (DirOperationView {
                    path: p,
                    label: filter_label(dir@.platform),
                    mode: dir@.mode,
                }),
                Err(e) => r matches Err(x) && x@ == e,
            },
    {
        let path = crate::path::expand_home(dir.path(), home)?;
        Ok(DirOperation { path, platform_label: dir.platform().label(), mode: dir.mode() })
    }

    /// The line that describes the operation.
    pub fn describe(&self) -> (s: String)
        ensures
            s@ == dir_description(self@),
    {
        let mut s = crate::text::concat("dir", self.platform_label);
        s.push_str(" ");
        s.push_str(self.path.as_str());
        s.push_str(mode_suffix_text(self.mode).as_str());
        s
    }

    /// The directory to create.
    pub fn path(&self) -> (s: &str)
        ensures
            s@ == self@.path,
    {
        self.path.as_str()
    }

    /// The mode to give the directory.
    pub fn mode(&self) -> (m: Option<Mode>)
        ensures
            m == self@.mode,
    {
        self.mode
    }
}

} // verus!
