//! Directories a module creates.
use vstd::prelude::*;

use crate::model::mode::Mode;
use crate::model::platform_filter::PlatformFilter;
use crate::model::validations::path_string_spec;

verus! {

/// A `[[dirs]]` entry of a module.
#[derive(Debug)]
pub struct Dir {
    path: String,
    platform: PlatformFilter,
    mode: Option<Mode>,
}

/// The abstract value of a [`Dir`].
pub struct DirView {
    pub path: Seq<char>,
    pub platform: PlatformFilter,
    pub mode: Option<Mode>,
}

impl View for Dir {
    type V = DirView;

    closed spec fn view(&self) -> DirView {
        DirView { path: self.path@, platform: self.platform, mode: self.mode }
    }
}

impl Dir {
    /// A directory entry whose path is non-empty and free of `$`.
    pub fn new(path: String, platform: PlatformFilter, mode: Option<Mode>) -> (r: Result<Dir, String>)
        ensures
            match r {
                Ok(d) => path_string_spec(path@, "dir path"@) == Ok::<(), Seq<char>>(()) && d@ == (
                DirView { path: path@, platform, mode }),
                Err(e) => path_string_spec(path@, "dir path"@) == Err::<(), Seq<char>>(e@),
            },
    {
        crate::model::validations::path_string(path.as_str(), "dir path")?;
        Ok(Dir { path, platform, mode })
    }

    /// The directory to create.
    pub fn path(&self) -> (s: &str)
        ensures
            s@ == self@.path,
    {
        self.path.as_str()
    }

    /// The platforms the entry applies to.
    pub fn platform(&self) -> (f: PlatformFilter)
        ensures
            f == self@.platform,
    {
        self.platform
    }

    /// The mode to give the directory, if any.
    pub fn mode(&self) -> (m: Option<Mode>)
        ensures
            m == self@.mode,
    {
        self.mode
    }
}

} // verus!
