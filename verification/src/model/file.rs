//! Files a module copies into place.
use vstd::prelude::*;

use crate::model::mode::Mode;
use crate::model::platform_filter::PlatformFilter;
use crate::model::validations::{module_relative_path_spec, path_string_spec};

verus! {

/// A `[[files]]` entry of a module.
#[derive(Debug)]
pub struct File {
    src: String,
    dst: String,
    platform: PlatformFilter,
    mode: Option<Mode>,
}

/// The abstract value of a [`File`].
pub struct FileView {
    pub src: Seq<char>,
    pub dst: Seq<char>,
    pub platform: PlatformFilter,
    pub mode: Option<Mode>,
}

/// What `File::new` decides about its paths.
pub open spec fn file_check(src: Seq<char>, dst: Seq<char>) -> Result<(), Seq<char>> {
    match module_relative_path_spec(src, "file src"@) {
        Err(e) => Err(e),
        Ok(()) => path_string_spec(dst, "file dst"@),
    }
}

impl View for File {
    type V = FileView;

    closed spec fn view(&self) -> FileView {
        FileView { src: self.src@, dst: self.dst@, platform: self.platform, mode: self.mode }
    }
}

impl File {
    /// A file entry whose source lies within the module and whose destination
    /// is non-empty and free of `$`.
    pub fn new(src: String, dst: String, platform: PlatformFilter, mode: Option<Mode>) -> (r: Result<
        File,
        String,
    >)
        ensures
            match r {
                Ok(f) => file_check(src@, dst@) == Ok::<(), Seq<char>>(()) && f@ == (FileView {
                    src: src@,
                    dst: dst@,
                    platform,
                    mode,
                }),
                Err(e) => file_check(src@, dst@) == Err::<(), Seq<char>>(e@),
            },
    {
        crate::model::validations::module_relative_path(src.as_str(), "file src")?;
        crate::model::validations::path_string(dst.as_str(), "file dst")?;
        Ok(File { src, dst, platform, mode })
    }

    /// The source file, relative to the module directory.
    pub fn src(&self) -> (s: &str)
        ensures
            s@ == self@.src,
    {
        self.src.as_str()
    }

    /// The destination file.
    pub fn dst(&self) -> (s: &str)
        ensures
            s@ == self@.dst,
    {
        self.dst.as_str()
    }

    /// The platforms the entry applies to.
    pub fn platform(&self) -> (f: PlatformFilter)
        ensures
            f == self@.platform,
    {
        self.platform
    }

    /// The mode to give the destination, if any.
    pub fn mode(&self) -> (m: Option<Mode>)
        ensures
            m == self@.mode,
    {
        self.mode
    }
}

} // verus!
