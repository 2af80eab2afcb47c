//! Copying a module's files into place: source, destination, mode, and how
//! the operation is described.
use vstd::prelude::*;

use crate::error::{MoiError, MoiErrorView};
use crate::exec::dir::{mode_suffix, mode_suffix_text};
use crate::model::file::File;
use crate::model::mode::Mode;
use crate::model::module::Module;
use crate::model::platform_filter::filter_label;
use crate::path::{expand_home_spec, join};
use crate::text::opt_str_view;

verus! {

/// A file to copy.
#[derive(Debug)]
pub struct FileOperation {
    src: String,
    dst: String,
    platform_label: &'static str,
    mode: Option<Mode>,
}

/// The abstract value of a [`FileOperation`].
pub struct FileOperationView {
    pub src: Seq<char>,
    pub dst: Seq<char>,
    pub label: Seq<char>,
    pub mode: Option<Mode>,
}

impl View for FileOperation {
    type V = FileOperationView;

    closed spec fn view(&self) -> FileOperationView {
        FileOperationView {
            src: self.src@,
            dst: self.dst@,
            label: self.platform_label@,
            mode: self.mode,
        }
    }
}

/// The error of a file source that is not a regular file.
pub open spec fn missing_file_message(module_name: Seq<char>, src: Seq<char>) -> Seq<char> {
    module_name + ": file source not found: "@ + src
}

/// What `FileOperation::resolve` decides: the source inside the module's
/// directory must be a regular file, and the destination has `~` expanded.
pub open spec fn file_operation_spec(
    module_name: Seq<char>,
    module_dir: Seq<char>,
    file: crate::model::file::FileView,
    home: Option<Seq<char>>,
    source_is_file: bool,
) -> Result<FileOperationView, MoiErrorView> {
    let src = join(module_dir, file.src);
    if !source_is_file {
        Err(MoiErrorView::Config(missing_file_message(module_name, src)))
    } else {
        match expand_home_spec(file.dst, home) {
            Err(e) => Err(e),
            Ok(dst) => Ok(
                FileOperationView { src, dst, label: filter_label(file.platform), mode: file.mode },
            ),
        }
    }
}

/// The line that describes copying the file.
pub open spec fn file_description(op: FileOperationView) -> Seq<char> {
    "file"@ + op.label + " "@ + op.src + " -> "@ + op.dst + mode_suffix(op.mode)
}

impl FileOperation {
    /// Where the source of a `[[files]]` entry is: its `src` in the module's
    /// directory.
    pub fn source_path(module: &Module, file: &File) -> (s: String)
        ensures
            s@ == join(module@.path, file@.src),
    {
        crate::path::join_path(module.path(), file.src())
    }

    /// The operation for a `[[files]]` entry; `source_is_file` tells whether
    /// [`FileOperation::source_path`] is a regular file.
    pub fn resolve(module: &Module, file: &File, home: Option<&str>, source_is_file: bool) -> (r:
        Result<FileOperation, MoiError>)
        ensures
            match file_operation_spec(
                module@.name,
                module@.path,
                file@,
                opt_str_view(home),
                source_is_file,
            ) {
                Ok(op) => r matches Ok(x) && x@ == op,
                Err(e) => r matches Err(x) && x@ == e,
            },
    {
        let src = Self::source_path(module, file);
        if !source_is_file {
            let mut message = crate::text::concat(module.name().as_str(), ": file source not found: ");
            message.push_str(src.as_str());
            return Err(MoiError::config(message));
        }
        let dst = crate::path::expand_home(file.dst(), home)?;
        Ok(FileOperation { src, dst, platform_label: file.platform().label(), mode: file.mode() })
    }

    /// The line that describes the operation.
    pub fn describe(&self) -> (s: String)
        ensures
            s@ == file_description(self@),
    {
        let mut s = crate::text::concat("file", self.platform_label);
        s.push_str(" ");
        s.push_str(self.src.as_str());
        s.push_str(" -> ");
        s.push_str(self.dst.as_str());
        s.push_str(mode_suffix_text(self.mode).as_str());
        s
    }

    /// The file to copy.
    pub fn src(&self) -> (s: &str)
        ensures
            s@ == self@.src,
    {
        self.src.as_str()
    }

    /// Where the file is copied to.
    pub fn dst(&self) -> (s: &str)
        ensures
            s@ == self@.dst,
    {
        self.dst.as_str()
    }

    /// The mode to give the copy.
    pub fn mode(&self) -> (m: Option<Mode>)
        ensures
            m == self@.mode,
    {
        self.mode
    }
}

} // verus!
