//! The error type of the library and how it is reported.
use vstd::prelude::*;

use crate::text::signed_decimal;

verus! {

/// An error that stops a run.
#[derive(Debug)]
pub enum MoiError {
    /// A module definition, setting or other configuration problem.
    Config(String),
    /// A failed operation on a file system path.
    Io { path: String, message: String },
    /// A failed operation described by its message alone.
    IoMessage(String),
    /// A child process exited unsuccessfully with this code.
    CommandExit(i32),
    /// A TOML document that could not be read.
    Toml { path: String, message: String },
}

/// The abstract value of a [`MoiError`].
pub enum MoiErrorView {
    Config(Seq<char>),
    Io { path: Seq<char>, message: Seq<char> },
    IoMessage(Seq<char>),
    CommandExit(int),
    Toml { path: Seq<char>, message: Seq<char> },
}

impl View for MoiError {
    type V = MoiErrorView;

    open spec fn view(&self) -> MoiErrorView {
        match self {
            MoiError::Config(m) => MoiErrorView::Config(m@),
            MoiError::Io { path, message } => MoiErrorView::Io { path: path@, message: message@ },
            MoiError::IoMessage(m) => MoiErrorView::IoMessage(m@),
            MoiError::CommandExit(c) => MoiErrorView::CommandExit(*c as int),
            MoiError::Toml { path, message } => MoiErrorView::Toml {
                path: path@,
                message: message@,
            },
        }
    }
}

/// A configuration error with the given message.
pub open spec fn config_error(message: Seq<char>) -> MoiErrorView {
    MoiErrorView::Config(message)
}

/// The text an error is displayed as.
pub open spec fn error_text(e: MoiErrorView) -> Seq<char> {
    match e {
        MoiErrorView::Config(m) => m,
        MoiErrorView::Io { path, message } => path + ": "@ + message,
        MoiErrorView::IoMessage(m) => m,
        MoiErrorView::CommandExit(c) => "command failed with exit code "@ + signed_decimal(c),
        MoiErrorView::Toml { path, message } => path + ": invalid TOML: "@ + message,
    }
}

/// The process exit code a run that ended with this error reports.
pub open spec fn error_exit_code(e: MoiErrorView) -> int {
    match e {
        MoiErrorView::CommandExit(c) => c,
        _ => 1,
    }
}

/// The view of a result whose success value is a string.
pub open spec fn string_result(r: Result<String, MoiError>) -> Result<Seq<char>, MoiErrorView> {
    match r {
        Ok(s) => Ok(s@),
        Err(e) => Err(e@),
    }
}

impl MoiError {
    /// A configuration error.
    pub fn config(message: String) -> (e: MoiError)
        ensures
            e@ == config_error(message@),
    {
        MoiError::Config(message)
    }

    /// An error of an operation on `path`.
    pub fn io(path: String, message: String) -> (e: MoiError)
        ensures
            e@ == (MoiErrorView::Io { path: path@, message: message@ }),
    {
        MoiError::Io { path, message }
    }

    /// The error of a child process that exited unsuccessfully: its exit
    /// code, or 1 when it has none (killed by a signal).
    pub fn command_failed(code: Option<i32>) -> (e: MoiError)
        ensures
            e@ == MoiErrorView::CommandExit(
                match code {
                    Some(c) => c as int,
                    None => 1,
                },
            ),
    {
        match code {
            Some(c) => MoiError::CommandExit(c),
            None => MoiError::CommandExit(1),
        }
    }

    /// The text this error is displayed as.
    pub fn message(&self) -> (s: String)
        ensures
            s@ == error_text(self@),
    {
        match self {
            MoiError::Config(m) => m.clone(),
            MoiError::Io { path, message } => crate::text::concat3(path.as_str(), ": ", message.as_str()),
            MoiError::IoMessage(m) => m.clone(),
            MoiError::CommandExit(c) => {
                let code = crate::text::signed_decimal_string(*c);
                crate::text::concat("command failed with exit code ", code.as_str())
            },
            MoiError::Toml { path, message } => crate::text::concat3(
                path.as_str(),
                ": invalid TOML: ",
                message.as_str(),
            ),
        }
    }

    /// The exit code of the process when a run ends with this error: the
    /// child's code for a failed command, 1 otherwise.
    pub fn exit_code(&self) -> (code: i32)
        ensures
            code as int == error_exit_code(self@),
    {
        match self {
            MoiError::CommandExit(c) => *c,
            _ => 1,
        }
    }

    /// The line written to standard error when a run ends with this error.
    pub fn report_line(&self) -> (s: String)
        ensures
            s@ == "error: "@ + error_text(self@),
    {
        let m = self.message();
        crate::text::concat("error: ", m.as_str())
    }
}

} // verus!
