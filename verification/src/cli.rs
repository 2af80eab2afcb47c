//! The command line as the program reads it: global settings and output
//! flags, and the `plan` or `apply` command with its options.
use vstd::prelude::*;

use crate::config::SettingsOverrides;
use crate::error::{MoiError, MoiErrorView};
use crate::os_release::detect_spec;
use crate::platform::Platform;
use crate::text::{opt_str_view, opt_string_view};
use crate::util::tracing::StdoutSettings;

verus! {

/// A parsed command line.
#[derive(Debug)]
pub struct Cli {
    pub settings: SettingsArgs,
    pub output: OutputArgs,
    pub command: Command,
}

/// `--environment`, `--folder-name` and `--source`.
#[derive(Debug)]
pub struct SettingsArgs {
    pub environment: Option<String>,
    pub folder_name: Option<String>,
    pub source: Option<String>,
}

/// `--quiet` and the number of `-v`.
#[derive(Debug)]
pub struct OutputArgs {
    pub quiet: bool,
    pub verbose: u8,
}

/// The operation to perform.
#[derive(Debug)]
pub enum Command {
    /// Show planned operations without changing files.
    Plan(RunArgs),
    /// Apply planned operations.
    Apply(ApplyArgs),
}

/// The options of both commands.
#[derive(Debug)]
pub struct RunArgs {
    pub platform: PlatformArg,
    pub show_followups: bool,
    pub no_followups: bool,
    pub modules: Vec<String>,
}

/// The options of `apply`.
#[derive(Debug)]
pub struct ApplyArgs {
    pub run: RunArgs,
    pub ignore_unless: bool,
    pub upgrade_packages: bool,
}

/// `--platform`: detected, or given.
#[derive(Debug, Clone, Copy, PartialEq, Eq, Structural)]
pub enum PlatformArg {
    Auto,
    Debian,
    Arch,
}

/// The name of a `--platform` value.
pub open spec fn platform_arg_name(a: PlatformArg) -> Seq<char> {
    match a {
        PlatformArg::Auto => "auto"@,
        PlatformArg::Debian => "debian"@,
        PlatformArg::Arch => "arch"@,
    }
}

/// The platform a `--platform` value gives without detection.
pub open spec fn fixed_platform_spec(a: PlatformArg) -> Option<Platform> {
    match a {
        PlatformArg::Auto => None,
        PlatformArg::Debian => Some(Platform::Debian),
        PlatformArg::Arch => Some(Platform::Arch),
    }
}

/// The platform of a run: the given one, or the one `/etc/os-release`
/// names.
pub open spec fn resolve_platform_spec(a: PlatformArg, os_release: Option<Seq<char>>) -> Result<
    Platform,
    MoiErrorView,
> {
    match fixed_platform_spec(a) {
        Some(p) => Ok(p),
        None => detect_spec(os_release),
    }
}

/// What the follow-up flags ask: shown, hidden, or neither.
pub open spec fn followups_override_spec(show: bool, hide: bool) -> Option<bool> {
    if show {
        Some(true)
    } else if hide {
        Some(false)
    } else {
        None
    }
}

impl Cli {
    /// The output settings the command line asks for.
    pub fn stdout_settings(&self) -> (s: StdoutSettings)
        ensures
            s.quiet == self.output.quiet,
            s.verbose == self.output.verbose,
    {
        StdoutSettings { quiet: self.output.quiet, verbose: self.output.verbose }
    }
}

impl SettingsArgs {
    /// The settings given on the command line.
    pub fn overrides(&self) -> (o: SettingsOverrides)
        ensures
            opt_str_view(o.environment) == opt_string_view(self.environment),
            opt_str_view(o.folder_name) == opt_string_view(self.folder_name),
            opt_str_view(o.source) == opt_string_view(self.source),
    {
        SettingsOverrides {
            environment: as_str_option(&self.environment),
            folder_name: as_str_option(&self.folder_name),
            source: as_str_option(&self.source),
        }
    }
}

fn as_str_option(v: &Option<String>) -> (r: Option<&str>)
    ensures
        opt_str_view(r) == opt_string_view(*v),
{
    match v {
        Some(s) => Some(s.as_str()),
        None => None,
    }
}

impl Command {
    /// The options both commands have.
    pub fn run_args(&self) -> (r: &RunArgs)
        ensures
            match self {
                Command::Plan(a) => r == a,
                Command::Apply(a) => r == &a.run,
            },
    {
        match self {
            Command::Plan(args) => args,
            Command::Apply(args) => &args.run,
        }
    }
}

impl RunArgs {
    /// Whether follow-ups were asked to be shown (`Some(true)`) or hidden
    /// (`Some(false)`); `None` when neither flag is given.
    pub fn followups_override(&self) -> (r: Option<bool>)
        ensures
            r == followups_override_spec(self.show_followups, self.no_followups),
    {
        if self.show_followups {
            return Some(true);
        }
        if self.no_followups {
            return Some(false);
        }
        None
    }
}

impl PlatformArg {
    /// The name of the value, as it is written on the command line.
    pub fn name(self) -> (s: &'static str)
        ensures
            s@ == platform_arg_name(self),
    {
        match self {
            PlatformArg::Auto => "auto",
            PlatformArg::Debian => "debian",
            PlatformArg::Arch => "arch",
        }
    }

    /// The platform the value gives without detection.
    pub fn fixed_platform(self) -> (r: Option<Platform>)
        ensures
            r == fixed_platform_spec(self),
    {
        match self {
            PlatformArg::Auto => None,
            PlatformArg::Debian => Some(Platform::Debian),
            PlatformArg::Arch => Some(Platform::Arch),
        }
    }
}

/// The platform of a run: the one `--platform` gives, or, for `auto`, the
/// one `/etc/os-release` names (`os_release` is its content, `None` when it
/// is not a regular file; it is read only for `auto`).
pub fn resolve_platform(arg: PlatformArg, os_release: Option<&str>) -> (r: Result<
    Platform,
    MoiError,
>)
    ensures
        match resolve_platform_spec(arg, opt_str_view(os_release)) {
            Ok(p) => r matches Ok(x) && x == p,
            Err(e) => r matches Err(x) && x@ == e,
        },
{
    match arg.fixed_platform() {
        Some(p) => Ok(p),
        None => crate::os_release::detect(os_release),
    }
}

} // verus!
