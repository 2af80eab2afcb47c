//! How much the program reports: the levels of diagnostics, and the
//! directives that select what goes to standard output, standard error and
//! the log file.
use vstd::prelude::*;

use crate::os_release::{lowercase, trim_ws};

verus! {

/// The filter of a level, as `tracing` defines it.
#[verifier::external_type_specification]
#[verifier::external_body]
pub struct ExLevelFilter(::tracing::level_filters::LevelFilter);

/// The filter of events that `tracing_subscriber` builds from directives.
#[verifier::external_type_specification]
#[verifier::external_body]
pub struct ExEnvFilter(::tracing_subscriber::EnvFilter);

/// A level of diagnostics.
#[derive(Debug, Clone, Copy, PartialEq, Eq, Structural)]
pub enum TracingLevel {
    Error,
    Warn,
    Info,
    Debug,
    Trace,
}

/// The name of a level.
pub open spec fn level_name(l: TracingLevel) -> Seq<char> {
    match l {
        TracingLevel::Error => "error"@,
        TracingLevel::Warn => "warn"@,
        TracingLevel::Info => "info"@,
        TracingLevel::Debug => "debug"@,
        TracingLevel::Trace => "trace"@,
    }
}

/// The name of a level in capitals, as `tracing` shows a level.
pub open spec fn level_upper_name(l: TracingLevel) -> Seq<char> {
    match l {
        TracingLevel::Error => "ERROR"@,
        TracingLevel::Warn => "WARN"@,
        TracingLevel::Info => "INFO"@,
        TracingLevel::Debug => "DEBUG"@,
        TracingLevel::Trace => "TRACE"@,
    }
}

/// The level a text names once trimmed and lowercased, or the error.
pub open spec fn level_from_text(s: Seq<char>) -> Result<TracingLevel, Seq<char>> {
    let t = lowercase(trim_ws(s));
    if t == "error"@ {
        Ok(TracingLevel::Error)
    } else if t == "warn"@ {
        Ok(TracingLevel::Warn)
    } else if t == "info"@ {
        Ok(TracingLevel::Info)
    } else if t == "debug"@ {
        Ok(TracingLevel::Debug)
    } else if t == "trace"@ {
        Ok(TracingLevel::Trace)
    } else {
        Err("Invalid tracing level: "@ + s)
    }
}

/// A name that `LevelFilter`'s `FromStr` accepts, among others.
pub open spec fn level_filter_name(s: Seq<char>) -> bool {
    s == "error"@ || s == "warn"@ || s == "info"@ || s == "debug"@ || s == "trace"@
}

/// The filter that `LevelFilter`'s `FromStr` gives for a text.
pub uninterp spec fn parsed_level_filter(text: Seq<char>) -> Option<::tracing::level_filters::LevelFilter>;

/// `LevelFilter`'s `FromStr`: a number from 0 to 5, a level name or `off` in
/// any case gives its filter, anything else an error. The contract names the
/// result `parsed_level_filter` of the text and states that each of the five
/// lowercase level names parses, to a filter that is not the one of `off`
/// and not the one of another of the five names.
#[verifier::external_body]
fn level_filter_from_str(text: &str) -> (r: Option<::tracing::level_filters::LevelFilter>)
    ensures
        r == parsed_level_filter(text@),
        level_filter_name(text@) ==> r is Some,
        level_filter_name(text@) ==> r != parsed_level_filter("off"@),
        level_filter_name(text@) ==> forall|t: Seq<char>|
            #![trigger parsed_level_filter(t)]
            level_filter_name(t) && t != text@ ==> r != parsed_level_filter(t),
{
    text.parse::<::tracing::level_filters::LevelFilter>().ok()
}

/// `EnvFilter::new`: the filter of the directives, invalid ones ignored. What
/// the filter selects is not stated here, and the filter is not named as a
/// function of the directives: it holds hash maps seeded per process.
#[verifier::external_body]
fn env_filter(directives: &str) -> ::tracing_subscriber::EnvFilter {
    ::tracing_subscriber::EnvFilter::new(directives)
}

impl TracingLevel {
    /// The name of the level.
    pub fn as_str(self) -> (s: &'static str)
        ensures
            s@ == level_name(self),
    {
        match self {
            TracingLevel::Error => "error",
            TracingLevel::Warn => "warn",
            TracingLevel::Info => "info",
            TracingLevel::Debug => "debug",
            TracingLevel::Trace => "trace",
        }
    }

    /// The level named by a text, ignoring surrounding whitespace and case.
    pub fn parse(s: &str) -> (r: Result<TracingLevel, String>)
        ensures
            match level_from_text(s@) {
                Ok(l) => r matches Ok(x) && x == l,
                Err(e) => r matches Err(x) && x@ == e,
            },
    {
        let chars = crate::text::chars_of(s);
        let trimmed = crate::os_release::trim_chars(&chars);
        let text = crate::text::string_of(&trimmed);
        let t = crate::os_release::to_lowercase(text.as_str());
        let t = t.as_str();
        if crate::text::str_eq(t, "error") {
            Ok(TracingLevel::Error)
        } else if crate::text::str_eq(t, "warn") {
            Ok(TracingLevel::Warn)
        } else if crate::text::str_eq(t, "info") {
            Ok(TracingLevel::Info)
        } else if crate::text::str_eq(t, "debug") {
            Ok(TracingLevel::Debug)
        } else if crate::text::str_eq(t, "trace") {
            Ok(TracingLevel::Trace)
        } else {
            Err(crate::text::concat("Invalid tracing level: ", s))
        }
    }

    /// The `tracing` filter of the level: never the one of `off`, and a
    /// different one for each level.
    pub fn into_tracing_level_filter(self) -> (f: ::tracing::level_filters::LevelFilter)
        ensures
            parsed_level_filter(level_name(self)) == Some(f),
            parsed_level_filter("off"@) != Some(f),
            forall|l: TracingLevel| l != self ==> parsed_level_filter(level_name(l)) != Some(f),
    {
        proof {
            reveal_strlit("error");
            reveal_strlit("warn");
            reveal_strlit("info");
            reveal_strlit("debug");
            reveal_strlit("trace");
        }
        let r = level_filter_from_str(self.as_str());
        proof {
            assert forall|l: TracingLevel| l != self implies parsed_level_filter(level_name(l))
                != r by {
                assert(level_filter_name(level_name(l)));
                assert(level_name(l) != level_name(self)) by {
                    assert(level_name(l).len() != level_name(self).len() || level_name(l)[0]
                        != level_name(self)[0]);
                }
            }
        }
        r.unwrap()
    }
}

impl std::str::FromStr for TracingLevel {
    type Err = String;

    /// The level named by a text; see [`TracingLevel::parse`].
    fn from_str(s: &str) -> (r: Result<TracingLevel, String>)
        ensures
            match level_from_text(s@) {
                Ok(l) => r matches Ok(x) && x == l,
                Err(e) => r matches Err(x) && x@ == e,
            },
    {
        TracingLevel::parse(s)
    }
}

/// What is written to standard output: nothing when quiet; with `verbose`
/// diagnostics on standard error, one level more per `-v`.
#[derive(Debug, Clone, Copy)]
pub struct StdoutSettings {
    pub quiet: bool,
    pub verbose: u8,
}

/// The directives of standard output: the program's output at `info`, or
/// nothing when quiet.
pub open spec fn output_directives_spec(quiet: bool) -> Seq<char> {
    if quiet {
        "off"@
    } else {
        "off,moi::output=info"@
    }
}

/// The directives of standard error: nothing by default, `debug` with one
/// `-v` and `trace` with more, never the program's output.
pub open spec fn diagnostic_directives_spec(verbose: u8) -> Seq<char> {
    if verbose == 0 {
        "off"@
    } else if verbose == 1 {
        "debug,moi::output=off,hyper_util=off"@
    } else {
        "trace,moi::output=off"@
    }
}

/// The directives of the log file: nothing without a level; the level, and
/// below `trace` without `hyper_util`.
pub open spec fn file_directives_spec(level: Option<TracingLevel>) -> Seq<char> {
    match level {
        None => "off"@,
        Some(TracingLevel::Trace) => "TRACE"@,
        Some(l) => level_upper_name(l) + ",hyper_util=off"@,
    }
}

/// The directives of standard output.
pub fn output_directives(quiet: bool) -> (s: &'static str)
    ensures
        s@ == output_directives_spec(quiet),
{
    if quiet {
        "off"
    } else {
        "off,moi::output=info"
    }
}

/// The directives of standard error.
pub fn diagnostic_directives(verbose: u8) -> (s: &'static str)
    ensures
        s@ == diagnostic_directives_spec(verbose),
{
    if verbose == 0 {
        "off"
    } else if verbose == 1 {
        "debug,moi::output=off,hyper_util=off"
    } else {
        "trace,moi::output=off"
    }
}

/// Law: each `-v` shows more on standard error, up to two: nothing without
/// `-v`; `debug`, without `hyper_util`, for exactly one `-v`; and `trace`
/// for every count of two or more. The program's own output never goes to
/// standard error once anything is shown there.
pub proof fn lemma_verbosity_levels(verbose: u8)
    ensures
        verbose == 0 ==> diagnostic_directives_spec(verbose) == "off"@,
        verbose == 1 ==> diagnostic_directives_spec(verbose)
            == "debug,moi::output=off,hyper_util=off"@,
        verbose >= 2 ==> diagnostic_directives_spec(verbose) == "trace,moi::output=off"@,
        verbose >= 2 ==> diagnostic_directives_spec(verbose) == diagnostic_directives_spec(2),
{
}

fn upper_name(l: TracingLevel) -> (s: &'static str)
    ensures
        s@ == level_upper_name(l),
{
    match l {
        TracingLevel::Error => "ERROR",
        TracingLevel::Warn => "WARN",
        TracingLevel::Info => "INFO",
        TracingLevel::Debug => "DEBUG",
        TracingLevel::Trace => "TRACE",
    }
}

/// The directives of the log file.
pub fn file_directives(level: Option<TracingLevel>) -> (s: String)
    ensures
        s@ == file_directives_spec(level),
{
    match level {
        None => crate::text::owned("off"),
        Some(TracingLevel::Trace) => crate::text::owned("TRACE"),
        Some(l) => crate::text::concat(upper_name(l), ",hyper_util=off"),
    }
}

/// The filter of standard output.
pub fn output_filter(quiet: bool) -> ::tracing_subscriber::EnvFilter {
    env_filter(output_directives(quiet))
}

/// The filter of standard error.
pub fn diagnostic_filter(verbose: u8) -> ::tracing_subscriber::EnvFilter {
    env_filter(diagnostic_directives(verbose))
}

/// The filter of the log file.
pub fn filter_level(level: Option<TracingLevel>) -> ::tracing_subscriber::EnvFilter {
    let directives = file_directives(level);
    env_filter(directives.as_str())
}

} // verus!
