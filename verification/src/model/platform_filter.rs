//! Which platforms an entry of a module applies to.
use vstd::prelude::*;

use crate::platform::Platform;

verus! {

/// The `platform` key of a `dirs`, `files`, `blocks` or `commands` entry.
#[derive(Debug, Clone, Copy, PartialEq, Eq, Structural)]
pub enum PlatformFilter {
    Common,
    Debian,
    Arch,
}

/// Whether an entry with this filter applies on the platform.
pub open spec fn filter_matches(f: PlatformFilter, p: Platform) -> bool {
    match f {
        PlatformFilter::Common => true,
        PlatformFilter::Debian => p == Platform::Debian,
        PlatformFilter::Arch => p == Platform::Arch,
    }
}

/// The suffix an entry with this filter is described with.
pub open spec fn filter_label(f: PlatformFilter) -> Seq<char> {
    match f {
        PlatformFilter::Common => ""@,
        PlatformFilter::Debian => " [debian]"@,
        PlatformFilter::Arch => " [arch]"@,
    }
}

/// The filter a `platform` value names, or the error for an unknown one.
pub open spec fn filter_from_name(raw: Seq<char>) -> Result<PlatformFilter, Seq<char>> {
    if raw == "common"@ {
        Ok(PlatformFilter::Common)
    } else if raw == "debian"@ {
        Ok(PlatformFilter::Debian)
    } else if raw == "arch"@ {
        Ok(PlatformFilter::Arch)
    } else {
        Err("unknown platform: "@ + raw)
    }
}

/// The filter used when an entry has no `platform` key.
pub fn default_platform_filter() -> (f: PlatformFilter)
    ensures
        f == PlatformFilter::Common,
{
    PlatformFilter::Common
}

impl PlatformFilter {
    /// Whether an entry with this filter applies on the platform.
    pub fn matches(self, platform: Platform) -> (r: bool)
        ensures
            r == filter_matches(self, platform),
    {
        match self {
            PlatformFilter::Common => true,
            PlatformFilter::Debian => platform == Platform::Debian,
            PlatformFilter::Arch => platform == Platform::Arch,
        }
    }

    /// The suffix an entry with this filter is described with.
    pub fn label(self) -> (s: &'static str)
        ensures
            s@ == filter_label(self),
    {
        match self {
            PlatformFilter::Common => "",
            PlatformFilter::Debian => " [debian]",
            PlatformFilter::Arch => " [arch]",
        }
    }

    /// Reads a `platform` value: `common`, `debian` or `arch`.
    pub fn from_name(raw: &str) -> (r: Result<PlatformFilter, String>)
        ensures
            match r {
                Ok(f) => filter_from_name(raw@) == Ok::<PlatformFilter, Seq<char>>(f),
                Err(e) => filter_from_name(raw@) == Err::<PlatformFilter, Seq<char>>(e@),
            },
    {
        let s = crate::text::owned(raw);
        let common = crate::text::owned("common");
        let debian = crate::text::owned("debian");
        let arch = crate::text::owned("arch");
        if s == common {
            Ok(PlatformFilter::Common)
        } else if s == debian {
            Ok(PlatformFilter::Debian)
        } else if s == arch {
            Ok(PlatformFilter::Arch)
        } else {
            Err(crate::text::concat("unknown platform: ", raw))
        }
    }
}

} // verus!
