//! The operating system families the library can target.
use vstd::prelude::*;

verus! {

/// A supported platform.
#[derive(Debug, Clone, Copy, PartialEq, Eq, Structural)]
pub enum Platform {
    Debian,
    Arch,
}

/// The name a platform is shown by.
pub open spec fn platform_name(p: Platform) -> Seq<char> {
    match p {
        Platform::Debian => "debian"@,
        Platform::Arch => "arch"@,
    }
}

/// The key of a module's package list that applies to the platform.
pub open spec fn platform_package_key(p: Platform) -> Seq<char> {
    match p {
        Platform::Debian => "apt"@,
        Platform::Arch => "pacman"@,
    }
}

impl Platform {
    /// The name the platform is shown by.
    pub fn name(self) -> (s: &'static str)
        ensures
            s@ == platform_name(self),
    {
        match self {
            Platform::Debian => "debian",
            Platform::Arch => "arch",
        }
    }

    /// The key of a module's package list that applies to the platform.
    pub fn package_key(self) -> (s: &'static str)
        ensures
            s@ == platform_package_key(self),
    {
        match self {
            Platform::Debian => "apt",
            Platform::Arch => "pacman",
        }
    }
}

} // verus!
