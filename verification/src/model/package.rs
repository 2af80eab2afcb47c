//! The packages a module needs, per package manager.
use vstd::prelude::*;

use crate::model::validations::empty_string_message;
use crate::platform::Platform;
use crate::text::{element_label, first_empty, strings_view};

verus! {

/// The `[packages]` table of a module.
#[derive(Debug)]
pub struct Packages {
    apt: Vec<String>,
    pacman: Vec<String>,
}

/// The abstract value of [`Packages`].
pub struct PackagesView {
    pub apt: Seq<Seq<char>>,
    pub pacman: Seq<Seq<char>>,
}

/// The error for the first empty name of a package list, if any.
pub open spec fn package_names_check(values: Seq<Seq<char>>, where_: Seq<char>) -> Result<(), Seq<char>> {
    match first_empty(values) {
        Some(k) => Err(empty_string_message(element_label(where_, k as nat))),
        None => Ok(()),
    }
}

/// What `Packages::new` decides about its lists.
pub open spec fn packages_check(apt: Seq<Seq<char>>, pacman: Seq<Seq<char>>) -> Result<(), Seq<char>> {
    match package_names_check(apt, "packages.apt"@) {
        Err(e) => Err(e),
        Ok(()) => package_names_check(pacman, "packages.pacman"@),
    }
}

/// The package list that applies on a platform.
pub open spec fn packages_for(p: PackagesView, platform: Platform) -> Seq<Seq<char>> {
    match platform {
        Platform::Debian => p.apt,
        Platform::Arch => p.pacman,
    }
}

impl View for Packages {
    type V = PackagesView;

    closed spec fn view(&self) -> PackagesView {
        PackagesView { apt: strings_view(self.apt@), pacman: strings_view(self.pacman@) }
    }
}

/// Rejects a package list with an empty name, naming its position.
pub fn validate_package_names(values: &Vec<String>, where_: &str) -> (r: Result<(), String>)
    ensures
        crate::model::validations::unit_result(r) == package_names_check(
            strings_view(values@),
            where_@,
        ),
{
    match crate::text::find_first_empty(values) {
        Some(k) => {
            let label = crate::text::element_label_string(where_, k);
            Err(crate::text::concat(label.as_str(), ": must be a non-empty string"))
        },
        None => Ok(()),
    }
}

impl Packages {
    /// No packages.
    pub fn empty() -> (p: Packages)
        ensures
            p@.apt.len() == 0,
            p@.pacman.len() == 0,
    {
        let p = Packages { apt: Vec::new(), pacman: Vec::new() };
        assert(p@.apt =~= Seq::<Seq<char>>::empty());
        assert(p@.pacman =~= Seq::<Seq<char>>::empty());
        p
    }

    /// Package lists without empty names.
    pub fn new(apt: Vec<String>, pacman: Vec<String>) -> (r: Result<Packages, String>)
        ensures
            match r {
                Ok(p) => packages_check(strings_view(apt@), strings_view(pacman@)) == Ok::<
                    (),
                    Seq<char>,
                >(()) && p@ == (PackagesView {
                    apt: strings_view(apt@),
                    pacman: strings_view(pacman@),
                }),
                Err(e) => packages_check(strings_view(apt@), strings_view(pacman@)) == Err::<
                    (),
                    Seq<char>,
                >(e@),
            },
    {
        validate_package_names(&apt, "packages.apt")?;
        validate_package_names(&pacman, "packages.pacman")?;
        Ok(Packages { apt, pacman })
    }

    /// The package list that applies on the platform.
    pub fn for_platform(&self, platform: Platform) -> (v: &Vec<String>)
        ensures
            strings_view(v@) == packages_for(self@, platform),
    {
        match platform {
            Platform::Debian => &self.apt,
            Platform::Arch => &self.pacman,
        }
    }
}

} // verus!
