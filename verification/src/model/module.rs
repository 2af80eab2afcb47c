//! A module: one directory of an environment with its `module.toml`.
use vstd::prelude::*;

use crate::model::block::Block;
use crate::model::command::Command;
use crate::model::dir::Dir;
use crate::model::env::Env;
use crate::model::file::File;
use crate::model::package::{Packages, PackagesView};
use crate::model::validations::empty_string_message;
use crate::text::{element_label, first_empty, strings_view};

verus! {

/// The name of a module: a non-empty string.
#[derive(Debug)]
pub struct ModuleName(String);

impl View for ModuleName {
    type V = Seq<char>;

    closed spec fn view(&self) -> Seq<char> {
        self.0@
    }
}

/// The names of a list of module names.
pub open spec fn names_view(v: Seq<ModuleName>) -> Seq<Seq<char>> {
    v.map_values(|n: ModuleName| n@)
}

impl ModuleName {
    /// A module name; the empty string is rejected.
    pub fn new(value: String) -> (r: Result<ModuleName, String>)
        ensures
            match r {
                Ok(n) => value@.len() > 0 && n@ == value@,
                Err(e) => value@.len() == 0 && e@ == empty_string_message("module name"@),
            },
    {
        crate::model::validations::non_empty_string(value.as_str(), "module name")?;
        Ok(ModuleName(value))
    }

    /// The name as text.
    pub fn as_str(&self) -> (s: &str)
        ensures
            s@ == self@,
    {
        self.0.as_str()
    }
}

/// A module definition.
#[derive(Debug)]
pub struct Module {
    name: ModuleName,
    path: String,
    depends_on: Vec<ModuleName>,
    followups: Vec<String>,
    packages: Packages,
    dirs: Vec<Dir>,
    files: Vec<File>,
    blocks: Vec<Block>,
    commands: Vec<Command>,
    env: Env,
}

/// The parts of a module definition as read, before the module-level checks.
pub struct RawModule {
    pub name: ModuleName,
    pub depends_on: Vec<ModuleName>,
    pub followups: Vec<String>,
    pub packages: Packages,
    pub dirs: Vec<Dir>,
    pub files: Vec<File>,
    pub blocks: Vec<Block>,
    pub commands: Vec<Command>,
    pub env: Env,
}

/// The abstract value of a [`Module`].
pub struct ModuleView {
    pub name: Seq<char>,
    pub path: Seq<char>,
    pub depends_on: Seq<Seq<char>>,
    pub followups: Seq<Seq<char>>,
    pub packages: PackagesView,
    pub dirs: Seq<Dir>,
    pub files: Seq<File>,
    pub blocks: Seq<Block>,
    pub commands: Seq<Command>,
    pub env: Seq<Seq<char>>,
}

/// What `Module::from_raw` decides: every follow-up must be non-empty.
pub open spec fn followups_check(followups: Seq<Seq<char>>) -> Result<(), Seq<char>> {
    match first_empty(followups) {
        Some(k) => Err(empty_string_message(element_label("followups"@, k as nat))),
        None => Ok(()),
    }
}

impl View for Module {
    type V = ModuleView;

    closed spec fn view(&self) -> ModuleView {
        ModuleView {
            name: self.name@,
            path: self.path@,
            depends_on: names_view(self.depends_on@),
            followups: strings_view(self.followups@),
            packages: self.packages@,
            dirs: self.dirs@,
            files: self.files@,
            blocks: self.blocks@,
            commands: self.commands@,
            env: self.env@,
        }
    }
}

impl Module {
    /// A module from its parts, after checking that no follow-up is empty;
    /// its directory is not known yet and is empty.
    pub fn from_raw(raw: RawModule) -> (r: Result<Module, String>)
        ensures
            match r {
                Ok(m) => followups_check(strings_view(raw.followups@)) == Ok::<(), Seq<char>>(())
                    && m@ == (ModuleView {
                    name: raw.name@,
                    path: Seq::<char>::empty(),
                    depends_on: names_view(raw.depends_on@),
                    followups: strings_view(raw.followups@),
                    packages: raw.packages@,
                    dirs: raw.dirs@,
                    files: raw.files@,
                    blocks: raw.blocks@,
                    commands: raw.commands@,
                    env: raw.env@,
                }),
                Err(e) => followups_check(strings_view(raw.followups@)) == Err::<(), Seq<char>>(
                    e@,
                ),
            },
    {
        match crate::text::find_first_empty(&raw.followups) {
            Some(k) => {
                let label = crate::text::element_label_string("followups", k);
                return Err(crate::text::concat(label.as_str(), ": must be a non-empty string"));
            },
            None => {},
        }
        Ok(Module {
            name: raw.name,
            path: String::new(),
            depends_on: raw.depends_on,
            followups: raw.followups,
            packages: raw.packages,
            dirs: raw.dirs,
            files: raw.files,
            blocks: raw.blocks,
            commands: raw.commands,
            env: raw.env,
        })
    }

    /// The module's name.
    pub fn name(&self) -> (n: &ModuleName)
        ensures
            n@ == self@.name,
    {
        &self.name
    }

    /// The module's directory.
    pub fn path(&self) -> (s: &str)
        ensures
            s@ == self@.path,
    {
        self.path.as_str()
    }

    /// The modules this one depends on.
    pub fn depends_on(&self) -> (v: &Vec<ModuleName>)
        ensures
            names_view(v@) == self@.depends_on,
    {
        &self.depends_on
    }

    /// The follow-up notes shown after a run.
    pub fn followups(&self) -> (v: &Vec<String>)
        ensures
            strings_view(v@) == self@.followups,
    {
        &self.followups
    }

    /// The module's packages.
    pub fn packages(&self) -> (p: &Packages)
        ensures
            p@ == self@.packages,
    {
        &self.packages
    }

    /// The module's directories.
    pub fn dirs(&self) -> (v: &Vec<Dir>)
        ensures
            v@ == self@.dirs,
    {
        &self.dirs
    }

    /// The module's files.
    pub fn files(&self) -> (v: &Vec<File>)
        ensures
            v@ == self@.files,
    {
        &self.files
    }

    /// The module's marker blocks.
    pub fn blocks(&self) -> (v: &Vec<Block>)
        ensures
            v@ == self@.blocks,
    {
        &self.blocks
    }

    /// The module's commands.
    pub fn commands(&self) -> (v: &Vec<Command>)
        ensures
            v@ == self@.commands,
    {
        &self.commands
    }

    /// The module's `[env]` table.
    pub fn env(&self) -> (e: &Env)
        ensures
            e@ == self@.env,
    {
        &self.env
    }

    /// Records the directory the module was read from.
    pub fn set_path(&mut self, path: String)
        ensures
            final(self)@ == (ModuleView { path: path@, ..old(self)@ }),
    {
        self.path = path;
    }
}

} // verus!
