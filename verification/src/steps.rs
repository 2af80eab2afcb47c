//! The operations of a module on a platform, in the order they are planned
//! and applied: its directories, then files, then marker blocks, then
//! commands, each list in its own order and without the entries for other
//! platforms.
use vstd::prelude::*;

use crate::error::{MoiError, MoiErrorView};
use crate::exec::block::{block_description, block_operation_spec, BlockOperation};
use crate::exec::command::plan_lines_spec;
use crate::exec::dir::{dir_description, DirOperation, DirOperationView};
use crate::exec::file::{file_description, file_operation_spec, FileOperation};
use crate::model::block::Block;
use crate::model::command::Command;
use crate::model::dir::Dir;
use crate::model::file::File;
use crate::model::module::{Module, ModuleView};
use crate::model::platform_filter::{filter_matches, PlatformFilter};
use crate::path::{expand_home_spec, join};
use crate::platform::Platform;
use crate::text::{opt_str_view, strings_view};

verus! {

/// Which list of a module an operation comes from.
#[derive(Debug, Clone, Copy, PartialEq, Eq, Structural)]
pub enum StepKind {
    Dir,
    File,
    Block,
    Command,
}

/// An operation of a module: the entry `index` (from zero) of one of its
/// lists.
#[derive(Debug, Clone, Copy, PartialEq, Eq, Structural)]
pub struct ModuleStep {
    pub kind: StepKind,
    pub index: usize,
}

/// The positions of the entries whose filter applies on the platform.
pub open spec fn matching(filters: Seq<PlatformFilter>, platform: Platform) -> Seq<int>
    decreases filters.len(),
{
    if filters.len() == 0 {
        Seq::empty()
    } else {
        matching(filters.drop_last(), platform) + if filter_matches(filters.last(), platform) {
            seq![filters.len() - 1]
        } else {
            Seq::empty()
        }
    }
}

/// The filters of a module's directories.
pub open spec fn dir_filters(v: Seq<Dir>) -> Seq<PlatformFilter> {
    v.map_values(|d: Dir| d@.platform)
}

/// The filters of a module's files.
pub open spec fn file_filters(v: Seq<File>) -> Seq<PlatformFilter> {
    v.map_values(|f: File| f@.platform)
}

/// The filters of a module's marker blocks.
pub open spec fn block_filters(v: Seq<Block>) -> Seq<PlatformFilter> {
    v.map_values(|b: Block| b@.platform)
}

/// The filters of a module's commands.
pub open spec fn command_filters(v: Seq<Command>) -> Seq<PlatformFilter> {
    v.map_values(|c: Command| c@.platform)
}

/// The steps of one kind at the given positions.
pub open spec fn steps_at(kind: StepKind, positions: Seq<int>) -> Seq<ModuleStep> {
    positions.map_values(|i: int| ModuleStep { kind, index: i as usize })
}

/// The operations of the module on the platform, in order.
pub open spec fn module_steps_spec(m: ModuleView, platform: Platform) -> Seq<ModuleStep> {
    steps_at(StepKind::Dir, matching(dir_filters(m.dirs), platform)) + steps_at(
        StepKind::File,
        matching(file_filters(m.files), platform),
    ) + steps_at(StepKind::Block, matching(block_filters(m.blocks), platform)) + steps_at(
        StepKind::Command,
        matching(command_filters(m.commands), platform),
    )
}

/// The file an operation reads from the module's directory and that must be
/// a regular file: the source of a file or a marker block.
pub open spec fn step_source(m: ModuleView, step: ModuleStep) -> Option<Seq<char>> {
    match step.kind {
        StepKind::File => if step.index < m.files.len() {
            Some(join(m.path, m.files[step.index as int]@.src))
        } else {
            None
        },
        StepKind::Block => if step.index < m.blocks.len() {
            Some(join(m.path, m.blocks[step.index as int]@.src))
        } else {
            None
        },
        _ => None,
    }
}

/// The lines that describe an operation without performing it, or the error
/// that stops the plan there. A position outside the module's lists is
/// described by no line.
pub open spec fn step_plan_spec(
    m: ModuleView,
    step: ModuleStep,
    home: Option<Seq<char>>,
    source_is_file: bool,
) -> Result<Seq<Seq<char>>, MoiErrorView> {
    match step.kind {
        StepKind::Dir => if step.index < m.dirs.len() {
            let d = m.dirs[step.index as int]@;
            match expand_home_spec(d.path, home) {
                Err(e) => Err(e),
                Ok(p) => Ok(
                    seq![
                        dir_description(
                            DirOperationView {
                                path: p,
                                label: crate::model::platform_filter::filter_label(d.platform),
                                mode: d.mode,
                            },
                        ),
                    ],
                ),
            }
        } else {
            Ok(Seq::empty())
        },
        StepKind::File => if step.index < m.files.len() {
            match file_operation_spec(
                m.name,
                m.path,
                m.files[step.index as int]@,
                home,
                source_is_file,
            ) {
                Err(e) => Err(e),
                Ok(op) => Ok(seq![file_description(op)]),
            }
        } else {
            Ok(Seq::empty())
        },
        StepKind::Block => if step.index < m.blocks.len() {
            match block_operation_spec(
                m.name,
                m.path,
                m.blocks[step.index as int]@,
                home,
                source_is_file,
            ) {
                Err(e) => Err(e),
                Ok(op) => Ok(seq![block_description(op)]),
            }
        } else {
            Ok(Seq::empty())
        },
        StepKind::Command => if step.index < m.commands.len() {
            Ok(plan_lines_spec(m.commands[step.index as int]@, (step.index + 1) as nat, false))
        } else {
            Ok(Seq::empty())
        },
    }
}

/// The positions of the filters that apply on the platform.
fn matching_positions(filters: &Vec<PlatformFilter>, platform: Platform) -> (v: Vec<usize>)
    ensures
        v@.map_values(|i: usize| i as int) == matching(filters@, platform),
{
    let mut v: Vec<usize> = Vec::new();
    let mut i: usize = 0;
    while i < filters.len()
        invariant
            i <= filters.len(),
            v@.map_values(|k: usize| k as int) == matching(filters@.take(i as int), platform),
        decreases filters.len() - i,
    {
        proof {
            assert(filters@.take(i + 1).drop_last() =~= filters@.take(i as int));
            assert(filters@.take(i + 1).last() == filters@[i as int]);
        }
        let ghost before = v@;
        if filters[i].matches(platform) {
            v.push(i);
        }
        proof {
            assert(v@.map_values(|k: usize| k as int) =~= matching(
                filters@.take(i + 1),
                platform,
            ));
        }
        i += 1;
    }
    assert(filters@.take(filters.len() as int) =~= filters@);
    v
}

/// Appends the steps of one kind at the given positions.
fn append_steps(steps: &mut Vec<ModuleStep>, kind: StepKind, positions: &Vec<usize>)
    ensures
        final(steps)@ == old(steps)@ + steps_at(kind, positions@.map_values(|i: usize| i as int)),
{
    let ghost start = steps@;
    let ghost ps = positions@.map_values(|i: usize| i as int);
    let mut i: usize = 0;
    while i < positions.len()
        invariant
            i <= positions.len(),
            ps == positions@.map_values(|k: usize| k as int),
            steps@ == start + steps_at(kind, ps.take(i as int)),
        decreases positions.len() - i,
    {
        steps.push(ModuleStep { kind, index: positions[i] });
        proof {
            assert(ps[i as int] == positions@[i as int] as int);
            assert(steps_at(kind, ps.take(i + 1)) =~= steps_at(kind, ps.take(i as int)).push(
                ModuleStep { kind, index: positions@[i as int] },
            ));
        }
        i += 1;
    }
    assert(ps.take(positions.len() as int) =~= ps);
}

/// The operations of the module on the platform: its directories, files,
/// marker blocks and commands that apply there, in that order.
pub fn module_steps(module: &Module, platform: Platform) -> (v: Vec<ModuleStep>)
    ensures
        v@ == module_steps_spec(module@, platform),
{
    let mut steps: Vec<ModuleStep> = Vec::new();

    let dirs = module.dirs();
    let mut filters: Vec<PlatformFilter> = Vec::new();
    let mut i: usize = 0;
    while i < dirs.len()
        invariant
            i <= dirs.len(),
            dirs@ == module@.dirs,
            filters@ == dir_filters(dirs@).take(i as int),
        decreases dirs.len() - i,
    {
        filters.push(dirs[i].platform());
        i += 1;
        assert(filters@ =~= dir_filters(dirs@).take(i as int));
    }
    assert(dir_filters(dirs@).take(dirs.len() as int) =~= dir_filters(dirs@));
    let positions = matching_positions(&filters, platform);
    append_steps(&mut steps, StepKind::Dir, &positions);

    let files = module.files();
    let mut filters: Vec<PlatformFilter> = Vec::new();
    let mut i: usize = 0;
    while i < files.len()
        invariant
            i <= files.len(),
            files@ == module@.files,
            filters@ == file_filters(files@).take(i as int),
        decreases files.len() - i,
    {
        filters.push(files[i].platform());
        i += 1;
        assert(filters@ =~= file_filters(files@).take(i as int));
    }
    assert(file_filters(files@).take(files.len() as int) =~= file_filters(files@));
    let positions = matching_positions(&filters, platform);
    append_steps(&mut steps, StepKind::File, &positions);

    let blocks = module.blocks();
    let mut filters: Vec<PlatformFilter> = Vec::new();
    let mut i: usize = 0;
    while i < blocks.len()
        invariant
            i <= blocks.len(),
            blocks@ == module@.blocks,
            filters@ == block_filters(blocks@).take(i as int),
        decreases blocks.len() - i,
    {
        filters.push(blocks[i].platform());
        i += 1;
        assert(filters@ =~= block_filters(blocks@).take(i as int));
    }
    assert(block_filters(blocks@).take(blocks.len() as int) =~= block_filters(blocks@));
    let positions = matching_positions(&filters, platform);
    append_steps(&mut steps, StepKind::Block, &positions);

    let commands = module.commands();
    let mut filters: Vec<PlatformFilter> = Vec::new();
    let mut i: usize = 0;
    while i < commands.len()
        invariant
            i <= commands.len(),
            commands@ == module@.commands,
            filters@ == command_filters(commands@).take(i as int),
        decreases commands.len() - i,
    {
        filters.push(commands[i].platform());
        i += 1;
        assert(filters@ =~= command_filters(commands@).take(i as int));
    }
    assert(command_filters(commands@).take(commands.len() as int) =~= command_filters(commands@));
    let positions = matching_positions(&filters, platform);
    append_steps(&mut steps, StepKind::Command, &positions);

    steps
}

impl ModuleStep {
    /// The file the operation reads from the module's directory, which must
    /// be a regular file: the source of a file or a marker block.
    pub fn source_path(&self, module: &Module) -> (r: Option<String>)
        ensures
            crate::text::opt_string_view(r) == step_source(module@, *self),
    {
        match self.kind {
            StepKind::File => if self.index < module.files().len() {
                Some(FileOperation::source_path(module, &module.files()[self.index]))
            } else {
                None
            },
            StepKind::Block => if self.index < module.blocks().len() {
                Some(BlockOperation::source_path(module, &module.blocks()[self.index]))
            } else {
                None
            },
            _ => None,
        }
    }

    /// The lines that describe the operation without performing it;
    /// `source_is_file` tells whether [`ModuleStep::source_path`] is a
    /// regular file.
    pub fn plan_lines(&self, module: &Module, home: Option<&str>, source_is_file: bool) -> (r:
        Result<Vec<String>, MoiError>)
        ensures
            match step_plan_spec(module@, *self, opt_str_view(home), source_is_file) {
                Ok(lines) => r matches Ok(v) && strings_view(v@) == lines,
                Err(e) => r matches Err(x) && x@ == e,
            },
    {
        let mut v: Vec<String> = Vec::new();
        match self.kind {
            StepKind::Dir => {
                if self.index < module.dirs().len() {
                    let op = DirOperation::resolve(&module.dirs()[self.index], home)?;
                    v.push(op.describe());
                }
            },
            StepKind::File => {
                if self.index < module.files().len() {
                    let op = FileOperation::resolve(
                        module,
                        &module.files()[self.index],
                        home,
                        source_is_file,
                    )?;
                    v.push(op.describe());
                }
            },
            StepKind::Block => {
                if self.index < module.blocks().len() {
                    let op = BlockOperation::resolve(
                        module,
                        &module.blocks()[self.index],
                        home,
                        source_is_file,
                    )?;
                    v.push(op.describe());
                }
            },
            StepKind::Command => {
                if self.index < module.commands().len() && self.index < usize::MAX {
                    v = crate::exec::command::plan_lines(
                        &module.commands()[self.index],
                        self.index + 1,
                        false,
                    );
                }
            },
        }
        assert(strings_view(v@) =~= step_plan_spec(
            module@,
            *self,
            opt_str_view(home),
            source_is_file,
        )->Ok_0);
        Ok(v)
    }
}

/// Only the entries that apply on the platform are planned and applied,
/// each once and in the module's order: the positions are those of the
/// entries whose filter matches, increasing, and every such entry has one.
pub proof fn lemma_matching_exact(filters: Seq<PlatformFilter>, platform: Platform)
    ensures
        forall|i: int|
            0 <= i < matching(filters, platform).len() ==> 0 <= #[trigger] matching(
                filters,
                platform,
            )[i] < filters.len() && filter_matches(filters[matching(filters, platform)[i]], platform),
        forall|i: int, j: int|
            0 <= i < j < matching(filters, platform).len() ==> #[trigger] matching(filters, platform)[i]
                < #[trigger] matching(filters, platform)[j],
        forall|k: int|
            0 <= k < filters.len() && filter_matches(#[trigger] filters[k], platform) ==> matching(
                filters,
                platform,
            ).contains(k),
    decreases filters.len(),
{
    if filters.len() > 0 {
        let init = filters.drop_last();
        lemma_matching_exact(init, platform);
        let m0 = matching(init, platform);
        let m = matching(filters, platform);
        assert forall|i: int| 0 <= i < m.len() implies 0 <= #[trigger] m[i] < filters.len()
            && filter_matches(filters[m[i]], platform) by {
            if i < m0.len() {
                assert(m[i] == m0[i]);
                assert(filters[m0[i]] == init[m0[i]]);
            }
        }
        assert forall|i: int, j: int| 0 <= i < j < m.len() implies #[trigger] m[i] < #[trigger] m[j] by {
            if j < m0.len() {
                assert(m[i] == m0[i] && m[j] == m0[j]);
            } else {
                assert(m[i] == m0[i]);
            }
        }
        assert forall|k: int| 0 <= k < filters.len() && filter_matches(
            #[trigger] filters[k],
            platform,
        ) implies m.contains(k) by {
            if k < filters.len() - 1 {
                assert(init[k] == filters[k]);
                let w = choose|w: int| 0 <= w < m0.len() && m0[w] == k;
                assert(m[w] == k);
            } else {
                assert(m[m.len() - 1] == k);
            }
        }
    }
}

} // verus!
