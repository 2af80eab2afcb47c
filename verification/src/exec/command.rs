//! Running a module's command: how it is described, and the order of its
//! steps. Looking commands up, reloading `PATH` from nvm and running `bash`
//! are done by the caller; [`command_step`] decides, from where the command
//! stands and how the last step went, what happens next.
use vstd::prelude::*;

use crate::error::{MoiError, MoiErrorView};
use crate::model::command::{Command, CommandView};
use crate::model::platform_filter::filter_label;
use crate::text::{decimal, strings_view};

verus! {

/// The line announcing a required executable.
pub open spec fn require_line(name: Seq<char>) -> Seq<char> {
    "require "@ + name
}

/// The lines announcing the required executables, in order.
pub open spec fn require_lines(required: Seq<Seq<char>>) -> Seq<Seq<char>> {
    required.map_values(|r: Seq<char>| require_line(r))
}

/// `command[n]`, how the n-th command (counting from one) is named.
pub open spec fn command_ref(index: nat) -> Seq<char> {
    "command["@ + decimal(index) + "]"@
}

/// The line announcing the guard of a command.
pub open spec fn unless_line(label: Seq<char>, index: nat) -> Seq<char> {
    "unless"@ + label + " "@ + command_ref(index)
}

/// The line announcing that a command runs.
pub open spec fn run_line(label: Seq<char>, index: nat) -> Seq<char> {
    "run"@ + label + " "@ + command_ref(index)
}

/// The line announcing that a command is skipped because its guard succeeded.
pub open spec fn skip_line(index: nat) -> Seq<char> {
    "skip "@ + command_ref(index)
}

/// The guard is evaluated: there is one and it is not ignored.
pub open spec fn guard_applies(c: CommandView, ignore_unless: bool) -> bool {
    c.unless is Some && !ignore_unless
}

/// The lines that describe a command without running it.
pub open spec fn plan_lines_spec(c: CommandView, index: nat, ignore_unless: bool) -> Seq<Seq<char>> {
    require_lines(c.required) + if guard_applies(c, ignore_unless) {
        seq![unless_line(filter_label(c.platform), index)]
    } else {
        Seq::empty()
    } + seq![run_line(filter_label(c.platform), index)]
}

/// The executables that nvm provides: when missing they are looked for again
/// after nvm's environment is loaded.
pub open spec fn nvm_command(name: Seq<char>) -> bool {
    name == "node"@ || name == "npm"@ || name == "npx"@
}

/// The error of a required executable that is not found.
pub open spec fn missing_command_message(name: Seq<char>) -> Seq<char> {
    "required command not found: "@ + name
}

/// Where a command stands.
#[derive(Debug, Clone, Copy, PartialEq, Eq, Structural)]
pub enum CommandStage {
    /// Nothing has happened yet.
    Start,
    /// The required executable `next` is being looked up; `retried` once
    /// nvm's environment was loaded for it.
    Requirement { next: usize, retried: bool },
    /// nvm's environment is being loaded for the required executable `next`.
    LoadingNvm { next: usize },
    /// The guard is running.
    Guard,
    /// The command is running.
    Running,
    /// Nothing is left to do.
    Finished,
}

/// What the caller does next.
#[derive(Debug)]
pub enum CommandAction {
    /// Look the executable up on `PATH`; report whether it was found.
    Lookup(String),
    /// Load nvm's environment into `PATH`.
    LoadNvm,
    /// Run the guard with `bash -c` in the module's directory; report whether
    /// it exited successfully.
    RunGuard(String),
    /// Run the command with `bash -c` in the module's directory; a failure
    /// ends the run with the command's exit code.
    RunCommand(String),
    /// Stop with this error.
    Fail(MoiError),
    /// The command is done.
    Done,
}

/// The abstract value of a [`CommandAction`].
pub enum CommandActionView {
    Lookup(Seq<char>),
    LoadNvm,
    RunGuard(Seq<char>),
    RunCommand(Seq<char>),
    Fail(MoiErrorView),
    Done,
}

impl View for CommandAction {
    type V = CommandActionView;

    open spec fn view(&self) -> CommandActionView {
        match self {
            CommandAction::Lookup(s) => CommandActionView::Lookup(s@),
            CommandAction::LoadNvm => CommandActionView::LoadNvm,
            CommandAction::RunGuard(s) => CommandActionView::RunGuard(s@),
            CommandAction::RunCommand(s) => CommandActionView::RunCommand(s@),
            CommandAction::Fail(e) => CommandActionView::Fail(e@),
            CommandAction::Done => CommandActionView::Done,
        }
    }
}

/// One step of a command: where it stands afterwards, the lines to show, and
/// what to do.
#[derive(Debug)]
pub struct CommandStep {
    pub stage: CommandStage,
    pub lines: Vec<String>,
    pub action: CommandAction,
}

/// The abstract value of a [`CommandStep`].
pub struct CommandStepView {
    pub stage: CommandStage,
    pub lines: Seq<Seq<char>>,
    pub action: CommandActionView,
}

impl View for CommandStep {
    type V = CommandStepView;

    open spec fn view(&self) -> CommandStepView {
        CommandStepView {
            stage: self.stage,
            lines: strings_view(self.lines@),
            action: self.action@,
        }
    }
}

/// Once the requirements are met: run the guard when it applies, else the
/// command.
pub open spec fn after_requirements(
    c: CommandView,
    index: nat,
    ignore_unless: bool,
    lines: Seq<Seq<char>>,
) -> CommandStepView {
    if guard_applies(c, ignore_unless) {
        CommandStepView {
            stage: CommandStage::Guard,
            lines: lines.push(unless_line(filter_label(c.platform), index)),
            action: CommandActionView::RunGuard(c.unless->0),
        }
    } else {
        CommandStepView {
            stage: CommandStage::Running,
            lines: lines.push(run_line(filter_label(c.platform), index)),
            action: CommandActionView::RunCommand(c.run),
        }
    }
}

/// Look up the required executable `next`, or go on when none is left.
pub open spec fn check_requirement(
    c: CommandView,
    index: nat,
    ignore_unless: bool,
    next: int,
    lines: Seq<Seq<char>>,
) -> CommandStepView {
    if 0 <= next < c.required.len() {
        CommandStepView {
            stage: CommandStage::Requirement { next: next as usize, retried: false },
            lines,
            action: CommandActionView::Lookup(c.required[next]),
        }
    } else {
        after_requirements(c, index, ignore_unless, lines)
    }
}

/// The step after `stage`, given whether the action of the last step
/// succeeded: a lookup found the executable, or a guard exited with 0.
pub open spec fn command_step_spec(
    c: CommandView,
    index: nat,
    ignore_unless: bool,
    stage: CommandStage,
    succeeded: bool,
) -> CommandStepView {
    match stage {
        CommandStage::Start => check_requirement(
            c,
            index,
            ignore_unless,
            0,
            require_lines(c.required),
        ),
        CommandStage::Requirement { next, retried } => if next >= c.required.len() {
            after_requirements(c, index, ignore_unless, Seq::empty())
        } else if succeeded {
            check_requirement(c, index, ignore_unless, next + 1, Seq::empty())
        } else if !retried && nvm_command(c.required[next as int]) {
            CommandStepView {
                stage: CommandStage::LoadingNvm { next },
                lines: Seq::empty(),
                action: CommandActionView::LoadNvm,
            }
        } else {
            CommandStepView {
                stage: CommandStage::Finished,
                lines: Seq::empty(),
                action: CommandActionView::Fail(
                    MoiErrorView::Config(missing_command_message(c.required[next as int])),
                ),
            }
        },
        CommandStage::LoadingNvm { next } => if next >= c.required.len() {
            after_requirements(c, index, ignore_unless, Seq::empty())
        } else {
            CommandStepView {
                stage: CommandStage::Requirement { next, retried: true },
                lines: Seq::empty(),
                action: CommandActionView::Lookup(c.required[next as int]),
            }
        },
        CommandStage::Guard => if succeeded {
            CommandStepView {
                stage: CommandStage::Finished,
                lines: seq![skip_line(index)],
                action: CommandActionView::Done,
            }
        } else {
            CommandStepView {
                stage: CommandStage::Running,
                lines: seq![run_line(filter_label(c.platform), index)],
                action: CommandActionView::RunCommand(c.run),
            }
        },
        CommandStage::Running => CommandStepView {
            stage: CommandStage::Finished,
            lines: Seq::empty(),
            action: CommandActionView::Done,
        },
        CommandStage::Finished => CommandStepView {
            stage: CommandStage::Finished,
            lines: Seq::empty(),
            action: CommandActionView::Done,
        },
    }
}

/// `command[index]`.
fn command_ref_text(index: usize) -> (s: String)
    ensures
        s@ == command_ref(index as nat),
{
    let digits = crate::text::decimal_string(index as u64);
    let mut s = crate::text::concat("command[", digits.as_str());
    s.push_str("]");
    s
}

fn labelled_line(word: &str, label: &str, index: usize) -> (s: String)
    ensures
        s@ == word@ + label@ + " "@ + command_ref(index as nat),
{
    let mut s = crate::text::concat3(word, label, " ");
    s.push_str(command_ref_text(index).as_str());
    s
}

/// The lines announcing the required executables.
fn require_lines_of(command: &Command) -> (v: Vec<String>)
    ensures
        strings_view(v@) == require_lines(command@.required),
{
    let required = command.required();
    let mut v: Vec<String> = Vec::new();
    let mut i: usize = 0;
    assert(strings_view(required@).len() == required@.len());
    assert(strings_view(v@) =~= require_lines(command@.required).take(0));
    while i < required.len()
        invariant
            i <= required@.len(),
            strings_view(required@) == command@.required,
            command@.required.len() == required@.len(),
            v@.len() == i,
            strings_view(v@) == require_lines(command@.required).take(i as int),
        decreases required.len() - i,
    {
        let ghost before = v@;
        v.push(crate::text::concat("require ", required[i].as_str()));
        proof {
            assert(strings_view(required@)[i as int] == required@[i as int]@);
            assert(v@.drop_last() == before);
            assert(require_lines(command@.required)[i as int] == require_line(
                command@.required[i as int],
            ));
        }
        i += 1;
        proof {
            let a = strings_view(v@);
            let b = require_lines(command@.required).take(i as int);
            assert(a.len() == b.len());
            assert forall|j: int| 0 <= j < a.len() implies a[j] == b[j] by {
                if j < i - 1 {
                    assert(v@[j] == before[j]);
                    assert(strings_view(before)[j] == b[j]);
                }
            }
            assert(a =~= b);
        }
    }
    assert(require_lines(command@.required).take(required@.len() as int) =~= require_lines(
        command@.required,
    ));
    v
}

/// The lines that describe the n-th command of a module (counting from one)
/// without running it: its required executables, its guard unless ignored,
/// and the command.
pub fn plan_lines(command: &Command, index: usize, ignore_unless: bool) -> (v: Vec<String>)
    ensures
        strings_view(v@) == plan_lines_spec(command@, index as nat, ignore_unless),
{
    let mut v = require_lines_of(command);
    let label = command.platform().label();
    if command.unless().is_some() && !ignore_unless {
        v.push(labelled_line("unless", label, index));
    }
    v.push(labelled_line("run", label, index));
    assert(strings_view(v@) =~= plan_lines_spec(command@, index as nat, ignore_unless));
    v
}

fn is_nvm_command(name: &str) -> (r: bool)
    ensures
        r == nvm_command(name@),
{
    crate::text::str_eq(name, "node") || crate::text::str_eq(name, "npm") || crate::text::str_eq(
        name,
        "npx",
    )
}

fn finish_requirements(
    command: &Command,
    index: usize,
    ignore_unless: bool,
    lines: Vec<String>,
) -> (s: CommandStep)
    ensures
        s@ == after_requirements(command@, index as nat, ignore_unless, strings_view(lines@)),
{
    let mut lines = lines;
    let ghost before = strings_view(lines@);
    let label = command.platform().label();
    match command.unless() {
        Some(guard) if !ignore_unless => {
            lines.push(labelled_line("unless", label, index));
            assert(strings_view(lines@) =~= before.push(
                unless_line(filter_label(command@.platform), index as nat),
            ));
            CommandStep {
                stage: CommandStage::Guard,
                lines,
                action: CommandAction::RunGuard(crate::text::owned(guard)),
            }
        },
        _ => {
            lines.push(labelled_line("run", label, index));
            assert(strings_view(lines@) =~= before.push(
                run_line(filter_label(command@.platform), index as nat),
            ));
            CommandStep {
                stage: CommandStage::Running,
                lines,
                action: CommandAction::RunCommand(crate::text::owned(command.run())),
            }
        },
    }
}

fn next_requirement(
    command: &Command,
    index: usize,
    ignore_unless: bool,
    next: usize,
    lines: Vec<String>,
) -> (s: CommandStep)
    ensures
        s@ == check_requirement(
            command@,
            index as nat,
            ignore_unless,
            next as int,
            strings_view(lines@),
        ),
{
    let required = command.required();
    if next < required.len() {
        assert(strings_view(required@)[next as int] == required@[next as int]@);
        CommandStep {
            stage: CommandStage::Requirement { next, retried: false },
            lines,
            action: CommandAction::Lookup(required[next].clone()),
        }
    } else {
        finish_requirements(command, index, ignore_unless, lines)
    }
}

/// The next step of applying the n-th command of a module (counting from
/// one). From `Start` the required executables are looked up in order; one
/// that nvm provides is looked up again after nvm's environment is loaded;
/// one that is still missing ends the command with an error. Then the guard
/// runs, unless it is ignored: when it succeeds the command is skipped.
/// Otherwise the command runs. `succeeded` reports how the last action went.
pub fn command_step(
    command: &Command,
    index: usize,
    ignore_unless: bool,
    stage: CommandStage,
    succeeded: bool,
) -> (s: CommandStep)
    ensures
        s@ == command_step_spec(command@, index as nat, ignore_unless, stage, succeeded),
{
    let required = command.required();
    let ghost req = command@.required;
    assert(req.len() == required@.len());
    match stage {
        CommandStage::Start => {
            let lines = require_lines_of(command);
            next_requirement(command, index, ignore_unless, 0, lines)
        },
        CommandStage::Requirement { next, retried } => {
            if next >= required.len() {
                let empty: Vec<String> = Vec::new();
                assert(strings_view(empty@) =~= Seq::<Seq<char>>::empty());
                finish_requirements(command, index, ignore_unless, empty)
            } else if succeeded {
                let empty: Vec<String> = Vec::new();
                assert(strings_view(empty@) =~= Seq::<Seq<char>>::empty());
                next_requirement(command, index, ignore_unless, next + 1, empty)
            } else {
                assert(req[next as int] == required@[next as int]@);
                if !retried && is_nvm_command(required[next].as_str()) {
                    let s = CommandStep {
                        stage: CommandStage::LoadingNvm { next },
                        lines: Vec::new(),
                        action: CommandAction::LoadNvm,
                    };
                    assert(s@.lines =~= Seq::<Seq<char>>::empty());
                    s
                } else {
                    let message = crate::text::concat(
                        "required command not found: ",
                        required[next].as_str(),
                    );
                    let s = CommandStep {
                        stage: CommandStage::Finished,
                        lines: Vec::new(),
                        action: CommandAction::Fail(MoiError::config(message)),
                    };
                    assert(s@.lines =~= Seq::<Seq<char>>::empty());
                    s
                }
            }
        },
        CommandStage::LoadingNvm { next } => {
            if next >= required.len() {
                let empty: Vec<String> = Vec::new();
                assert(strings_view(empty@) =~= Seq::<Seq<char>>::empty());
                finish_requirements(command, index, ignore_unless, empty)
            } else {
                assert(req[next as int] == required@[next as int]@);
                let s = CommandStep {
                    stage: CommandStage::Requirement { next, retried: true },
                    lines: Vec::new(),
                    action: CommandAction::Lookup(required[next].clone()),
                };
                assert(s@.lines =~= Seq::<Seq<char>>::empty());
                s
            }
        },
        CommandStage::Guard => {
            if succeeded {
                let mut lines: Vec<String> = Vec::new();
                lines.push(crate::text::concat("skip ", command_ref_text(index).as_str()));
                let s = CommandStep { stage: CommandStage::Finished, lines, action: CommandAction::Done };
                assert(s@.lines =~= seq![skip_line(index as nat)]);
                s
            } else {
                let mut lines: Vec<String> = Vec::new();
                lines.push(labelled_line("run", command.platform().label(), index));
                let s = CommandStep {
                    stage: CommandStage::Running,
                    lines,
                    action: CommandAction::RunCommand(crate::text::owned(command.run())),
                };
                assert(s@.lines =~= seq![run_line(filter_label(command@.platform), index as nat)]);
                s
            }
        },
        CommandStage::Running | CommandStage::Finished => {
            let s = CommandStep {
                stage: CommandStage::Finished,
                lines: Vec::new(),
                action: CommandAction::Done,
            };
            assert(s@.lines =~= Seq::<Seq<char>>::empty());
            s
        },
    }
}

/// With `--ignore-unless` no step runs a guard.
pub proof fn lemma_ignore_unless_never_runs_guard(
    c: CommandView,
    index: nat,
    stage: CommandStage,
    succeeded: bool,
)
    ensures
        !(command_step_spec(c, index, true, stage, succeeded).action is RunGuard),
{
}

/// A guard that succeeds ends the command without running it.
pub proof fn lemma_successful_guard_skips(c: CommandView, index: nat, ignore_unless: bool)
    ensures
        command_step_spec(c, index, ignore_unless, CommandStage::Guard, true) == (CommandStepView {
            stage: CommandStage::Finished,
            lines: seq![skip_line(index)],
            action: CommandActionView::Done,
        }),
{
}

/// A required executable that is still missing, after nvm's environment was
/// loaded for it or when nvm does not provide it, stops the command before
/// its guard or its command runs.
pub proof fn lemma_missing_requirement_fails(
    c: CommandView,
    index: nat,
    ignore_unless: bool,
    next: usize,
    retried: bool,
)
    requires
        next < c.required.len(),
        retried || !nvm_command(c.required[next as int]),
    ensures
        command_step_spec(
            c,
            index,
            ignore_unless,
            CommandStage::Requirement { next, retried },
            false,
        ).action == CommandActionView::Fail(
            MoiErrorView::Config(missing_command_message(c.required[next as int])),
        ),
{
}

/// Law: a first failed lookup of a required `node`, `npm` or `npx` loads
/// nvm's environment and looks the executable up again, instead of failing;
/// a first failed lookup of any other executable fails at once.
pub proof fn lemma_nvm_tools_are_retried(
    c: CommandView,
    index: nat,
    ignore_unless: bool,
    next: usize,
)
    requires
        next < c.required.len(),
    ensures
        ({
            let name = c.required[next as int];
            let first = command_step_spec(
                c,
                index,
                ignore_unless,
                CommandStage::Requirement { next, retried: false },
                false,
            );
            let again = command_step_spec(
                c,
                index,
                ignore_unless,
                CommandStage::LoadingNvm { next },
                false,
            );
            &&& (name == "node"@ || name == "npm"@ || name == "npx"@) ==> first.stage
                == CommandStage::LoadingNvm { next } && first.action == CommandActionView::LoadNvm
                && again.stage == CommandStage::Requirement { next, retried: true }
                && again.action == CommandActionView::Lookup(name)
            &&& !(name == "node"@ || name == "npm"@ || name == "npx"@) ==> first.stage
                == CommandStage::Finished && first.action == CommandActionView::Fail(
                MoiErrorView::Config(missing_command_message(name)),
            )
        }),
{
}

} // verus!
