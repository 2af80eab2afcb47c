use moi::exec::command::{command_step, plan_lines, CommandAction, CommandStage};
use moi::model::command::Command;
use moi::model::platform_filter::PlatformFilter;

fn command(unless: Option<&str>, required: &[&str]) -> Command {
    Command::new(
        PlatformFilter::Common,
        "npm install -g @openai/codex".to_string(),
        unless.map(|u| u.to_string()),
        required.iter().map(|r| r.to_string()).collect(),
    )
    .unwrap()
}

/// Drives the steps with the given outcomes; returns the lines shown and
/// the actions in order, as text.
fn drive(c: &Command, ignore_unless: bool, outcomes: &[bool]) -> (Vec<String>, Vec<String>) {
    let mut stage = CommandStage::Start;
    let mut succeeded = true;
    let mut lines = Vec::new();
    let mut actions = Vec::new();
    let mut next = outcomes.iter();
    loop {
        let step = command_step(c, 3, ignore_unless, stage, succeeded);
        lines.extend(step.lines);
        stage = step.stage;
        let text = match step.action {
            CommandAction::Lookup(name) => format!("lookup {name}"),
            CommandAction::LoadNvm => "load nvm".to_string(),
            CommandAction::RunGuard(g) => format!("guard {g}"),
            CommandAction::RunCommand(r) => format!("run {r}"),
            CommandAction::Fail(e) => {
                actions.push(format!("fail {}", e.message()));
                return (lines, actions);
            }
            CommandAction::Done => {
                actions.push("done".to_string());
                return (lines, actions);
            }
        };
        actions.push(text);
        succeeded = *next.next().unwrap_or(&true);
    }
}

#[test]
fn test_plan_lines_of_a_command() {
    let c = command(Some("command -v codex"), &["npm"]);
    assert_eq!(plan_lines(&c, 3, false), ["require npm", "unless command[3]", "run command[3]"]);
    assert_eq!(plan_lines(&c, 3, true), ["require npm", "run command[3]"]);
}

#[test]
fn test_guard_that_succeeds_skips_the_command() {
    let c = command(Some("command -v codex"), &["npm"]);
    let (lines, actions) = drive(&c, false, &[true, true]);
    assert_eq!(lines, ["require npm", "unless command[3]", "skip command[3]"]);
    assert_eq!(actions, ["lookup npm", "guard command -v codex", "done"]);
}

#[test]
fn test_guard_that_fails_runs_the_command() {
    let c = command(Some("command -v codex"), &[]);
    let (lines, actions) = drive(&c, false, &[false, true]);
    assert_eq!(lines, ["unless command[3]", "run command[3]"]);
    assert_eq!(actions, ["guard command -v codex", "run npm install -g @openai/codex", "done"]);
}

#[test]
fn test_ignore_unless_runs_without_guard() {
    let c = command(Some("command -v codex"), &[]);
    let (lines, actions) = drive(&c, true, &[true]);
    assert_eq!(lines, ["run command[3]"]);
    assert_eq!(actions, ["run npm install -g @openai/codex", "done"]);
}

#[test]
fn test_missing_nvm_command_is_looked_up_again_after_nvm() {
    let c = command(None, &["npm", "git"]);
    let (_, actions) = drive(&c, false, &[false, true, true, true, true]);
    assert_eq!(
        actions,
        ["lookup npm", "load nvm", "lookup npm", "lookup git", "run npm install -g @openai/codex", "done"]
    );
    let (_, actions) = drive(&c, false, &[false, true, false]);
    assert_eq!(actions, ["lookup npm", "load nvm", "lookup npm", "fail required command not found: npm"]);
}

#[test]
fn test_missing_command_fails_at_once() {
    let c = command(Some("true"), &["git"]);
    let (lines, actions) = drive(&c, false, &[false]);
    assert_eq!(lines, ["require git"]);
    assert_eq!(actions, ["lookup git", "fail required command not found: git"]);
}
