use moi::model::block::Block;
use moi::model::command::Command;
use moi::model::dir::Dir;
use moi::model::env::Env;
use moi::model::file::File;
use moi::model::mode::Mode;
use moi::model::module::{Module, ModuleName, RawModule};
use moi::model::package::Packages;
use moi::model::platform_filter::PlatformFilter;
use moi::platform::Platform;
use moi::report::{
    apply_module_line, collect_packages, followup_lines, plan_header, plan_module_line,
    should_show_followups,
};
use moi::steps::{module_steps, ModuleStep, StepKind};

fn packages(apt: &[&str], pacman: &[&str]) -> Packages {
    Packages::new(
        apt.iter().map(|p| p.to_string()).collect(),
        pacman.iter().map(|p| p.to_string()).collect(),
    )
    .unwrap()
}

fn simple_module(name: &str, pk: Packages, followups: &[&str]) -> Module {
    Module::from_raw(RawModule {
        name: ModuleName::new(name.to_string()).unwrap(),
        depends_on: Vec::new(),
        followups: followups.iter().map(|f| f.to_string()).collect(),
        packages: pk,
        dirs: Vec::new(),
        files: Vec::new(),
        blocks: Vec::new(),
        commands: Vec::new(),
        env: Env::empty(),
    })
    .unwrap()
}

fn full_module() -> Module {
    let mut module = Module::from_raw(RawModule {
        name: ModuleName::new("git".to_string()).unwrap(),
        depends_on: Vec::new(),
        followups: Vec::new(),
        packages: Packages::empty(),
        dirs: vec![
            Dir::new("~/.ssh".to_string(), PlatformFilter::Common, Some(Mode::new("700").unwrap())).unwrap(),
            Dir::new("/arch-only".to_string(), PlatformFilter::Arch, None).unwrap(),
        ],
        files: vec![File::new(
            "files/config".to_string(),
            "~/.config/git/config".to_string(),
            PlatformFilter::Debian,
            Some(Mode::new("644").unwrap()),
        )
        .unwrap()],
        blocks: vec![Block::new(
            "files/rc.sh".to_string(),
            "~/.bashrc".to_string(),
            "moi:git".to_string(),
            PlatformFilter::Common,
        )
        .unwrap()],
        commands: vec![
            Command::new(PlatformFilter::Arch, "pacman -Q".to_string(), None, Vec::new()).unwrap(),
            Command::new(
                PlatformFilter::Common,
                "npm i -g x".to_string(),
                Some("command -v x".to_string()),
                vec!["npm".to_string()],
            )
            .unwrap(),
        ],
        env: Env::empty(),
    })
    .unwrap();
    module.set_path("/repo/git".to_string());
    module
}

#[test]
fn test_collect_packages_keeps_first_occurrence_once() {
    let a = simple_module("a", packages(&["git", "curl"], &["git"]), &[]);
    let b = simple_module("b", packages(&["curl", "zsh", "git"], &[]), &[]);
    let modules = vec![&a, &b];
    assert_eq!(collect_packages(&modules, Platform::Debian), ["git", "curl", "zsh"]);
    assert_eq!(collect_packages(&modules, Platform::Arch), ["git"]);
}

#[test]
fn test_plan_header() {
    let a = simple_module("core", packages(&["git"], &[]), &[]);
    let b = simple_module("zsh", packages(&["git", "zsh"], &[]), &[]);
    let modules = vec![&a, &b];
    assert_eq!(
        plan_header(&modules, Platform::Debian),
        [
            "Modules:", "  - core", "  - zsh", "", "Platform: debian", "", "apt packages:",
            "  - git", "  - zsh", "", "Operations:",
        ]
    );
    assert_eq!(
        plan_header(&modules, Platform::Arch),
        [
            "Modules:", "  - core", "  - zsh", "", "Platform: arch", "", "pacman packages:",
            "  (none)", "", "Operations:",
        ]
    );
}

#[test]
fn test_followup_lines() {
    let a = simple_module("a", Packages::empty(), &["Run `gh auth login`."]);
    let b = simple_module("b", Packages::empty(), &[]);
    let c = simple_module("c", Packages::empty(), &["Log in again."]);
    assert_eq!(
        followup_lines(&vec![&a, &b, &c]),
        ["", "Follow-ups:", "  - Run `gh auth login`.", "  - Log in again."]
    );
    assert!(followup_lines(&vec![&b]).is_empty());
}

#[test]
fn test_should_show_followups() {
    assert!(should_show_followups(Some(true), None));
    assert!(!should_show_followups(Some(false), Some("1")));
    assert!(should_show_followups(None, Some("1")));
    assert!(!should_show_followups(None, Some("true")));
    assert!(!should_show_followups(None, None));
}

#[test]
fn test_module_lines() {
    let m = simple_module("zsh", Packages::empty(), &[]);
    assert_eq!(plan_module_line(&m), "[zsh]");
    assert_eq!(apply_module_line(&m), "==> zsh");
}

#[test]
fn test_module_steps_order_and_platform() {
    let module = full_module();
    let steps = module_steps(&module, Platform::Debian);
    assert_eq!(
        steps,
        vec![
            ModuleStep { kind: StepKind::Dir, index: 0 },
            ModuleStep { kind: StepKind::File, index: 0 },
            ModuleStep { kind: StepKind::Block, index: 0 },
            ModuleStep { kind: StepKind::Command, index: 1 },
        ]
    );
    let steps = module_steps(&module, Platform::Arch);
    assert_eq!(
        steps,
        vec![
            ModuleStep { kind: StepKind::Dir, index: 0 },
            ModuleStep { kind: StepKind::Dir, index: 1 },
            ModuleStep { kind: StepKind::Block, index: 0 },
            ModuleStep { kind: StepKind::Command, index: 0 },
            ModuleStep { kind: StepKind::Command, index: 1 },
        ]
    );
}

#[test]
fn test_step_plan_lines() {
    let module = full_module();
    let home = Some("/home/u");
    let dir = ModuleStep { kind: StepKind::Dir, index: 0 };
    assert_eq!(dir.source_path(&module), None);
    assert_eq!(dir.plan_lines(&module, home, true).unwrap(), ["dir /home/u/.ssh mode=0700"]);
    let file = ModuleStep { kind: StepKind::File, index: 0 };
    assert_eq!(file.source_path(&module), Some("/repo/git/files/config".to_string()));
    assert_eq!(
        file.plan_lines(&module, home, true).unwrap(),
        ["file [debian] /repo/git/files/config -> /home/u/.config/git/config mode=0644"]
    );
    assert_eq!(
        file.plan_lines(&module, home, false).unwrap_err().message(),
        "git: file source not found: /repo/git/files/config"
    );
    let block = ModuleStep { kind: StepKind::Block, index: 0 };
    assert_eq!(
        block.plan_lines(&module, home, true).unwrap(),
        ["block /repo/git/files/rc.sh -> /home/u/.bashrc marker=moi:git"]
    );
    let command = ModuleStep { kind: StepKind::Command, index: 1 };
    assert_eq!(
        command.plan_lines(&module, home, true).unwrap(),
        ["require npm", "unless command[2]", "run command[2]"]
    );
    let first = ModuleStep { kind: StepKind::Command, index: 0 };
    assert_eq!(first.plan_lines(&module, None, true).unwrap(), ["run [arch] command[1]"]);
    assert_eq!(dir.plan_lines(&module, None, true).unwrap_err().message(), "HOME is not set");
}

#[test]
fn test_plan_output_of_a_run() {
    let git = full_module();
    let core = simple_module("core", packages(&["git"], &[]), &["Log in."]);
    let modules = vec![&core, &git];
    let present = vec![vec![], vec![true, true, true, true]];
    let env = moi::exec::environment::ExecutionEnv::new("/usr/bin".to_string());
    let (lines, result) =
        moi::plan::plan_output(&modules, Platform::Debian, true, env, Some("/home/u"), &present);
    assert!(result.is_ok());
    assert_eq!(
        lines,
        [
            "Modules:",
            "  - core",
            "  - git",
            "",
            "Platform: debian",
            "",
            "apt packages:",
            "  - git",
            "",
            "Operations:",
            "[core]",
            "[git]",
            "dir /home/u/.ssh mode=0700",
            "file [debian] /repo/git/files/config -> /home/u/.config/git/config mode=0644",
            "block /repo/git/files/rc.sh -> /home/u/.bashrc marker=moi:git",
            "require npm",
            "unless command[2]",
            "run command[2]",
            "",
            "Follow-ups:",
            "  - Log in.",
        ]
    );
}

#[test]
fn test_plan_output_stops_at_first_error() {
    let git = full_module();
    let modules = vec![&git];
    let present = vec![vec![true, false, true, true]];
    let env = moi::exec::environment::ExecutionEnv::new(String::new());
    let (lines, result) =
        moi::plan::plan_output(&modules, Platform::Debian, true, env, Some("/h"), &present);
    assert_eq!(
        result.unwrap_err().message(),
        "git: file source not found: /repo/git/files/config"
    );
    assert_eq!(lines.last().unwrap(), "dir /h/.ssh mode=0700");
    assert_eq!(lines.len(), 11);
}
