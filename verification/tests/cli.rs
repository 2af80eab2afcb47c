use moi::cli::{ApplyArgs, Cli, Command, OutputArgs, PlatformArg, RunArgs, SettingsArgs};

fn run_args(show: bool, hide: bool) -> RunArgs {
    RunArgs { platform: PlatformArg::Auto, show_followups: show, no_followups: hide, modules: Vec::new() }
}

#[test]
fn test_stdout_settings_follow_output_flags() {
    let cli = Cli {
        settings: SettingsArgs { environment: None, folder_name: None, source: None },
        output: OutputArgs { quiet: true, verbose: 0 },
        command: Command::Plan(run_args(false, false)),
    };
    let settings = cli.stdout_settings();
    assert!(settings.quiet);
    assert_eq!(settings.verbose, 0);
}

#[test]
fn test_followups_override() {
    assert_eq!(run_args(true, false).followups_override(), Some(true));
    assert_eq!(run_args(false, true).followups_override(), Some(false));
    assert_eq!(run_args(false, false).followups_override(), None);
}

#[test]
fn test_run_args_of_both_commands() {
    let apply = Command::Apply(ApplyArgs {
        run: RunArgs {
            platform: PlatformArg::Arch,
            show_followups: false,
            no_followups: false,
            modules: vec!["git".to_string()],
        },
        ignore_unless: true,
        upgrade_packages: true,
    });
    assert_eq!(apply.run_args().platform, PlatformArg::Arch);
    assert_eq!(apply.run_args().modules, vec!["git".to_string()]);
    let plan = Command::Plan(run_args(true, false));
    assert!(plan.run_args().show_followups);
}

#[test]
fn test_settings_args_give_overrides() {
    let args = SettingsArgs {
        environment: Some("host".to_string()),
        folder_name: None,
        source: Some("file:///repo".to_string()),
    };
    let o = args.overrides();
    assert_eq!(o.environment, Some("host"));
    assert_eq!(o.folder_name, None);
    assert_eq!(o.source, Some("file:///repo"));
}
