use moi::checkout::{clone_arguments, clone_branch, local_repository, modules_dir};
use moi::error::MoiError;
use moi::exec::dir::DirOperation;
use moi::exec::file::FileOperation;
use moi::install_command::{build_install_command, install_script_command, InstallCommandSettings};
use moi::model::dir::Dir;
use moi::model::env::Env;
use moi::model::file::File;
use moi::model::mode::Mode;
use moi::model::module::{Module, ModuleName, RawModule};
use moi::model::package::Packages;
use moi::model::platform_filter::PlatformFilter;
use moi::path::{expand_home, join_path};
use moi::util::tracing::{
    diagnostic_directives, diagnostic_filter, file_directives, filter_level, output_directives,
    output_filter, TracingLevel,
};

fn settings(install_source: &str, install_script: &str) -> InstallCommandSettings {
    InstallCommandSettings {
        environment: "host".to_string(),
        folder_name: "environments".to_string(),
        source: "https://github.com/konattsu/moi.git".to_string(),
        install_source: install_source.to_string(),
        install_script: install_script.to_string(),
    }
}

#[test]
fn test_install_script_command() {
    assert_eq!(
        install_script_command(&settings("https://raw.test/moi/main/", "/install.sh")),
        "curl -fsSL https://raw.test/moi/main/install.sh"
    );
    assert_eq!(
        install_script_command(&settings("file:///home/u/moi", "install.sh")),
        "cat /home/u/moi/install.sh"
    );
    assert_eq!(
        install_script_command(&settings("/my repo", "install.sh")),
        "cat '/my repo/install.sh'"
    );
}

#[test]
fn test_build_install_command() {
    let args = vec!["--platform".to_string(), "two words".to_string()];
    assert_eq!(
        build_install_command(&settings("https://raw.test/moi", "install.sh"), "apply", &args),
        "curl -fsSL https://raw.test/moi/install.sh \\\n  | MOI_ENVIRONMENT=host MOI_FOLDER_NAME=environments MOI_SOURCE=https://github.com/konattsu/moi.git bash -s -- apply --platform 'two words'"
    );
}

#[test]
fn test_tracing_levels() {
    assert_eq!(TracingLevel::parse(" DEBUG\n").unwrap(), TracingLevel::Debug);
    assert_eq!(TracingLevel::parse("warn").unwrap(), TracingLevel::Warn);
    assert_eq!(TracingLevel::parse("loud").unwrap_err(), "Invalid tracing level: loud");
    assert_eq!(TracingLevel::Trace.as_str(), "trace");
    assert_eq!(
        TracingLevel::Error.into_tracing_level_filter(),
        tracing::level_filters::LevelFilter::ERROR
    );
    assert_eq!(
        TracingLevel::Trace.into_tracing_level_filter(),
        tracing::level_filters::LevelFilter::TRACE
    );
    assert_eq!(
        TracingLevel::Info.into_tracing_level_filter(),
        tracing::level_filters::LevelFilter::INFO
    );
}

#[test]
fn test_tracing_directives() {
    assert_eq!(output_directives(true), "off");
    assert_eq!(output_directives(false), "off,moi::output=info");
    assert_eq!(diagnostic_directives(0), "off");
    assert_eq!(diagnostic_directives(1), "debug,moi::output=off,hyper_util=off");
    assert_eq!(diagnostic_directives(5), "trace,moi::output=off");
    assert_eq!(file_directives(None), "off");
    assert_eq!(file_directives(Some(TracingLevel::Trace)), "TRACE");
    assert_eq!(file_directives(Some(TracingLevel::Warn)), "WARN,hyper_util=off");
}

#[test]
fn test_error_reports() {
    let e = MoiError::command_failed(Some(3));
    assert_eq!(e.exit_code(), 3);
    assert_eq!(e.report_line(), "error: command failed with exit code 3");
    let e = MoiError::command_failed(None);
    assert_eq!(e.exit_code(), 1);
    let e = MoiError::command_failed(Some(-2));
    assert_eq!(e.message(), "command failed with exit code -2");
    let e = MoiError::config("bad".to_string());
    assert_eq!(e.exit_code(), 1);
    assert_eq!(e.report_line(), "error: bad");
    let e = MoiError::io("/x".to_string(), "denied".to_string());
    assert_eq!(e.message(), "/x: denied");
    let e = MoiError::Toml { path: "/m.toml".to_string(), message: "oops".to_string() };
    assert_eq!(e.message(), "/m.toml: invalid TOML: oops");
}

#[test]
fn test_checkout() {
    assert_eq!(local_repository("file:///home/u/moi"), Some("/home/u/moi".to_string()));
    assert_eq!(local_repository("https://x/moi.git"), None);
    assert_eq!(clone_branch(None), "main");
    assert_eq!(clone_branch(Some("dev".to_string())), "dev");
    assert_eq!(
        clone_arguments("main", "https://x/moi.git", "/tmp/moi-1"),
        ["clone", "--depth", "1", "--branch", "main", "https://x/moi.git", "/tmp/moi-1"]
    );
    assert_eq!(modules_dir("/repo", "environments", "host"), "/repo/environments/host/modules");
}

#[test]
fn test_paths() {
    assert_eq!(join_path("/a", "b"), "/a/b");
    assert_eq!(join_path("/a/", "b"), "/a/b");
    assert_eq!(join_path("/a", "/b"), "/b");
    assert_eq!(join_path("", "b"), "b");
    assert_eq!(expand_home("~", Some("/h")).unwrap(), "/h");
    assert_eq!(expand_home("~/x", Some("/h")).unwrap(), "/h/x");
    assert_eq!(expand_home("~x", None).unwrap(), "~x");
    assert_eq!(expand_home("/abs", None).unwrap(), "/abs");
}

fn module_at(path: &str) -> Module {
    let mut m = Module::from_raw(RawModule {
        name: ModuleName::new("git".to_string()).unwrap(),
        depends_on: Vec::new(),
        followups: Vec::new(),
        packages: Packages::empty(),
        dirs: Vec::new(),
        files: Vec::new(),
        blocks: Vec::new(),
        commands: Vec::new(),
        env: Env::empty(),
    })
    .unwrap();
    m.set_path(path.to_string());
    m
}

#[test]
fn test_dir_and_file_operations() {
    let dir = Dir::new("~/.ssh".to_string(), PlatformFilter::Debian, Some(Mode::new("700").unwrap())).unwrap();
    let op = DirOperation::resolve(&dir, Some("/home/u")).unwrap();
    assert_eq!(op.describe(), "dir [debian] /home/u/.ssh mode=0700");
    assert_eq!(op.path(), "/home/u/.ssh");
    assert_eq!(op.mode().map(Mode::value), Some(0o700));

    let file = File::new("files/config".to_string(), "/etc/x".to_string(), PlatformFilter::Common, None).unwrap();
    let module = module_at("/repo/git");
    assert_eq!(FileOperation::source_path(&module, &file), "/repo/git/files/config");
    let op = FileOperation::resolve(&module, &file, None, true).unwrap();
    assert_eq!(op.describe(), "file /repo/git/files/config -> /etc/x");
    assert_eq!(op.src(), "/repo/git/files/config");
    assert_eq!(op.dst(), "/etc/x");
    assert!(op.mode().is_none());
}

#[test]
fn test_filters_hold_their_directives() {
    assert_eq!(output_filter(true).to_string(), "off");
    assert_eq!(diagnostic_filter(0).to_string(), "off");
    assert_eq!(filter_level(None).to_string(), "off");
    assert_eq!(filter_level(Some(TracingLevel::Trace)).to_string(), "trace");
}

#[test]
fn test_tracing_level_from_str() {
    assert_eq!("Trace".parse::<TracingLevel>().unwrap(), TracingLevel::Trace);
    assert!("".parse::<TracingLevel>().is_err());
}

#[test]
fn test_level_filters_differ_and_are_never_off() {
    let levels = [
        TracingLevel::Error,
        TracingLevel::Warn,
        TracingLevel::Info,
        TracingLevel::Debug,
        TracingLevel::Trace,
    ];
    let filters: Vec<tracing::level_filters::LevelFilter> =
        levels.iter().map(|l| l.into_tracing_level_filter()).collect();
    assert_eq!(filters[1], tracing::level_filters::LevelFilter::WARN);
    assert_eq!(filters[3], tracing::level_filters::LevelFilter::DEBUG);
    for (i, a) in filters.iter().enumerate() {
        assert_ne!(*a, tracing::level_filters::LevelFilter::OFF);
        for (j, b) in filters.iter().enumerate() {
            if i != j {
                assert_ne!(a, b);
            }
        }
    }
}
