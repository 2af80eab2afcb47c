use moi::model::block::Block;
use moi::model::command::Command;
use moi::model::dir::Dir;
use moi::model::env::Env;
use moi::model::file::File;
use moi::model::mode::Mode;
use moi::model::module::{Module, ModuleName, RawModule};
use moi::model::package::Packages;
use moi::model::platform_filter::{default_platform_filter, PlatformFilter};
use moi::platform::Platform;

#[test]
fn block_test_reject_parent_dir_src() {
    let error = Block::new(
        "../keychain.sh".to_string(),
        "~/.zshrc".to_string(),
        "moi:keychain".to_string(),
        default_platform_filter(),
    )
    .unwrap_err();

    assert!(error.contains("must not contain .."));
}

#[test]
fn test_reject_bad_marker() {
    for marker in ["", "a>>>b", "a\nb"] {
        let error = Block::new(
            "k.sh".to_string(),
            "~/.zshrc".to_string(),
            marker.to_string(),
            PlatformFilter::Common,
        )
        .unwrap_err();
        assert_eq!(
            error,
            "block marker must not be empty and must not contain >>> or newline"
        );
    }
}

#[test]
fn test_reject_requires_path() {
    let error = Command::new(
        default_platform_filter(),
        "true".to_string(),
        None,
        vec!["bin/tool".to_string()],
    )
    .unwrap_err();

    assert!(error.contains("invalid executable name"));
}

#[test]
fn test_reject_empty_unless() {
    let error = Command::new(
        default_platform_filter(),
        "true".to_string(),
        Some(String::new()),
        Vec::new(),
    )
    .unwrap_err();

    assert!(error.contains("command unless"));
}

#[test]
fn test_accept_executable_names() {
    let command = Command::new(
        PlatformFilter::Debian,
        "npm install".to_string(),
        Some("command -v codex".to_string()),
        vec!["npm".to_string(), "g++".to_string(), "python3.12".to_string()],
    )
    .unwrap();
    assert_eq!(command.run(), "npm install");
    assert_eq!(command.unless(), Some("command -v codex"));
    assert_eq!(command.required().len(), 3);
    assert_eq!(command.platform(), PlatformFilter::Debian);
}

#[test]
fn test_deserialize_without_mode() {
    let dir = Dir::new("~/.ssh".to_string(), default_platform_filter(), None).unwrap();

    assert!(dir.mode().is_none());
    assert_eq!(dir.platform(), PlatformFilter::Common);
}

#[test]
fn dir_test_deserialize_with_mode() {
    let dir = Dir::new(
        "~/.ssh".to_string(),
        default_platform_filter(),
        Some(Mode::new("700").unwrap()),
    )
    .unwrap();

    assert_eq!(dir.path(), "~/.ssh");
    assert_eq!(dir.mode().map(Mode::value), Some(0o700));
}

#[test]
fn dir_test_reject_shell_expansion() {
    let error = Dir::new("$HOME/.ssh".to_string(), default_platform_filter(), None).unwrap_err();

    assert!(error.contains("shell variable expansion is not supported"));
}

#[test]
fn test_deserialize_path_prepend() {
    let env = Env::new(vec!["~/.local/bin".to_string(), "/opt/bin".to_string()]).unwrap();

    assert_eq!(env.path_prepend().len(), 2);
}

#[test]
fn env_test_reject_shell_expansion() {
    let error = Env::new(vec!["$HOME/.local/bin".to_string()]).unwrap_err();

    assert!(error.contains("shell variable expansion is not supported"));
}

#[test]
fn test_reject_empty_path_prepend_entry() {
    let error = Env::new(vec!["/opt/bin".to_string(), String::new()]).unwrap_err();
    assert!(error.contains("env.path_prepend[1]"));
}

#[test]
fn file_test_deserialize_with_mode() {
    let file = File::new(
        "files/config".to_string(),
        "~/.config/moi/git/config".to_string(),
        default_platform_filter(),
        Some(Mode::new("644").unwrap()),
    )
    .unwrap();

    assert_eq!(file.src(), "files/config");
    assert_eq!(file.dst(), "~/.config/moi/git/config");
    assert_eq!(file.mode().map(Mode::value), Some(0o644));
}

#[test]
fn test_reject_absolute_src() {
    let error = File::new(
        "/tmp/config".to_string(),
        "~/.config/moi/git/config".to_string(),
        default_platform_filter(),
        None,
    )
    .unwrap_err();

    assert!(error.contains("file src: must be module-relative"));
}

#[test]
fn file_test_reject_parent_dir_src() {
    let error = File::new(
        "../config".to_string(),
        "~/.config/moi/git/config".to_string(),
        default_platform_filter(),
        None,
    )
    .unwrap_err();

    assert!(error.contains("must not contain .."));
}

#[test]
fn test_reject_empty_dst() {
    let error = File::new(
        "files/config".to_string(),
        String::new(),
        default_platform_filter(),
        None,
    )
    .unwrap_err();

    assert!(error.contains("file dst"));
}

#[test]
fn test_reject_empty_module_name() {
    let error = ModuleName::new(String::new()).unwrap_err();

    assert!(error.contains("module name"));
}

#[test]
fn test_reject_empty_followup() {
    let error = Module::from_raw(RawModule {
        name: ModuleName::new("core".to_string()).unwrap(),
        depends_on: Vec::new(),
        followups: vec![String::new()],
        packages: Packages::empty(),
        dirs: Vec::new(),
        files: Vec::new(),
        blocks: Vec::new(),
        commands: Vec::new(),
        env: Env::empty(),
    })
    .unwrap_err();

    assert!(error.contains("followups[0]"));
}

#[test]
fn test_reject_empty_package_name() {
    let error = Packages::new(vec![String::new()], Vec::new()).unwrap_err();

    assert!(error.contains("packages.apt[0]"));
}

#[test]
fn test_packages_for_platform() {
    let packages = Packages::new(
        vec!["git".to_string(), "curl".to_string()],
        vec!["git".to_string()],
    )
    .unwrap();
    assert_eq!(packages.for_platform(Platform::Debian), &vec!["git".to_string(), "curl".to_string()]);
    assert_eq!(packages.for_platform(Platform::Arch), &vec!["git".to_string()]);
    let error = Packages::new(Vec::new(), vec!["a".to_string(), String::new()]).unwrap_err();
    assert!(error.contains("packages.pacman[1]"));
}

#[test]
fn test_platform_filters() {
    assert!(PlatformFilter::Common.matches(Platform::Arch));
    assert!(PlatformFilter::Debian.matches(Platform::Debian));
    assert!(!PlatformFilter::Debian.matches(Platform::Arch));
    assert_eq!(PlatformFilter::Arch.label(), " [arch]");
    assert_eq!(PlatformFilter::Common.label(), "");
    assert_eq!(PlatformFilter::from_name("debian").unwrap(), PlatformFilter::Debian);
    assert_eq!(PlatformFilter::from_name("fedora").unwrap_err(), "unknown platform: fedora");
    assert_eq!(Platform::Debian.name(), "debian");
    assert_eq!(Platform::Arch.package_key(), "pacman");
}
