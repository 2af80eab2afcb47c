use moi::config::{
    config_path, escape_basic_string, resolve_setting, validate_folder_name,
    validate_optional_string, validate_source, ConfigFile, EnvOverrides, Settings,
    SettingsOverrides,
};

fn no_cli() -> SettingsOverrides<'static> {
    SettingsOverrides { environment: None, folder_name: None, source: None }
}

fn no_env() -> EnvOverrides {
    EnvOverrides::from_values(None, None, None)
}

#[test]
fn test_settings_use_defaults() {
    let cli = SettingsOverrides { environment: Some("host"), folder_name: None, source: None };
    let settings = Settings::resolve(cli, &no_env(), &ConfigFile::empty(), "/h/.config/moi/config.toml").unwrap();
    assert_eq!(settings.environment(), "host");
    assert_eq!(settings.folder_name(), "environments");
    assert_eq!(settings.source(), "https://github.com/konattsu/moi.git");
}

#[test]
fn test_settings_precedence_command_line_then_environment_then_file() {
    let env = EnvOverrides::from_values(
        Some("from-env".to_string()),
        Some(String::new()),
        Some("file:///env/repo".to_string()),
    );
    let file = ConfigFile {
        default_environment: Some("from-file".to_string()),
        default_folder_name: Some("/envs/".to_string()),
        default_source: Some("https://file.test/repo".to_string()),
    };
    let cli = SettingsOverrides { environment: Some(""), folder_name: Some("cli-envs/"), source: None };
    let settings = Settings::resolve(cli, &env, &file, "/c").unwrap();
    assert_eq!(settings.environment(), "from-env");
    assert_eq!(settings.folder_name(), "cli-envs");
    assert_eq!(settings.source(), "file:///env/repo");

    let settings = Settings::resolve(no_cli(), &no_env(), &file, "/c").unwrap_err();
    assert_eq!(
        settings.message(),
        "folder_name must be repository-relative and must not contain .."
    );
}

#[test]
fn test_missing_environment_names_how_to_give_it() {
    let error = Settings::resolve(no_cli(), &no_env(), &ConfigFile::empty(), "/h/.config/moi/config.toml")
        .unwrap_err();
    assert_eq!(
        error.message(),
        "missing required setting: environment (use --environment or MOI_ENVIRONMENT or /h/.config/moi/config.toml)"
    );
    let error = resolve_setting(None, None, None, "MOI_FOLDER_NAME", "folder_name", None, "/c").unwrap_err();
    assert_eq!(
        error.message(),
        "missing required setting: folder_name (use --folder-name or MOI_FOLDER_NAME or /c)"
    );
}

#[test]
fn test_source_must_be_https_or_file() {
    assert_eq!(validate_source("https://x/y.git").unwrap(), "https://x/y.git");
    assert_eq!(validate_source("file:///repo").unwrap(), "file:///repo");
    assert_eq!(
        validate_source("git@github.com:x/y.git").unwrap_err().message(),
        "source must start with \"https://\" or \"file:///\""
    );
    assert!(validate_source("file://relative").is_err());
}

#[test]
fn test_folder_name_checks() {
    assert_eq!(validate_folder_name("a/b//").unwrap(), "a/b");
    assert!(validate_folder_name("//a/b").is_err());
    assert_eq!(validate_folder_name("environments").unwrap(), "environments");
    assert!(validate_folder_name("/abs").is_err());
    assert!(validate_folder_name("a/../b").is_err());
    assert!(validate_folder_name("..").is_err());
    assert_eq!(validate_folder_name("a..b").unwrap(), "a..b");
}

#[test]
fn test_config_file_rejects_empty_values() {
    let file = ConfigFile {
        default_environment: Some("host".to_string()),
        default_folder_name: Some(String::new()),
        default_source: None,
    };
    assert_eq!(
        file.validate("/c.toml").unwrap_err().message(),
        "/c.toml: default_folder_name must be a non-empty string"
    );
    assert!(ConfigFile::empty().validate("/c.toml").is_ok());
    assert!(validate_optional_string(&Some("x".to_string()), "/c", "k").is_ok());
}

#[test]
fn test_config_text_escapes_values() {
    assert_eq!(escape_basic_string("a\"b\\c"), "a\\\"b\\\\c");
    let cli = SettingsOverrides { environment: Some("ho\"st"), folder_name: None, source: None };
    let settings = Settings::resolve(cli, &no_env(), &ConfigFile::empty(), "/c").unwrap();
    assert_eq!(
        settings.config_text(),
        "default_environment = \"ho\\\"st\"\ndefault_folder_name = \"environments\"\ndefault_source = \"https://github.com/konattsu/moi.git\"\n"
    );
}

#[test]
fn test_config_path_is_under_home() {
    assert_eq!(config_path(Some("/home/u")).unwrap(), "/home/u/.config/moi/config.toml");
    assert_eq!(config_path(None).unwrap_err().message(), "HOME is not set");
}

#[test]
fn test_written_settings_resolve_again() {
    let env = EnvOverrides::from_values(None, Some("envs/".to_string()), Some("file:///r".to_string()));
    let cli = SettingsOverrides { environment: Some("host"), folder_name: None, source: None };
    let first = Settings::resolve(cli, &env, &ConfigFile::empty(), "/c").unwrap();
    let file = ConfigFile {
        default_environment: Some(first.environment().to_string()),
        default_folder_name: Some(first.folder_name().to_string()),
        default_source: Some(first.source().to_string()),
    };
    let again = Settings::resolve(no_cli(), &no_env(), &file, "/c").unwrap();
    assert_eq!(again.environment(), "host");
    assert_eq!(again.folder_name(), "envs");
    assert_eq!(again.source(), "file:///r");
}
