//! Settings: which environment to use, where its folder is, and where the
//! repository comes from; each taken from the command line, the process
//! environment or the configuration file, in that order.
use vstd::prelude::*;

use crate::error::{MoiError, MoiErrorView};
use crate::path::{has_parent_component, is_absolute, join};
use crate::text::{opt_str_view, opt_string_view, starts_with};

verus! {

/// The folder of environments when no setting names one.
pub open spec fn default_folder_name() -> Seq<char> {
    "environments"@
}

/// The repository when no setting names one.
pub open spec fn default_source() -> Seq<char> {
    "https://github.com/konattsu/moi.git"@
}

/// The resolved settings of a run.
#[derive(Debug)]
pub struct Settings {
    environment: String,
    folder_name: String,
    source: String,
}

/// The abstract value of [`Settings`].
pub struct SettingsView {
    pub environment: Seq<char>,
    pub folder_name: Seq<char>,
    pub source: Seq<char>,
}

impl View for Settings {
    type V = SettingsView;

    closed spec fn view(&self) -> SettingsView {
        SettingsView {
            environment: self.environment@,
            folder_name: self.folder_name@,
            source: self.source@,
        }
    }
}

/// The settings given on the command line.
#[derive(Debug, Clone, Copy)]
pub struct SettingsOverrides<'a> {
    pub environment: Option<&'a str>,
    pub folder_name: Option<&'a str>,
    pub source: Option<&'a str>,
}

/// The settings of the configuration file.
#[derive(Debug)]
pub struct ConfigFile {
    pub default_environment: Option<String>,
    pub default_folder_name: Option<String>,
    pub default_source: Option<String>,
}

/// The settings given by `MOI_ENVIRONMENT`, `MOI_FOLDER_NAME` and
/// `MOI_SOURCE`; an empty variable counts as unset.
#[derive(Debug)]
pub struct EnvOverrides {
    pub environment: Option<String>,
    pub folder_name: Option<String>,
    pub source: Option<String>,
}

/// The value of an environment variable as a setting: unset when empty.
pub open spec fn non_empty_value(v: Option<Seq<char>>) -> Option<Seq<char>> {
    match v {
        Some(s) => if s.len() == 0 {
            None
        } else {
            Some(s)
        },
        None => None,
    }
}

/// The error of a configuration key holding an empty string.
pub open spec fn empty_config_value_message(path: Seq<char>, key: Seq<char>) -> Seq<char> {
    path + ": "@ + key + " must be a non-empty string"@
}

/// What `validate_optional_string` decides.
pub open spec fn optional_string_check(value: Option<Seq<char>>, path: Seq<char>, key: Seq<char>) -> Result<
    (),
    MoiErrorView,
> {
    if value == Some(Seq::<char>::empty()) {
        Err(MoiErrorView::Config(empty_config_value_message(path, key)))
    } else {
        Ok(())
    }
}

/// What `ConfigFile::validate` decides: each key, in order, must not be empty.
pub open spec fn config_file_check(
    environment: Option<Seq<char>>,
    folder_name: Option<Seq<char>>,
    source: Option<Seq<char>>,
    path: Seq<char>,
) -> Result<(), MoiErrorView> {
    match optional_string_check(environment, path, "default_environment"@) {
        Err(e) => Err(e),
        Ok(()) => match optional_string_check(folder_name, path, "default_folder_name"@) {
            Err(e) => Err(e),
            Ok(()) => optional_string_check(source, path, "default_source"@),
        },
    }
}

/// The text with every `c` replaced by `d`.
pub open spec fn replace_char(s: Seq<char>, c: char, d: char) -> Seq<char> {
    s.map_values(|x: char| if x == c { d } else { x })
}

/// The first value present, in order of precedence: a non-empty command-line
/// value, the environment value, a non-empty configuration value, the
/// default.
pub open spec fn pick_setting(
    cli: Option<Seq<char>>,
    env: Option<Seq<char>>,
    file: Option<Seq<char>>,
    default: Option<Seq<char>>,
) -> Option<Seq<char>> {
    if cli is Some && cli->0.len() > 0 {
        cli
    } else if env is Some {
        env
    } else if file is Some && file->0.len() > 0 {
        file
    } else {
        default
    }
}

/// The error of a setting that has no value.
pub open spec fn missing_setting_message(
    display_name: Seq<char>,
    env_name: Seq<char>,
    config_path: Seq<char>,
) -> Seq<char> {
    "missing required setting: "@ + display_name + " (use --"@ + replace_char(
        display_name,
        '_',
        '-',
    ) + " or "@ + env_name + " or "@ + config_path + ")"@
}

/// What `resolve_setting` decides.
pub open spec fn resolve_setting_spec(
    cli: Option<Seq<char>>,
    env: Option<Seq<char>>,
    file: Option<Seq<char>>,
    env_name: Seq<char>,
    display_name: Seq<char>,
    default: Option<Seq<char>>,
    config_path: Seq<char>,
) -> Result<Seq<char>, MoiErrorView> {
    match pick_setting(cli, env, file, default) {
        Some(v) => Ok(v),
        None => Err(
            MoiErrorView::Config(missing_setting_message(display_name, env_name, config_path)),
        ),
    }
}

/// What `validate_source` decides: only `https://` and `file:///` sources.
pub open spec fn source_check(value: Seq<char>) -> Result<Seq<char>, MoiErrorView> {
    if starts_with(value, "https://"@) || starts_with(value, "file:///"@) {
        Ok(value)
    } else {
        Err(MoiErrorView::Config("source must start with \"https://\" or \"file:///\""@))
    }
}

/// The text without leading `/`.
pub open spec fn trim_leading_slashes(s: Seq<char>) -> Seq<char>
    decreases s.len(),
{
    if s.len() > 0 && s[0] == '/' {
        trim_leading_slashes(s.drop_first())
    } else {
        s
    }
}

/// The text without trailing `/`.
pub open spec fn trim_trailing_slashes(s: Seq<char>) -> Seq<char>
    decreases s.len(),
{
    if s.len() > 0 && s.last() == '/' {
        trim_trailing_slashes(s.drop_last())
    } else {
        s
    }
}

/// What `validate_folder_name` decides: a relative path without `..`,
/// returned without leading and trailing `/`.
pub open spec fn folder_name_check(value: Seq<char>) -> Result<Seq<char>, MoiErrorView> {
    if is_absolute(value) || has_parent_component(value) {
        Err(
            MoiErrorView::Config(
                "folder_name must be repository-relative and must not contain .."@,
            ),
        )
    } else {
        Ok(trim_trailing_slashes(trim_leading_slashes(value)))
    }
}

/// The text escaped for a TOML basic string: `\` and `"` get a backslash.
pub open spec fn escape_basic(s: Seq<char>) -> Seq<char>
    decreases s.len(),
{
    if s.len() == 0 {
        s
    } else {
        escape_basic(s.drop_last()) + if s.last() == '\\' {
            seq!['\\', '\\']
        } else if s.last() == '"' {
            seq!['\\', '"']
        } else {
            seq![s.last()]
        }
    }
}

/// The path of the configuration file under the home directory.
pub open spec fn config_path_spec(home: Option<Seq<char>>) -> Result<Seq<char>, MoiErrorView> {
    match home {
        None => Err(MoiErrorView::Config("HOME is not set"@)),
        Some(h) => Ok(join(join(h, ".config/moi"@), "config.toml"@)),
    }
}

/// What `Settings::resolve` decides from the three sources of settings.
pub open spec fn settings_spec(
    cli_environment: Option<Seq<char>>,
    cli_folder_name: Option<Seq<char>>,
    cli_source: Option<Seq<char>>,
    env: (Option<Seq<char>>, Option<Seq<char>>, Option<Seq<char>>),
    file: (Option<Seq<char>>, Option<Seq<char>>, Option<Seq<char>>),
    config_path: Seq<char>,
) -> Result<SettingsView, MoiErrorView> {
    match resolve_setting_spec(
        cli_environment,
        env.0,
        file.0,
        "MOI_ENVIRONMENT"@,
        "environment"@,
        None,
        config_path,
    ) {
        Err(e) => Err(e),
        Ok(environment) => match resolve_setting_spec(
            cli_folder_name,
            env.1,
            file.1,
            "MOI_FOLDER_NAME"@,
            "folder_name"@,
            Some(default_folder_name()),
            config_path,
        ) {
            Err(e) => Err(e),
            Ok(raw_folder) => match folder_name_check(raw_folder) {
                Err(e) => Err(e),
                Ok(folder_name) => match resolve_setting_spec(
                    cli_source,
                    env.2,
                    file.2,
                    "MOI_SOURCE"@,
                    "source"@,
                    Some(default_source()),
                    config_path,
                ) {
                    Err(e) => Err(e),
                    Ok(raw_source) => match source_check(raw_source) {
                        Err(e) => Err(e),
                        Ok(source) => Ok(SettingsView { environment, folder_name, source }),
                    },
                },
            },
        },
    }
}

/// The text of the configuration file written for these settings.
pub open spec fn config_text_spec(s: SettingsView) -> Seq<char> {
    "default_environment = \""@ + escape_basic(s.environment) + "\"\ndefault_folder_name = \""@
        + escape_basic(s.folder_name) + "\"\ndefault_source = \""@ + escape_basic(s.source)
        + "\"\n"@
}

/// The value of an environment variable as a setting: unset when empty.
pub fn read_env_value(value: Option<String>) -> (r: Option<String>)
    ensures
        opt_string_view(r) == non_empty_value(opt_string_view(value)),
{
    match value {
        Some(s) => if s.as_str().is_empty() {
            None
        } else {
            Some(s)
        },
        None => None,
    }
}

impl EnvOverrides {
    /// The overrides from the values of the three variables, empty ones
    /// counting as unset.
    pub fn from_values(
        environment: Option<String>,
        folder_name: Option<String>,
        source: Option<String>,
    ) -> (r: EnvOverrides)
        ensures
            opt_string_view(r.environment) == non_empty_value(opt_string_view(environment)),
            opt_string_view(r.folder_name) == non_empty_value(opt_string_view(folder_name)),
            opt_string_view(r.source) == non_empty_value(opt_string_view(source)),
    {
        EnvOverrides {
            environment: read_env_value(environment),
            folder_name: read_env_value(folder_name),
            source: read_env_value(source),
        }
    }
}

fn opt_as_str(v: &Option<String>) -> (r: Option<&str>)
    ensures
        opt_str_view(r) == opt_string_view(*v),
{
    match v {
        Some(s) => Some(s.as_str()),
        None => None,
    }
}

/// Rejects a configuration key that holds an empty string.
pub fn validate_optional_string(value: &Option<String>, path: &str, key: &str) -> (r: Result<
    (),
    MoiError,
>)
    ensures
        match r {
            Ok(()) => optional_string_check(opt_string_view(*value), path@, key@) == Ok::<
                (),
                MoiErrorView,
            >(()),
            Err(e) => optional_string_check(opt_string_view(*value), path@, key@) == Err::<
                (),
                MoiErrorView,
            >(e@),
        },
{
    let empty = match value {
        Some(s) => s.as_str().is_empty(),
        None => false,
    };
    proof {
        if let Some(s) = value {
            if s@.len() == 0 {
                assert(s@ =~= Seq::<char>::empty());
            }
        }
    }
    if empty {
        let mut message = crate::text::concat3(path, ": ", key);
        message.push_str(" must be a non-empty string");
        return Err(MoiError::config(message));
    }
    Ok(())
}

impl ConfigFile {
    /// A configuration without settings.
    pub fn empty() -> (c: ConfigFile)
        ensures
            c.default_environment is None,
            c.default_folder_name is None,
            c.default_source is None,
    {
        ConfigFile { default_environment: None, default_folder_name: None, default_source: None }
    }

    /// Rejects keys of the file at `path` that hold an empty string.
    pub fn validate(&self, path: &str) -> (r: Result<(), MoiError>)
        ensures
            match r {
                Ok(()) => config_file_check(
                    opt_string_view(self.default_environment),
                    opt_string_view(self.default_folder_name),
                    opt_string_view(self.default_source),
                    path@,
                ) == Ok::<(), MoiErrorView>(()),
                Err(e) => config_file_check(
                    opt_string_view(self.default_environment),
                    opt_string_view(self.default_folder_name),
                    opt_string_view(self.default_source),
                    path@,
                ) == Err::<(), MoiErrorView>(e@),
            },
    {
        validate_optional_string(&self.default_environment, path, "default_environment")?;
        validate_optional_string(&self.default_folder_name, path, "default_folder_name")?;
        validate_optional_string(&self.default_source, path, "default_source")?;
        Ok(())
    }
}

/// The text with every `_` replaced by `-`.
fn dashed(s: &str) -> (r: String)
    ensures
        r@ == replace_char(s@, '_', '-'),
{
    let v = crate::text::chars_of(s);
    let mut out: Vec<char> = Vec::new();
    let mut i: usize = 0;
    while i < v.len()
        invariant
            v@ == s@,
            i <= v.len(),
            out@ == replace_char(s@.take(i as int), '_', '-'),
        decreases v.len() - i,
    {
        let c = v[i];
        if c == '_' {
            out.push('-');
        } else {
            out.push(c);
        }
        i += 1;
        assert(out@ =~= replace_char(s@.take(i as int), '_', '-'));
    }
    assert(s@.take(v.len() as int) =~= s@);
    crate::text::string_of(&out)
}

/// The value of a setting from its sources, or the error naming how to give it.
pub fn resolve_setting(
    cli: Option<&str>,
    env: Option<&str>,
    file: Option<&str>,
    env_name: &str,
    display_name: &str,
    default: Option<&str>,
    config_path: &str,
) -> (r: Result<String, MoiError>)
    ensures
        crate::error::string_result(r) == resolve_setting_spec(
            opt_str_view(cli),
            opt_str_view(env),
            opt_str_view(file),
            env_name@,
            display_name@,
            opt_str_view(default),
            config_path@,
        ),
{
    if let Some(v) = cli {
        if !v.is_empty() {
            return Ok(crate::text::owned(v));
        }
    }
    if let Some(v) = env {
        return Ok(crate::text::owned(v));
    }
    if let Some(v) = file {
        if !v.is_empty() {
            return Ok(crate::text::owned(v));
        }
    }
    if let Some(v) = default {
        return Ok(crate::text::owned(v));
    }
    let mut message = crate::text::concat("missing required setting: ", display_name);
    message.push_str(" (use --");
    message.push_str(dashed(display_name).as_str());
    message.push_str(" or ");
    message.push_str(env_name);
    message.push_str(" or ");
    message.push_str(config_path);
    message.push_str(")");
    Err(MoiError::config(message))
}

/// Accepts a source that starts with `https://` or `file:///`.
pub fn validate_source(value: &str) -> (r: Result<String, MoiError>)
    ensures
        crate::error::string_result(r) == source_check(value@),
{
    if crate::text::has_prefix(value, "https://") || crate::text::has_prefix(value, "file:///") {
        return Ok(crate::text::owned(value));
    }
    Err(MoiError::config(crate::text::owned("source must start with \"https://\" or \"file:///\"")))
}

/// The text without leading and trailing `/`.
pub fn trim_slashes(value: &str) -> (r: String)
    ensures
        r@ == trim_trailing_slashes(trim_leading_slashes(value@)),
{
    let v = crate::text::chars_of(value);
    let mut start: usize = 0;
    assert(value@.skip(0) =~= value@);
    while start < v.len() && v[start] == '/'
        invariant
            v@ == value@,
            start <= v.len(),
            trim_leading_slashes(value@) == trim_leading_slashes(value@.skip(start as int)),
        decreases v.len() - start,
    {
        assert(value@.skip(start as int).drop_first() =~= value@.skip(start + 1));
        start += 1;
    }
    let ghost lead = value@.skip(start as int);
    assert(trim_leading_slashes(lead) == lead);
    let mut end: usize = v.len();
    while end > start && v[end - 1] == '/'
        invariant
            v@ == value@,
            start <= end <= v.len(),
            lead == value@.skip(start as int),
            trim_trailing_slashes(lead) == trim_trailing_slashes(
                value@.subrange(start as int, end as int),
            ),
        decreases end,
    {
        assert(value@.subrange(start as int, end as int).drop_last() =~= value@.subrange(
            start as int,
            end - 1,
        ));
        end -= 1;
    }
    if start == 0 && end == v.len() {
        assert(value@.subrange(0, v.len() as int) =~= value@);
        assert(value@.skip(0) =~= value@);
    }
    assert(lead.take((v.len() - start) as int) =~= lead);
    assert(value@.subrange(start as int, v.len() as int) =~= lead);
    let mut out: Vec<char> = Vec::new();
    let mut i = start;
    while i < end
        invariant
            v@ == value@,
            start <= i <= end <= v.len(),
            out@ == value@.subrange(start as int, i as int),
        decreases end - i,
    {
        out.push(v[i]);
        i += 1;
        assert(out@ =~= value@.subrange(start as int, i as int));
    }
    crate::text::string_of(&out)
}

/// Accepts a folder name relative to the repository and without `..`,
/// without its leading and trailing `/`.
pub fn validate_folder_name(value: &str) -> (r: Result<String, MoiError>)
    ensures
        crate::error::string_result(r) == folder_name_check(value@),
{
    if crate::path::path_is_absolute(value) || crate::path::path_has_parent_component(value) {
        return Err(
            MoiError::config(
                crate::text::owned(
                    "folder_name must be repository-relative and must not contain ..",
                ),
            ),
        );
    }
    Ok(trim_slashes(value))
}

/// The text escaped for a TOML basic string.
pub fn escape_basic_string(value: &str) -> (r: String)
    ensures
        r@ == escape_basic(value@),
{
    let v = crate::text::chars_of(value);
    let mut out: Vec<char> = Vec::new();
    let mut i: usize = 0;
    while i < v.len()
        invariant
            v@ == value@,
            i <= v.len(),
            out@ == escape_basic(value@.take(i as int)),
        decreases v.len() - i,
    {
        let c = v[i];
        let ghost before = out@;
        if c == '\\' {
            out.push('\\');
            out.push('\\');
        } else if c == '"' {
            out.push('\\');
            out.push('"');
        } else {
            out.push(c);
        }
        proof {
            assert(value@.take(i + 1).drop_last() =~= value@.take(i as int));
            assert(value@.take(i + 1).last() == c);
        }
        i += 1;
        assert(out@ =~= escape_basic(value@.take(i as int)));
    }
    assert(value@.take(v.len() as int) =~= value@);
    crate::text::string_of(&out)
}

/// The path of the configuration file: `.config/moi/config.toml` in the home
/// directory.
pub fn config_path(home: Option<&str>) -> (r: Result<String, MoiError>)
    ensures
        crate::error::string_result(r) == config_path_spec(opt_str_view(home)),
{
    match home {
        None => Err(MoiError::config(crate::text::owned("HOME is not set"))),
        Some(h) => {
            let dir = crate::path::join_path(h, ".config/moi");
            Ok(crate::path::join_path(dir.as_str(), "config.toml"))
        },
    }
}

impl Settings {
    /// The settings from the command line, the process environment and the
    /// configuration file at `config_path`, each taken from the first source
    /// that gives it; the folder name and source are checked.
    pub fn resolve(
        cli: SettingsOverrides,
        env: &EnvOverrides,
        config: &ConfigFile,
        config_path: &str,
    ) -> (r: Result<Settings, MoiError>)
        ensures
            match r {
                Ok(s) => settings_spec(
                    opt_str_view(cli.environment),
                    opt_str_view(cli.folder_name),
                    opt_str_view(cli.source),
                    (
                        opt_string_view(env.environment),
                        opt_string_view(env.folder_name),
                        opt_string_view(env.source),
                    ),
                    (
                        opt_string_view(config.default_environment),
                        opt_string_view(config.default_folder_name),
                        opt_string_view(config.default_source),
                    ),
                    config_path@,
                ) == Ok::<SettingsView, MoiErrorView>(s@),
                Err(e) => settings_spec(
                    opt_str_view(cli.environment),
                    opt_str_view(cli.folder_name),
                    opt_str_view(cli.source),
                    (
                        opt_string_view(env.environment),
                        opt_string_view(env.folder_name),
                        opt_string_view(env.source),
                    ),
                    (
                        opt_string_view(config.default_environment),
                        opt_string_view(config.default_folder_name),
                        opt_string_view(config.default_source),
                    ),
                    config_path@,
                ) == Err::<SettingsView, MoiErrorView>(e@),
            },
    {
        proof {
            reveal_strlit("environments");
        }
        let environment = resolve_setting(
            cli.environment,
            opt_as_str(&env.environment),
            opt_as_str(&config.default_environment),
            "MOI_ENVIRONMENT",
            "environment",
            None,
            config_path,
        )?;
        let raw_folder = resolve_setting(
            cli.folder_name,
            opt_as_str(&env.folder_name),
            opt_as_str(&config.default_folder_name),
            "MOI_FOLDER_NAME",
            "folder_name",
            Some("environments"),
            config_path,
        )?;
        let folder_name = validate_folder_name(raw_folder.as_str())?;
        let raw_source = resolve_setting(
            cli.source,
            opt_as_str(&env.source),
            opt_as_str(&config.default_source),
            "MOI_SOURCE",
            "source",
            Some("https://github.com/konattsu/moi.git"),
            config_path,
        )?;
        let source = validate_source(raw_source.as_str())?;
        Ok(Settings { environment, folder_name, source })
    }

    /// The environment to process.
    pub fn environment(&self) -> (s: &str)
        ensures
            s@ == self@.environment,
    {
        self.environment.as_str()
    }

    /// The folder of environments, relative to the repository.
    pub fn folder_name(&self) -> (s: &str)
        ensures
            s@ == self@.folder_name,
    {
        self.folder_name.as_str()
    }

    /// The repository source.
    pub fn source(&self) -> (s: &str)
        ensures
            s@ == self@.source,
    {
        self.source.as_str()
    }

    /// The configuration file that records these settings.
    pub fn config_text(&self) -> (s: String)
        ensures
            s@ == config_text_spec(self@),
    {
        let mut s = crate::text::owned("default_environment = \"");
        s.push_str(escape_basic_string(self.environment.as_str()).as_str());
        s.push_str("\"\ndefault_folder_name = \"");
        s.push_str(escape_basic_string(self.folder_name.as_str()).as_str());
        s.push_str("\"\ndefault_source = \"");
        s.push_str(escape_basic_string(self.source.as_str()).as_str());
        s.push_str("\"\n");
        s
    }
}

/// A value given on the command line wins over every other source, unless
/// it is empty.
pub proof fn lemma_command_line_wins(
    cli: Seq<char>,
    env: Option<Seq<char>>,
    file: Option<Seq<char>>,
    env_name: Seq<char>,
    display_name: Seq<char>,
    default: Option<Seq<char>>,
    config_path: Seq<char>,
)
    requires
        cli.len() > 0,
    ensures
        resolve_setting_spec(Some(cli), env, file, env_name, display_name, default, config_path)
            == Ok::<Seq<char>, MoiErrorView>(cli),
{
}

/// Without a command-line value, the environment's value wins over the
/// configuration file and the default.
pub proof fn lemma_environment_before_file(
    cli: Option<Seq<char>>,
    env: Seq<char>,
    file: Option<Seq<char>>,
    env_name: Seq<char>,
    display_name: Seq<char>,
    default: Option<Seq<char>>,
    config_path: Seq<char>,
)
    requires
        cli is None || cli->0.len() == 0,
    ensures
        resolve_setting_spec(cli, Some(env), file, env_name, display_name, default, config_path)
            == Ok::<Seq<char>, MoiErrorView>(env),
{
}

/// Without a command-line or environment value, a non-empty value of the
/// configuration file wins over the default.
pub proof fn lemma_file_before_default(
    cli: Option<Seq<char>>,
    file: Seq<char>,
    env_name: Seq<char>,
    display_name: Seq<char>,
    default: Option<Seq<char>>,
    config_path: Seq<char>,
)
    requires
        cli is None || cli->0.len() == 0,
        file.len() > 0,
    ensures
        resolve_setting_spec(cli, None, Some(file), env_name, display_name, default, config_path)
            == Ok::<Seq<char>, MoiErrorView>(file),
{
}

/// The default is used only when no source gives a value, and a setting
/// without one is an error that names how to give it.
pub proof fn lemma_default_last(
    cli: Option<Seq<char>>,
    file: Option<Seq<char>>,
    env_name: Seq<char>,
    display_name: Seq<char>,
    default: Option<Seq<char>>,
    config_path: Seq<char>,
)
    requires
        cli is None || cli->0.len() == 0,
        file is None || file->0.len() == 0,
    ensures
        resolve_setting_spec(cli, None, file, env_name, display_name, default, config_path) == match default {
            Some(d) => Ok::<Seq<char>, MoiErrorView>(d),
            None => Err(
                MoiErrorView::Config(missing_setting_message(display_name, env_name, config_path)),
            ),
        },
{
}

proof fn lemma_trim_leading(s: Seq<char>) -> (a: int)
    ensures
        0 <= a <= s.len(),
        trim_leading_slashes(s) == s.skip(a),
        forall|i: int| 0 <= i < a ==> s[i] == '/',
        a < s.len() ==> s[a] != '/',
    decreases s.len(),
{
    if s.len() > 0 && s[0] == '/' {
        let a0 = lemma_trim_leading(s.drop_first());
        assert(s.drop_first().skip(a0) =~= s.skip(a0 + 1));
        assert forall|i: int| 0 <= i < a0 + 1 implies s[i] == '/' by {
            if i > 0 {
                assert(s.drop_first()[i - 1] == s[i]);
            }
        }
        if a0 + 1 < s.len() {
            assert(s.drop_first()[a0] == s[a0 + 1]);
        }
        a0 + 1
    } else {
        assert(s.skip(0) =~= s);
        0
    }
}

proof fn lemma_trim_trailing(t: Seq<char>) -> (b: int)
    ensures
        0 <= b <= t.len(),
        trim_trailing_slashes(t) == t.take(b),
        forall|i: int| b <= i < t.len() ==> t[i] == '/',
        b > 0 ==> t[b - 1] != '/',
    decreases t.len(),
{
    if t.len() > 0 && t.last() == '/' {
        let b0 = lemma_trim_trailing(t.drop_last());
        assert(t.drop_last().take(b0) =~= t.take(b0));
        assert forall|i: int| b0 <= i < t.len() implies t[i] == '/' by {
            if i < t.len() - 1 {
                assert(t.drop_last()[i] == t[i]);
            }
        }
        if b0 > 0 {
            assert(t.drop_last()[b0 - 1] == t[b0 - 1]);
        }
        b0
    } else {
        assert(t.take(t.len() as int) =~= t);
        t.len() as int
    }
}

/// A folder name that passed the check passes it again unchanged: it is
/// relative, has no `..`, and has no leading or trailing `/` left to trim.
proof fn lemma_folder_name_stable(v: Seq<char>)
    requires
        folder_name_check(v) is Ok,
    ensures
        folder_name_check(folder_name_check(v)->Ok_0) == folder_name_check(v),
{
    let t = trim_leading_slashes(v);
    let a = lemma_trim_leading(v);
    let b = lemma_trim_trailing(t);
    let r = trim_trailing_slashes(t);
    assert(r == v.subrange(a, a + b));
    assert(!is_absolute(r)) by {
        if r.len() > 0 {
            assert(r[0] == v[a]);
        }
    }
    assert(!has_parent_component(r)) by {
        if has_parent_component(r) {
            let i = choose|i: int| crate::path::parent_component_at(r, i);
            assert(r[i] == v[a + i]);
            assert(r[i + 1] == v[a + i + 1]);
            if i > 0 {
                assert(r[i - 1] == v[a + i - 1]);
            }
            if i + 2 < r.len() {
                assert(r[i + 2] == v[a + i + 2]);
            } else if a + i + 2 < v.len() {
                assert(t[b] == v[a + b]);
            }
            assert(crate::path::parent_component_at(v, a + i));
        }
    }
    let a2 = lemma_trim_leading(r);
    if r.len() > 0 {
        assert(r[0] == v[a]);
        assert(a2 == 0);
    }
    assert(r.skip(0) =~= r);
    let b2 = lemma_trim_trailing(r);
    if r.len() > 0 {
        assert(r.last() == t[b - 1]);
        assert(b2 == r.len());
    }
    assert(r.take(r.len() as int) =~= r);
}

/// Settings written to the configuration file resolve to the same settings
/// when read back with nothing given on the command line or in the
/// environment, provided the environment and folder name are not empty
/// (an empty value in the file counts as unset).
pub proof fn lemma_written_settings_resolve_again(
    cli_environment: Option<Seq<char>>,
    cli_folder_name: Option<Seq<char>>,
    cli_source: Option<Seq<char>>,
    env: (Option<Seq<char>>, Option<Seq<char>>, Option<Seq<char>>),
    file: (Option<Seq<char>>, Option<Seq<char>>, Option<Seq<char>>),
    config_path: Seq<char>,
    read_path: Seq<char>,
)
    requires
        settings_spec(cli_environment, cli_folder_name, cli_source, env, file, config_path) is Ok,
        settings_spec(cli_environment, cli_folder_name, cli_source, env, file, config_path)->Ok_0.environment.len() > 0,
        settings_spec(cli_environment, cli_folder_name, cli_source, env, file, config_path)->Ok_0.folder_name.len() > 0,
    ensures
        ({
            let s = settings_spec(cli_environment, cli_folder_name, cli_source, env, file, config_path)->Ok_0;
            settings_spec(
                None,
                None,
                None,
                (None, None, None),
                (Some(s.environment), Some(s.folder_name), Some(s.source)),
                read_path,
            ) == Ok::<SettingsView, MoiErrorView>(s)
        }),
{
    let s = settings_spec(cli_environment, cli_folder_name, cli_source, env, file, config_path)->Ok_0;
    let raw_folder = resolve_setting_spec(
        cli_folder_name,
        env.1,
        file.1,
        "MOI_FOLDER_NAME"@,
        "folder_name"@,
        Some(default_folder_name()),
        config_path,
    )->Ok_0;
    lemma_folder_name_stable(raw_folder);
    let raw_source = resolve_setting_spec(
        cli_source,
        env.2,
        file.2,
        "MOI_SOURCE"@,
        "source"@,
        Some(default_source()),
        config_path,
    )->Ok_0;
    assert(s.source == raw_source);
    assert(s.source.len() > 0) by {
        reveal_strlit("https://");
        reveal_strlit("file:///");
        if starts_with(s.source, "https://"@) {
            assert(s.source.len() >= 8);
        } else {
            assert(s.source.len() >= 8);
        }
    }
}

} // verus!
