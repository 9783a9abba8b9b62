//! The launcher's preferences: their defaults and schema, where they live, what a
//! damaged file falls back to, and what saving changed settings involves.

use vstd::prelude::*;
use vstd::utf8::encode_utf8;
use crate::text::{copy_bytes, push_str};

verus! {

/// The configuration schema this version reads and writes.
pub const SCHEMA_VERSION: u16 = 1;

/// The launcher's preferences.
#[derive(Clone, Copy, Debug, PartialEq, Eq, Structural)]
pub struct AppConfig {
    pub schema_version: u16,
    pub launch_at_login: bool,
    pub double_ctrl_enabled: bool,
    pub suppress_in_fullscreen: bool,
}

pub open spec fn default_config() -> AppConfig {
    AppConfig {
        schema_version: SCHEMA_VERSION,
        launch_at_login: false,
        double_ctrl_enabled: true,
        suppress_in_fullscreen: true,
    }
}

impl Default for AppConfig {
    fn default() -> (config: AppConfig)
        ensures
            config == default_config(),
    {
        AppConfig {
            schema_version: SCHEMA_VERSION,
            launch_at_login: false,
            double_ctrl_enabled: true,
            suppress_in_fullscreen: true,
        }
    }
}

#[verifier::external_type_specification]
#[verifier::external_body]
pub struct ExTomlDecodeError(toml::de::Error);

#[verifier::external_type_specification]
#[verifier::external_body]
pub struct ExTomlEncodeError(toml::ser::Error);

/// Why the preferences could not be read or written.
#[derive(Debug)]
pub enum ConfigError {
    Io(std::io::Error),
    Decode(toml::de::Error),
    Encode(toml::ser::Error),
    UnsupportedVersion(u16),
    MissingConfigHome,
}

/// Calls `Display` for a TOML decoding error through `format!`; the text is left
/// unsaid.
#[verifier::external_body]
fn decode_error_text(error: &toml::de::Error) -> String {
    format!("{error}")
}

/// Calls `Display` for a TOML encoding error through `format!`; the text is left
/// unsaid.
#[verifier::external_body]
fn encode_error_text(error: &toml::ser::Error) -> String {
    format!("{error}")
}

/// The fixed part of an error's text, before any description that comes from the
/// system or the TOML library.
pub open spec fn config_error_prefix(e: ConfigError) -> Seq<char> {
    match e {
        ConfigError::Io(_) => seq![],
        ConfigError::Decode(_) => "TOML 解析失败："@,
        ConfigError::Encode(_) => "TOML 序列化失败："@,
        ConfigError::UnsupportedVersion(v) => "不支持配置版本 "@ + crate::text::decimal_text(v as nat),
        ConfigError::MissingConfigHome => "未设置 HOME 或 XDG_CONFIG_HOME"@,
    }
}

impl ConfigError {
    /// The text of the error, as `Display` writes it.
    pub fn message(&self) -> (text: String)
        ensures
            crate::text::starts_with(text@, config_error_prefix(*self)),
            (self is UnsupportedVersion || self is MissingConfigHome) ==> text@ == config_error_prefix(*self),
    {
        let mut text = String::new();
        match self {
            ConfigError::Io(error) => {
                text = crate::ipc::io_error_text(error);
                assert(text@.take(0) =~= Seq::<char>::empty());
            },
            ConfigError::Decode(error) => {
                push_str(&mut text, "TOML 解析失败：");
                let ghost head = text@;
                let detail = decode_error_text(error);
                push_str(&mut text, detail.as_str());
                assert(text@.take(head.len() as int) =~= head);
            },
            ConfigError::Encode(error) => {
                push_str(&mut text, "TOML 序列化失败：");
                let ghost head = text@;
                let detail = encode_error_text(error);
                push_str(&mut text, detail.as_str());
                assert(text@.take(head.len() as int) =~= head);
            },
            ConfigError::UnsupportedVersion(v) => {
                push_str(&mut text, "不支持配置版本 ");
                crate::text::push_decimal(&mut text, *v as u64);
                assert(text@.take(text@.len() as int) =~= text@);
            },
            ConfigError::MissingConfigHome => {
                push_str(&mut text, "未设置 HOME 或 XDG_CONFIG_HOME");
                assert(text@.take(text@.len() as int) =~= text@);
            },
        }
        text
    }
}

/// A decoded configuration is accepted only in the current schema.
pub fn check_schema(config: AppConfig) -> (r: Result<AppConfig, ConfigError>)
    ensures
        config.schema_version == SCHEMA_VERSION ==> (r matches Ok(c) && c == config),
        config.schema_version != SCHEMA_VERSION ==> (r matches Err(ConfigError::UnsupportedVersion(v)) && v
            == config.schema_version),
{
    if config.schema_version != SCHEMA_VERSION {
        return Err(ConfigError::UnsupportedVersion(config.schema_version));
    }
    Ok(config)
}

// ---------------------------------------------------------------------------
// Where the files live
// ---------------------------------------------------------------------------

/// The directory of user configuration: `XDG_CONFIG_HOME` where set and not empty,
/// else `.config` in a non-empty `HOME`.
pub fn config_home(xdg_config_home: Option<Vec<u8>>, home: Option<Vec<u8>>) -> (r: Result<Vec<u8>, ConfigError>)
    ensures
        match (xdg_config_home, home) {
            (Some(x), _) if x@.len() > 0 => r matches Ok(p) && p@ == x@,
            (_, Some(h)) if h@.len() > 0 => r matches Ok(p) && p@ == crate::ipc::join_relative(h@, encode_utf8(".config"@)),
            _ => r matches Err(ConfigError::MissingConfigHome),
        },
{
    if let Some(x) = &xdg_config_home {
        if x.len() > 0 {
            return Ok(copy_bytes(x.as_slice()));
        }
    }
    if let Some(h) = &home {
        if h.len() > 0 {
            return Ok(join_path(h, ".config"));
        }
    }
    Err(ConfigError::MissingConfigHome)
}

/// `dir` joined with a relative path (`Path::join`).
pub fn join_path(dir: &Vec<u8>, rel: &str) -> (p: Vec<u8>)
    ensures
        p@ == crate::ipc::join_relative(dir@, encode_utf8(rel@)),
{
    let mut p = copy_bytes(dir.as_slice());
    if !(dir.len() > 0 && dir[dir.len() - 1] == 0x2F) {
        p.push(0x2F);
    }
    let tail = crate::text::bytes_of(rel);
    p.extend_from_slice(tail.as_slice());
    p
}

/// Where the preferences are kept under the configuration directory.
pub fn default_path(config_home: &Vec<u8>) -> (p: Vec<u8>)
    ensures
        p@ == crate::ipc::join_relative(config_home@, encode_utf8("ruyiseek/config.toml"@)),
{
    join_path(config_home, "ruyiseek/config.toml")
}

/// The copy of the previous preferences beside the file: its name with `.previous`.
pub fn previous_path(path: &Vec<u8>) -> (p: Vec<u8>)
    ensures
        p@ == path@ + encode_utf8(".previous"@),
{
    let mut p = copy_bytes(path.as_slice());
    let tail = crate::text::bytes_of(".previous");
    p.extend_from_slice(tail.as_slice());
    p
}

// ---------------------------------------------------------------------------
// Reading resiliently
// ---------------------------------------------------------------------------

/// What reading the preferences leads to.
pub enum LoadStep {
    /// Use this configuration; nothing to report.
    Use(AppConfig),
    /// The file was damaged: read the previous copy.
    TryPrevious(ConfigError),
}

/// After reading the file: a good file is used, a missing file means the defaults,
/// and anything else sends the reader to the previous copy. `not_found` says whether
/// a failed read failed because the file does not exist (`ErrorKind::NotFound`).
pub fn after_loading(loaded: Result<AppConfig, ConfigError>, not_found: bool) -> (step: LoadStep)
    ensures
        match loaded {
            Ok(c) => step == LoadStep::Use(c),
            Err(ConfigError::Io(e)) => if not_found {
                step == LoadStep::Use(default_config())
            } else {
                step == LoadStep::TryPrevious(ConfigError::Io(e))
            },
            Err(e) => step == LoadStep::TryPrevious(e),
        },
{
    match loaded {
        Ok(config) => LoadStep::Use(config),
        Err(ConfigError::Io(error)) => {
            if not_found {
                LoadStep::Use(AppConfig::default())
            } else {
                LoadStep::TryPrevious(ConfigError::Io(error))
            }
        },
        Err(error) => LoadStep::TryPrevious(error),
    }
}

/// After reading the previous copy: use it and say the file was damaged, or fall back
/// to the defaults and say the file could not be read.
pub fn after_previous(error: ConfigError, previous: Result<AppConfig, ConfigError>) -> (out: (AppConfig, String))
    ensures
        match previous {
            Ok(c) => out.0 == c && crate::text::starts_with(out.1@, "配置文件损坏，已使用上一次配置："@ + config_error_prefix(error)),
            Err(_) => out.0 == default_config() && crate::text::starts_with(out.1@, "配置文件无法读取，已恢复默认值："@ + config_error_prefix(error)),
        },
{
    let detail = error.message();
    let mut text = String::new();
    let config = match previous {
        Ok(c) => {
            push_str(&mut text, "配置文件损坏，已使用上一次配置：");
            c
        },
        Err(_) => {
            push_str(&mut text, "配置文件无法读取，已恢复默认值：");
            AppConfig::default()
        },
    };
    let ghost head = text@;
    push_str(&mut text, detail.as_str());
    proof {
        let p = config_error_prefix(error);
        assert(text@.take((head.len() + p.len()) as int) =~= head + p);
    }
    (config, text)
}

// ---------------------------------------------------------------------------
// Saving settings
// ---------------------------------------------------------------------------

/// The preferences after the settings window was saved, and whether the autostart
/// entry has to change.
pub fn settings_update(previous: AppConfig, launch_at_login: bool, double_ctrl_enabled: bool, suppress_in_fullscreen: bool) -> (out: (
    AppConfig,
    bool,
))
    ensures
        out.0 == (AppConfig {
            schema_version: previous.schema_version,
            launch_at_login,
            double_ctrl_enabled,
            suppress_in_fullscreen,
        }),
        out.1 == (previous.launch_at_login != launch_at_login),
{
    (
        AppConfig { schema_version: previous.schema_version, launch_at_login, double_ctrl_enabled, suppress_in_fullscreen },
        previous.launch_at_login != launch_at_login,
    )
}

} // verus!
