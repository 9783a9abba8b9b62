use ruyiseek::config::{
    after_loading, after_previous, check_schema, config_home, default_path, previous_path, settings_update,
    AppConfig, ConfigError, LoadStep, SCHEMA_VERSION,
};

fn custom() -> AppConfig {
    AppConfig {
        schema_version: SCHEMA_VERSION,
        launch_at_login: true,
        double_ctrl_enabled: false,
        suppress_in_fullscreen: false,
    }
}

#[test]
fn defaults_enable_the_hotkey_and_fullscreen_guard() {
    let config = AppConfig::default();
    assert_eq!(config.schema_version, 1);
    assert!(!config.launch_at_login);
    assert!(config.double_ctrl_enabled);
    assert!(config.suppress_in_fullscreen);
}

#[test]
fn future_schemas_are_refused() {
    let future = AppConfig { schema_version: 99, ..AppConfig::default() };
    match check_schema(future) {
        Err(error) => {
            assert!(matches!(error, ConfigError::UnsupportedVersion(99)));
            assert_eq!(error.message(), "不支持配置版本 99");
        }
        Ok(_) => panic!("a future schema must not load"),
    }
    assert_eq!(check_schema(custom()).expect("current schema"), custom());
}

#[test]
fn configuration_directory_and_paths() {
    assert_eq!(
        config_home(Some(b"/xdg".to_vec()), Some(b"/home/a".to_vec())).expect("xdg"),
        b"/xdg".to_vec()
    );
    assert_eq!(
        config_home(Some(Vec::new()), Some(b"/home/a".to_vec())).expect("home"),
        b"/home/a/.config".to_vec()
    );
    let missing = config_home(None, Some(Vec::new())).expect_err("no home");
    assert!(matches!(missing, ConfigError::MissingConfigHome));
    assert_eq!(missing.message(), "未设置 HOME 或 XDG_CONFIG_HOME");
    let path = default_path(&b"/home/a/.config/".to_vec());
    assert_eq!(path, b"/home/a/.config/ruyiseek/config.toml".to_vec());
    assert_eq!(previous_path(&path), b"/home/a/.config/ruyiseek/config.toml.previous".to_vec());
}

#[test]
fn missing_file_means_defaults_and_damage_means_previous() {
    match after_loading(Ok(custom()), false) {
        LoadStep::Use(config) => assert_eq!(config, custom()),
        LoadStep::TryPrevious(_) => panic!("a good file is used"),
    }
    let absent = std::io::Error::new(std::io::ErrorKind::NotFound, "absent");
    match after_loading(Err(ConfigError::Io(absent)), true) {
        LoadStep::Use(config) => assert_eq!(config, AppConfig::default()),
        LoadStep::TryPrevious(_) => panic!("a missing file means the defaults"),
    }
    let denied = std::io::Error::new(std::io::ErrorKind::PermissionDenied, "denied");
    assert!(matches!(after_loading(Err(ConfigError::Io(denied)), false), LoadStep::TryPrevious(ConfigError::Io(_))));
    let damaged = toml::from_str::<toml::Value>("not valid toml = [").expect_err("invalid toml");
    let step = after_loading(Err(ConfigError::Decode(damaged)), false);
    let LoadStep::TryPrevious(error) = step else {
        panic!("a damaged file sends the reader to the previous copy");
    };
    assert!(error.message().starts_with("TOML 解析失败："));

    let (config, warning) = after_previous(error, Ok(custom()));
    assert_eq!(config, custom());
    assert!(warning.starts_with("配置文件损坏，已使用上一次配置：TOML 解析失败："));

    let (config, warning) = after_previous(ConfigError::UnsupportedVersion(7), Err(ConfigError::MissingConfigHome));
    assert_eq!(config, AppConfig::default());
    assert_eq!(warning, "配置文件无法读取，已恢复默认值：不支持配置版本 7");
}

#[test]
fn saving_settings_reports_autostart_changes() {
    let (updated, autostart_changed) = settings_update(AppConfig::default(), true, false, true);
    assert_eq!(
        updated,
        AppConfig {
            schema_version: SCHEMA_VERSION,
            launch_at_login: true,
            double_ctrl_enabled: false,
            suppress_in_fullscreen: true,
        }
    );
    assert!(autostart_changed);
    let (_, unchanged) = settings_update(custom(), true, true, true);
    assert!(!unchanged);
}
