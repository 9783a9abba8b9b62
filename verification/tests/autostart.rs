use ruyiseek::autostart::{default_path, desktop_entry, escape_exec_argument, is_managed_entry};

#[test]
fn exec_argument_escapes_field_codes_and_shell_metacharacters() {
    assert_eq!(
        escape_exec_argument("/tmp/a% b$`\\\""),
        "\"/tmp/a%% b\\$\\`\\\\\\\"\""
    );
}

#[test]
fn written_entry_starts_in_background_and_is_managed() {
    let source = desktop_entry(b"/opt/Ruyi Seek/ruyiseek-ui");
    assert!(source.contains("Exec=\"/opt/Ruyi Seek/ruyiseek-ui\" --background"));
    assert!(source.starts_with("[Desktop Entry]\nType=Application\n"));
    assert!(source.ends_with("OnlyShowIn=Deepin;\nX-RuyiSeek-Managed=true\n"));
    assert!(is_managed_entry(&source));
}

#[test]
fn foreign_entries_are_not_managed() {
    assert!(!is_managed_entry("[Desktop Entry]\nExec=foreign\n"));
    assert!(!is_managed_entry("X-RuyiSeek-Managed=true-ish\n"));
    assert!(!is_managed_entry(""));
    assert!(is_managed_entry("[Desktop Entry]\nX-RuyiSeek-Managed=true"));
}

#[test]
fn autostart_entry_lives_under_the_config_directory() {
    assert_eq!(
        default_path(&b"/home/a/.config".to_vec()),
        b"/home/a/.config/autostart/io.github.ethanbird.RuyiSeek.desktop".to_vec()
    );
}

#[test]
fn percent_signs_in_paths_are_doubled() {
    assert_eq!(escape_exec_argument("100%"), "\"100%%\"");
    assert_eq!(escape_exec_argument(""), "\"\"");
}
