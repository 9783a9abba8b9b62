use ruyiseek::domain::{ItemKind, SearchHit, SearchItem};
use ruyiseek::hotkey::ArrowKey;
use ruyiseek::ipc::{ClientError, DaemonStatus, ProtocolError, Response};
use ruyiseek::launcher::{
    action_for_method, apply_arrow_to_selection, classify_daemon_probe, connection_message, daemon_search_dirs,
    desktop_command, file_uri_text, kind_label, launch_step, locked_hint, method_for_action, parse_args,
    path_text, query_edited, result_at, reveal_parent, search_outcome, set_mode, shutdown_outcome,
    startup_step, status_message, status_outcome, DaemonProbe, DesktopAction, LaunchMode, LaunchStep,
    Options, SessionClaim, StartupStage, StartupStep, WindowCommand,
};
use std::io;

fn args(values: &[&str]) -> Vec<String> {
    values.iter().map(|value| (*value).to_owned()).collect()
}

#[test]
fn normal_launch_requests_show() {
    assert_eq!(parse_args(args(&[])).unwrap(), Options::default());
}

#[test]
fn parses_desktop_control_modes() {
    for (argument, expected) in [
        ("--background", LaunchMode::Background),
        ("--toggle", LaunchMode::Toggle),
        ("--hide", LaunchMode::Hide),
        ("--settings", LaunchMode::Settings),
        ("--exit-ui", LaunchMode::ExitUi),
        ("--quit", LaunchMode::Quit),
    ] {
        assert_eq!(parse_args(args(&[argument])).unwrap().mode, expected);
    }
}

#[test]
fn rejects_conflicting_control_modes() {
    let error = parse_args(args(&["--background", "--quit"])).unwrap_err();
    assert_eq!(error.message(), "只能指定一个启动/控制选项");
}

#[test]
fn protocol_timeout_is_not_treated_as_an_absent_daemon() {
    assert_eq!(
        classify_daemon_probe(Err(ClientError::Protocol(ProtocolError::Io(io::Error::new(
            io::ErrorKind::TimedOut,
            "daemon is initializing",
        ))))),
        DaemonProbe::Initializing
    );
}

#[test]
fn connect_failure_is_reported_as_unavailable() {
    assert_eq!(
        classify_daemon_probe(Err(ClientError::Connect {
            socket: b"/run/user/1000/ruyiseek/daemon.sock".to_vec(),
            source: io::Error::new(io::ErrorKind::NotFound, "socket is absent"),
        })),
        DaemonProbe::Unavailable
    );
}

#[test]
fn reveal_parent_strips_one_path_component() {
    assert_eq!(reveal_parent(b"/home/syc/RuyiSeek/README.md"), b"/home/syc/RuyiSeek".to_vec());
    assert_eq!(reveal_parent(b"foo.txt"), b"/".to_vec());
    assert_eq!(reveal_parent(b"/var/log"), b"/var".to_vec());
}

#[test]
fn reveal_parent_of_roots_and_relative_paths() {
    assert_eq!(reveal_parent(b"/"), b"/".to_vec());
    assert_eq!(reveal_parent(b""), b"/".to_vec());
    assert_eq!(reveal_parent(b"/etc"), b"/".to_vec());
    assert_eq!(reveal_parent(b"./notes/a.txt"), b"./notes".to_vec());
    assert_eq!(reveal_parent(b"a//b/./c/"), b"a/b".to_vec());
}

#[test]
fn launch_flags_and_modes() {
    let options = parse_args(args(&["--demo-double-ctrl", "-h"])).unwrap();
    assert!(options.demo_double_ctrl && options.help);
    assert_eq!(options.mode, LaunchMode::Show);
    assert_eq!(parse_args(args(&["--what"])).unwrap_err().message(), "未知参数：--what");
    assert_eq!(LaunchMode::Background.action(), None);
    assert_eq!(LaunchMode::Quit.action(), Some(DesktopAction::QuitAll));
    let mut mode = None;
    assert!(set_mode(&mut mode, LaunchMode::Hide).is_ok());
    assert!(set_mode(&mut mode, LaunchMode::Show).is_err());
    assert_eq!(mode, Some(LaunchMode::Show));
    assert_eq!(launch_step(LaunchMode::Show, SessionClaim::Forwarded), LaunchStep::Exit);
    assert_eq!(launch_step(LaunchMode::Hide, SessionClaim::Failed), LaunchStep::Exit);
    assert_eq!(launch_step(LaunchMode::Quit, SessionClaim::Primary), LaunchStep::StopDaemonAndExit);
    assert_eq!(launch_step(LaunchMode::Background, SessionClaim::Failed), LaunchStep::RunUi);
    assert_eq!(desktop_command(DesktopAction::Toggle, true), WindowCommand::HideLauncher);
    assert_eq!(desktop_command(DesktopAction::Toggle, false), WindowCommand::ShowLauncher);
}

#[test]
fn arrows_move_the_selection_within_the_list() {
    assert_eq!(apply_arrow_to_selection(0, 0, ArrowKey::Down), None);
    assert_eq!(apply_arrow_to_selection(3, 0, ArrowKey::Down), Some(1));
    assert_eq!(apply_arrow_to_selection(3, 2, ArrowKey::Down), Some(2));
    assert_eq!(apply_arrow_to_selection(3, 0, ArrowKey::Up), Some(0));
    assert_eq!(apply_arrow_to_selection(3, -4, ArrowKey::Down), Some(1));
    assert_eq!(apply_arrow_to_selection(3, 1, ArrowKey::Left), None);
}

#[test]
fn query_edits_and_result_rows() {
    let edit = query_edited(u64::MAX, "  ");
    assert_eq!(edit.generation, 0);
    assert!(!edit.search);
    assert!(query_edited(1, " a ").search);
    let paths = vec![b"/a".to_vec(), b"/b".to_vec()];
    assert_eq!(result_at(&paths, 1), Some(b"/b".to_vec()));
    assert_eq!(result_at(&paths, 2), None);
    assert_eq!(result_at(&paths, -1), None);
}

#[test]
fn status_and_connection_messages() {
    let status = DaemonStatus { indexed_items: 10, skipped_paths: 2, truncated: true };
    assert_eq!(status_message(&status), "已索引 10 项，跳过 2 个路径（索引已达上限）");
    let open = DaemonStatus { indexed_items: 1, skipped_paths: 0, truncated: false };
    assert_eq!(status_message(&open), "已索引 1 项，跳过 0 个路径");
    assert_eq!(connection_message("refused"), "无法连接后台服务：refused。请先启动 ruyiseekd");
    assert_eq!(kind_label(ItemKind::Directory), "文件夹");
    assert_eq!(kind_label(ItemKind::File), "文件");
}

#[test]
fn daemon_answers_become_what_the_window_shows() {
    let status = DaemonStatus { indexed_items: 1, skipped_paths: 0, truncated: false };
    assert_eq!(status_outcome(Ok(Response::Status(status))).unwrap(), status);
    assert_eq!(status_outcome(Ok(Response::Acknowledged)).unwrap_err(), "后台服务返回了意外的状态响应");
    assert_eq!(status_outcome(Ok(Response::Error("busy".to_owned()))).unwrap_err(), "busy");
    let refused = ClientError::Protocol(ProtocolError::EmptyMessage);
    assert_eq!(
        status_outcome(Err(refused)).unwrap_err(),
        "无法连接后台服务：empty IPC message。请先启动 ruyiseekd"
    );
    let hit = SearchHit {
        item: SearchItem {
            id: 3,
            name: "docs".to_owned(),
            path: b"/home/docs".to_vec(),
            kind: ItemKind::Directory,
            hidden: false,
        },
        score: "0.900000".to_owned(),
    };
    let entries = search_outcome(Ok(Response::Search { elapsed_us: 5, hits: vec![hit] })).unwrap();
    assert_eq!(entries.len(), 1);
    assert_eq!(entries[0].title, "docs");
    assert_eq!(entries[0].kind, "文件夹");
    assert_eq!(entries[0].path, b"/home/docs".to_vec());
    assert!(shutdown_outcome(Ok(Response::Acknowledged)).is_ok());
    assert_eq!(shutdown_outcome(Ok(Response::Pong { protocol_version: 1 })).unwrap_err(), "后台服务返回了意外的停止响应");
}

#[test]
fn an_initializing_daemon_is_never_doubled() {
    assert_eq!(startup_step(StartupStage::FirstProbe, DaemonProbe::Ready), StartupStep::Done);
    assert_eq!(startup_step(StartupStage::FirstProbe, DaemonProbe::Initializing), StartupStep::Wait);
    assert_eq!(startup_step(StartupStage::FirstProbe, DaemonProbe::Unavailable), StartupStep::Spawn);
    assert_eq!(startup_step(StartupStage::AfterWaiting, DaemonProbe::Initializing), StartupStep::StillInitializing);
    assert_eq!(startup_step(StartupStage::AfterWaiting, DaemonProbe::Unavailable), StartupStep::Spawn);
    assert_eq!(startup_step(StartupStage::AfterSpawn, DaemonProbe::Unavailable), StartupStep::TimedOut);
}

#[test]
fn daemon_binary_search_directories() {
    let dirs = daemon_search_dirs(Some(b"/opt/bin:/home/u/bin".to_vec()));
    assert_eq!(
        dirs,
        vec![
            b"/usr/bin".to_vec(),
            b"/usr/local/bin".to_vec(),
            b"/bin".to_vec(),
            b"/sbin".to_vec(),
            b"/usr/sbin".to_vec(),
            b"/opt/bin".to_vec(),
            b"/home/u/bin".to_vec(),
        ]
    );
    assert_eq!(daemon_search_dirs(None).len(), 5);
}

#[test]
fn clipboard_texts_show_paths_as_text() {
    assert_eq!(file_uri_text(b"/tmp/a b.txt"), b"file:///tmp/a b.txt\n".to_vec());
    assert_eq!(path_text(b"/tmp/x"), b"/tmp/x\n".to_vec());
    // A byte that is not UTF-8 shows as the replacement character.
    assert_eq!(path_text(b"/tmp/\xFF"), "/tmp/\u{FFFD}\n".as_bytes().to_vec());
}

#[test]
fn session_bus_methods_and_lock_hints() {
    assert_eq!(method_for_action(DesktopAction::Toggle), Some("ToggleLauncher"));
    assert_eq!(method_for_action(DesktopAction::Settings), None);
    assert_eq!(action_for_method("Quit"), Some(DesktopAction::QuitAll));
    assert_eq!(action_for_method("Other"), None);
    assert_eq!(locked_hint(Some(1)), Some(true));
    assert_eq!(locked_hint(Some(0)), Some(false));
    assert_eq!(locked_hint(None), None);
}

// A `LockedHint` property reaches the library as the integer its D-Bus variant reads
// as: `true` is 1 and `false` is 0; a missing property is `None`.
#[test]
fn reads_locked_hint_from_changed_properties() {
    assert_eq!(locked_hint(Some(1)), Some(true));
    assert_eq!(locked_hint(Some(0)), Some(false));
}

#[test]
fn missing_locked_hint_is_ignored() {
    assert_eq!(locked_hint(None), None);
}
