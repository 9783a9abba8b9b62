use ruyiseek::hotkey::ArrowKey;
use ruyiseek::ipc::DaemonStatus;
use ruyiseek::launcher::{
    autostart_undo, wait_step, DaemonProbe, WaitStep, drains_queue, last_command, lock_action, ui_event_effect, DesktopAction, LockAction,
    LockSignal, ResultEntry, UiEffect, UiEvent, WorkerCommand,
};

fn entry(title: &str) -> ResultEntry {
    ResultEntry {
        title: title.to_owned(),
        path: format!("/home/a/{title}").into_bytes(),
        kind: "文件",
        score: "0.500000".to_owned(),
    }
}

fn status() -> DaemonStatus {
    DaemonStatus {
        indexed_items: 12,
        skipped_paths: 1,
        truncated: true,
    }
}

#[test]
fn stale_search_answers_are_dropped() {
    let stale = UiEvent::Search { generation: 3, result: Ok(vec![entry("old.txt")]) };
    assert!(matches!(ui_event_effect(stale, 4, "new", true), UiEffect::Nothing));
    let current = UiEvent::Search { generation: 4, result: Ok(vec![entry("new.txt")]) };
    match ui_event_effect(current, 4, "new", true) {
        UiEffect::ShowResults { entries, status } => {
            assert_eq!(entries.len(), 1);
            assert_eq!(entries[0].title, "new.txt");
            assert!(status.is_none());
        }
        _ => panic!("current answers are shown"),
    }
    match ui_event_effect(UiEvent::Search { generation: 4, result: Ok(Vec::new()) }, 4, "zzz", true) {
        UiEffect::ShowResults { entries, status } => {
            assert!(entries.is_empty());
            assert_eq!(status.as_deref(), Some("没有找到匹配项"));
        }
        _ => panic!("an empty answer says so"),
    }
    match ui_event_effect(UiEvent::Search { generation: 4, result: Err("连接失败".to_owned()) }, 4, "x", true) {
        UiEffect::ClearResults(message) => assert_eq!(message, "连接失败"),
        _ => panic!("a failed search clears the results"),
    }
}

#[test]
fn status_and_hotkey_messages_wait_for_a_blank_query() {
    match ui_event_effect(UiEvent::Status(Ok(status())), 0, "  ", false) {
        UiEffect::ShowStatus(text) => assert_eq!(text, "已索引 12 项，跳过 1 个路径（索引已达上限）"),
        _ => panic!("status shows while the query is blank"),
    }
    assert!(matches!(ui_event_effect(UiEvent::Status(Ok(status())), 0, "report", false), UiEffect::Nothing));
    match ui_event_effect(UiEvent::Status(Err("无法连接".to_owned())), 0, "report", false) {
        UiEffect::ShowStatus(text) => assert_eq!(text, "无法连接"),
        _ => panic!("status errors always show"),
    }
    assert!(matches!(
        ui_event_effect(UiEvent::HotkeyIssue("双击 Ctrl 不可用".to_owned()), 0, "report", true),
        UiEffect::Nothing
    ));
    assert!(matches!(
        ui_event_effect(UiEvent::HotkeyIssue("双击 Ctrl 不可用".to_owned()), 0, "", true),
        UiEffect::ShowStatus(_)
    ));
}

#[test]
fn arrows_act_only_while_visible_and_shutdown_outcomes() {
    assert!(matches!(ui_event_effect(UiEvent::Arrow(ArrowKey::Down), 0, "", false), UiEffect::Nothing));
    assert!(matches!(
        ui_event_effect(UiEvent::Arrow(ArrowKey::Down), 0, "", true),
        UiEffect::MoveSelection(ArrowKey::Down)
    ));
    assert!(matches!(
        ui_event_effect(UiEvent::Desktop(DesktopAction::Toggle), 0, "", true),
        UiEffect::Desktop(DesktopAction::Toggle)
    ));
    assert!(matches!(ui_event_effect(UiEvent::Shutdown(Ok(())), 0, "", true), UiEffect::Quit));
    match ui_event_effect(UiEvent::Shutdown(Err("超时".to_owned())), 0, "", true) {
        UiEffect::ShowLauncherWithError(text) => assert_eq!(text, "后台停止失败，尚未退出：超时"),
        _ => panic!("a failed shutdown shows the launcher"),
    }
}

#[test]
fn bursts_of_searches_run_only_the_newest() {
    let search = |generation: u64| WorkerCommand::Search { generation, query: format!("q{generation}") };
    assert!(drains_queue(&search(1)));
    assert!(!drains_queue(&WorkerCommand::Status));
    assert!(!drains_queue(&WorkerCommand::Shutdown));
    match last_command(search(1), vec![search(2), search(3)]) {
        WorkerCommand::Search { generation, query } => {
            assert_eq!(generation, 3);
            assert_eq!(query, "q3");
        }
        _ => panic!("the newest search runs"),
    }
    assert!(matches!(last_command(search(1), vec![search(2), WorkerCommand::Shutdown]), WorkerCommand::Shutdown));
    assert!(matches!(last_command(search(5), Vec::new()), WorkerCommand::Search { generation: 5, .. }));
}

#[test]
fn failed_saves_undo_the_autostart_change() {
    assert_eq!(autostart_undo(true, false, false), Some(false));
    assert_eq!(autostart_undo(true, false, true), Some(true));
    assert_eq!(autostart_undo(true, true, false), None);
    assert_eq!(autostart_undo(false, false, true), None);
}

#[test]
fn lock_monitor_fails_closed() {
    assert_eq!(
        lock_action(LockSignal::Changed { session_interface: true, hint: Some(1), invalidated: false }),
        LockAction::SetLocked(true)
    );
    assert_eq!(
        lock_action(LockSignal::Changed { session_interface: true, hint: Some(0), invalidated: true }),
        LockAction::SetLocked(false)
    );
    assert_eq!(
        lock_action(LockSignal::Changed { session_interface: false, hint: Some(1), invalidated: false }),
        LockAction::Keep
    );
    assert_eq!(
        lock_action(LockSignal::Changed { session_interface: true, hint: None, invalidated: true }),
        LockAction::Refresh
    );
    assert_eq!(
        lock_action(LockSignal::Changed { session_interface: true, hint: None, invalidated: false }),
        LockAction::Keep
    );
    assert_eq!(lock_action(LockSignal::Refreshed(Some(false))), LockAction::SetLocked(false));
    assert_eq!(lock_action(LockSignal::Refreshed(None)), LockAction::SetLocked(true));
    assert_eq!(lock_action(LockSignal::MonitorFailed), LockAction::SetLocked(true));
}

#[test]
fn waiting_for_the_daemon_probes_pauses_and_gives_up_with_the_last_probe() {
    assert_eq!(wait_step(None, false, 0, 100), WaitStep::Probe);
    assert_eq!(wait_step(None, false, 100, 100), WaitStep::Finish(DaemonProbe::Unavailable));
    assert_eq!(wait_step(Some(DaemonProbe::Ready), false, 500, 100), WaitStep::Finish(DaemonProbe::Ready));
    assert_eq!(wait_step(Some(DaemonProbe::Initializing), false, 500, 100), WaitStep::Sleep);
    assert_eq!(wait_step(Some(DaemonProbe::Initializing), true, 50, 100), WaitStep::Probe);
    assert_eq!(
        wait_step(Some(DaemonProbe::Initializing), true, 150, 100),
        WaitStep::Finish(DaemonProbe::Initializing)
    );
}
