//! The launcher's decisions: its command line and launch modes, what each desktop
//! action does, how the result selection moves, what a query edit asks for, how the
//! daemon's answers become what the window shows, and how the daemon is brought up.

use vstd::prelude::*;
use crate::daemon::arg_views;
use crate::domain::{kind_name, ItemKind};
use crate::hotkey::ArrowKey;
use crate::ipc::{ClientError, DaemonStatus, Response, client_error_prefix};
use crate::matching::{trim, trim_chars};
use crate::path::{components, path_components, Part, PathPart, PART_CURRENT, PART_PARENT, PART_ROOT};
use crate::text::{chars_of, decimal_text, lossy_chars, lossy_text, push_decimal, push_str, same_elements_chars, string_from_chars};

verus! {

// ---------------------------------------------------------------------------
// Launch modes and desktop actions
// ---------------------------------------------------------------------------

/// What the desktop asks of the running launcher.
#[derive(Clone, Copy, Debug, PartialEq, Eq, Structural)]
pub enum DesktopAction {
    Show,
    Hide,
    Toggle,
    Settings,
    ExitUi,
    QuitAll,
}

/// How the launcher was started.
#[derive(Clone, Copy, Debug, PartialEq, Eq, Structural)]
pub enum LaunchMode {
    Show,
    Background,
    Toggle,
    Hide,
    Settings,
    ExitUi,
    Quit,
}

impl Default for LaunchMode {
    fn default() -> (mode: LaunchMode)
        ensures
            mode == LaunchMode::Show,
    {
        LaunchMode::Show
    }
}

pub open spec fn mode_action(mode: LaunchMode) -> Option<DesktopAction> {
    match mode {
        LaunchMode::Show => Some(DesktopAction::Show),
        LaunchMode::Background => None,
        LaunchMode::Toggle => Some(DesktopAction::Toggle),
        LaunchMode::Hide => Some(DesktopAction::Hide),
        LaunchMode::Settings => Some(DesktopAction::Settings),
        LaunchMode::ExitUi => Some(DesktopAction::ExitUi),
        LaunchMode::Quit => Some(DesktopAction::QuitAll),
    }
}

impl LaunchMode {
    /// The desktop action a launch in this mode performs, if any.
    pub fn action(self) -> (a: Option<DesktopAction>)
        ensures
            a == mode_action(self),
    {
        match self {
            LaunchMode::Show => Some(DesktopAction::Show),
            LaunchMode::Background => None,
            LaunchMode::Toggle => Some(DesktopAction::Toggle),
            LaunchMode::Hide => Some(DesktopAction::Hide),
            LaunchMode::Settings => Some(DesktopAction::Settings),
            LaunchMode::ExitUi => Some(DesktopAction::ExitUi),
            LaunchMode::Quit => Some(DesktopAction::QuitAll),
        }
    }
}

/// The law of forwarded launch modes: distinct modes forward distinct actions; only
/// `--background` forwards none; and what a forwarded action does agrees with what
/// the mode does on its own launch: the window quits everything, daemon included,
/// exactly for the mode whose launch stops the daemon (`--quit`), and only leaves the
/// UI (keeping the daemon) for the mode that exits the UI; and a forwarded action
/// brings a hidden window up exactly for the modes whose own launch runs the launcher.
pub proof fn lemma_mode_actions(m1: LaunchMode, m2: LaunchMode, visible: bool)
    ensures
        mode_action(m1) matches Some(a) ==> ((desktop_decision(a, false) == WindowCommand::ShowLauncher
            || desktop_decision(a, false) == WindowCommand::ShowSettings) <==> launch_decision(
            m1,
            SessionClaim::Primary,
        ) == LaunchStep::RunUi),
        m1 != m2 && mode_action(m1) is Some ==> mode_action(m1) != mode_action(m2),
        mode_action(m1) is None <==> m1 == LaunchMode::Background,
        mode_action(m1) matches Some(a) ==> (desktop_decision(a, visible) == WindowCommand::QuitAll
            <==> launch_decision(m1, SessionClaim::Primary) == LaunchStep::StopDaemonAndExit),
        mode_action(m1) matches Some(a) ==> (desktop_decision(a, visible) == WindowCommand::QuitUi
            <==> m1 == LaunchMode::ExitUi),
{
}

/// The launcher's options.
#[derive(Clone, Copy, Debug, PartialEq, Eq, Structural)]
pub struct Options {
    pub mode: LaunchMode,
    pub demo_double_ctrl: bool,
    pub help: bool,
}

impl Default for Options {
    fn default() -> (options: Options)
        ensures
            options == (Options { mode: LaunchMode::Show, demo_double_ctrl: false, help: false }),
    {
        Options { mode: LaunchMode::Show, demo_double_ctrl: false, help: false }
    }
}

/// Why the launcher's command line was refused.
#[derive(Debug)]
pub enum UiArgsError {
    UnknownArgument(String),
    ConflictingModes,
}

impl UiArgsError {
    pub fn message(&self) -> (text: String)
        ensures
            match self {
                UiArgsError::UnknownArgument(a) => text@ == "未知参数："@ + a@,
                UiArgsError::ConflictingModes => text@ == "只能指定一个启动/控制选项"@,
            },
    {
        let mut text = String::new();
        match self {
            UiArgsError::UnknownArgument(a) => {
                push_str(&mut text, "未知参数：");
                push_str(&mut text, a.as_str());
            },
            UiArgsError::ConflictingModes => push_str(&mut text, "只能指定一个启动/控制选项"),
        }
        text
    }
}

/// Records an explicit mode; a second one is refused.
pub fn set_mode(target: &mut Option<LaunchMode>, mode: LaunchMode) -> (r: Result<(), UiArgsError>)
    ensures
        *final(target) == Some(mode),
        r is Ok <==> (*old(target)) is None,
        r matches Err(e) ==> e is ConflictingModes,
{
    let previous = *target;
    *target = Some(mode);
    match previous {
        Some(_) => Err(UiArgsError::ConflictingModes),
        None => Ok(()),
    }
}

/// The mode a flag selects.
pub open spec fn mode_flag(a: Seq<char>) -> Option<LaunchMode> {
    if a == "--background"@ {
        Some(LaunchMode::Background)
    } else if a == "--toggle"@ {
        Some(LaunchMode::Toggle)
    } else if a == "--hide"@ {
        Some(LaunchMode::Hide)
    } else if a == "--settings"@ {
        Some(LaunchMode::Settings)
    } else if a == "--exit-ui"@ {
        Some(LaunchMode::ExitUi)
    } else if a == "--quit"@ {
        Some(LaunchMode::Quit)
    } else {
        None
    }
}

pub enum UiArgsFault {
    UnknownArgument(Seq<char>),
    ConflictingModes,
}

/// Reads the arguments from `i` on, with the mode, demo and help flags so far.
pub open spec fn ui_options(args: Seq<Seq<char>>, i: int, mode: Option<LaunchMode>, demo: bool, help: bool) -> Result<
    Options,
    UiArgsFault,
>
    decreases args.len() - i,
{
    if i < 0 || i >= args.len() {
        Ok(
            Options {
                mode: match mode {
                    Some(m) => m,
                    None => LaunchMode::Show,
                },
                demo_double_ctrl: demo,
                help,
            },
        )
    } else {
        let a = args[i];
        match mode_flag(a) {
            Some(m) => if mode is Some {
                Err(UiArgsFault::ConflictingModes)
            } else {
                ui_options(args, i + 1, Some(m), demo, help)
            },
            None => if a == "--demo-double-ctrl"@ {
                ui_options(args, i + 1, mode, true, help)
            } else if a == "-h"@ || a == "--help"@ {
                ui_options(args, i + 1, mode, demo, true)
            } else {
                Err(UiArgsFault::UnknownArgument(a))
            },
        }
    }
}

fn arg_is(arg: &String, word: &str) -> (r: bool)
    ensures
        r == (arg@ == word@),
{
    let a = chars_of(arg.as_str());
    let w = chars_of(word);
    same_elements_chars(a.as_slice(), w.as_slice())
}

/// Reads the launcher's command line: at most one mode flag, the demo flag, help.
pub fn parse_args(args: Vec<String>) -> (r: Result<Options, UiArgsError>)
    ensures
        match (r, ui_options(arg_views(args@), 0, None, false, false)) {
            (Ok(o), Ok(p)) => o == p,
            (Err(UiArgsError::UnknownArgument(a)), Err(UiArgsFault::UnknownArgument(b))) => a@ == b,
            (Err(UiArgsError::ConflictingModes), Err(UiArgsFault::ConflictingModes)) => true,
            _ => false,
        },
{
    let ghost av = arg_views(args@);
    let mut explicit_mode: Option<LaunchMode> = None;
    let mut demo = false;
    let mut help = false;
    let mut i: usize = 0;
    while i < args.len()
        invariant
            av == arg_views(args@),
            i <= args.len(),
            ui_options(av, 0, None, false, false) == ui_options(av, i as int, explicit_mode, demo, help),
        decreases args.len() - i,
    {
        let a = &args[i];
        assert(av[i as int] == a@);
        let flag = if arg_is(a, "--background") {
            Some(LaunchMode::Background)
        } else if arg_is(a, "--toggle") {
            Some(LaunchMode::Toggle)
        } else if arg_is(a, "--hide") {
            Some(LaunchMode::Hide)
        } else if arg_is(a, "--settings") {
            Some(LaunchMode::Settings)
        } else if arg_is(a, "--exit-ui") {
            Some(LaunchMode::ExitUi)
        } else if arg_is(a, "--quit") {
            Some(LaunchMode::Quit)
        } else {
            None
        };
        match flag {
            Some(m) => {
                set_mode(&mut explicit_mode, m)?;
            },
            None => {
                if arg_is(a, "--demo-double-ctrl") {
                    demo = true;
                } else if arg_is(a, "-h") || arg_is(a, "--help") {
                    help = true;
                } else {
                    return Err(UiArgsError::UnknownArgument(a.clone()));
                }
            },
        }
        i += 1;
    }
    let mode = match explicit_mode {
        Some(m) => m,
        None => LaunchMode::Show,
    };
    Ok(Options { mode, demo_double_ctrl: demo, help })
}

/// How claiming the desktop session went.
#[derive(Clone, Copy, Debug, PartialEq, Eq, Structural)]
pub enum SessionClaim {
    /// This process is the launcher of the session.
    Primary,
    /// Another launcher runs; the action was handed to it.
    Forwarded,
    /// The session bus could not be reached.
    Failed,
}

/// What a launch does after claiming the session.
#[derive(Clone, Copy, Debug, PartialEq, Eq, Structural)]
pub enum LaunchStep {
    Exit,
    /// Stop the daemon, then exit.
    StopDaemonAndExit,
    /// Run the launcher.
    RunUi,
}

/// The launch decision: a forwarded action or a hide/exit request ends this process;
/// a quit request stops the daemon; anything else runs the launcher.
pub open spec fn launch_decision(mode: LaunchMode, claim: SessionClaim) -> LaunchStep {
    if claim == SessionClaim::Forwarded {
        LaunchStep::Exit
    } else if mode == LaunchMode::Hide || mode == LaunchMode::ExitUi {
        LaunchStep::Exit
    } else if mode == LaunchMode::Quit {
        LaunchStep::StopDaemonAndExit
    } else {
        LaunchStep::RunUi
    }
}

pub fn launch_step(mode: LaunchMode, claim: SessionClaim) -> (step: LaunchStep)
    ensures
        step == launch_decision(mode, claim),
{
    if claim == SessionClaim::Forwarded {
        return LaunchStep::Exit;
    }
    match mode {
        LaunchMode::Hide | LaunchMode::ExitUi => LaunchStep::Exit,
        LaunchMode::Quit => LaunchStep::StopDaemonAndExit,
        _ => LaunchStep::RunUi,
    }
}

/// What the window does for a desktop action.
#[derive(Clone, Copy, Debug, PartialEq, Eq, Structural)]
pub enum WindowCommand {
    /// Clear the query and results, start a new query generation, show the window.
    ShowLauncher,
    HideLauncher,
    ShowSettings,
    QuitUi,
    /// Hide the window and ask the daemon to stop.
    QuitAll,
}

/// What the window does for a desktop action, given whether it is visible: a toggle
/// hides a visible launcher and shows a hidden one.
pub open spec fn desktop_decision(action: DesktopAction, visible: bool) -> WindowCommand {
    match action {
        DesktopAction::Show => WindowCommand::ShowLauncher,
        DesktopAction::Hide => WindowCommand::HideLauncher,
        DesktopAction::Toggle => if visible {
            WindowCommand::HideLauncher
        } else {
            WindowCommand::ShowLauncher
        },
        DesktopAction::Settings => WindowCommand::ShowSettings,
        DesktopAction::ExitUi => WindowCommand::QuitUi,
        DesktopAction::QuitAll => WindowCommand::QuitAll,
    }
}

pub fn desktop_command(action: DesktopAction, visible: bool) -> (c: WindowCommand)
    ensures
        c == desktop_decision(action, visible),
{
    match action {
        DesktopAction::Show => WindowCommand::ShowLauncher,
        DesktopAction::Hide => WindowCommand::HideLauncher,
        DesktopAction::Toggle => if visible {
            WindowCommand::HideLauncher
        } else {
            WindowCommand::ShowLauncher
        },
        DesktopAction::Settings => WindowCommand::ShowSettings,
        DesktopAction::ExitUi => WindowCommand::QuitUi,
        DesktopAction::QuitAll => WindowCommand::QuitAll,
    }
}

// ---------------------------------------------------------------------------
// Queries and results
// ---------------------------------------------------------------------------

/// What an edit of the query asks for: the next generation (earlier answers are
/// dropped), and whether to search (a blank query clears the results).
pub struct QueryEdit {
    pub generation: u64,
    pub search: bool,
}

pub fn query_edited(generation: u64, query: &str) -> (edit: QueryEdit)
    ensures
        edit.generation == generation.wrapping_add(1),
        edit.search == (trim(query@).len() > 0),
{
    let chars = chars_of(query);
    let trimmed = trim_chars(&chars);
    QueryEdit { generation: generation.wrapping_add(1), search: trimmed.len() > 0 }
}

/// The result path at a row of the list, where the row exists.
pub fn result_at(paths: &Vec<Vec<u8>>, index: i32) -> (r: Option<Vec<u8>>)
    ensures
        0 <= index < paths@.len() ==> (r matches Some(p) && p@ == paths@[index as int]@),
        !(0 <= index < paths@.len()) ==> r is None,
{
    if index < 0 {
        return None;
    }
    let i = index as usize;
    if i >= paths.len() {
        return None;
    }
    Some(crate::text::copy_bytes(paths[i].as_slice()))
}

/// The new selected row after an arrow key: one down (stopping at the last row) or
/// one up (stopping at the first); nothing for left, right, or an empty list.
pub fn apply_arrow_to_selection(count: usize, current: i32, arrow: ArrowKey) -> (next: Option<i32>)
    ensures
        count == 0 ==> next is None,
        count > 0 ==> ({
            let cur: int = if current < 0 {
                0
            } else {
                current as int
            };
            match arrow {
                ArrowKey::Down => {
                    let n = if cur + 1 < count {
                        cur + 1
                    } else {
                        count - 1
                    };
                    if n <= i32::MAX {
                        next == Some(n as i32)
                    } else {
                        next is None
                    }
                },
                ArrowKey::Up => next == Some((if cur > 0 {
                    cur - 1
                } else {
                    0
                }) as i32),
                _ => next is None,
            }
        }),
{
    if count == 0 {
        return None;
    }
    let cur: usize = if current < 0 {
        0
    } else {
        current as usize
    };
    let n: usize = match arrow {
        ArrowKey::Down => {
            if cur < count - 1 {
                cur + 1
            } else {
                count - 1
            }
        },
        ArrowKey::Up => {
            if cur > 0 {
                cur - 1
            } else {
                0
            }
        },
        _ => {
            return None;
        },
    };
    if n <= 2147483647 {
        Some(n as i32)
    } else {
        None
    }
}

/// The label a result kind is shown with.
pub open spec fn kind_label_text(kind: ItemKind) -> Seq<char> {
    match kind {
        ItemKind::Directory => "文件夹"@,
        ItemKind::Application => "应用"@,
        ItemKind::Command => "命令"@,
        ItemKind::File => "文件"@,
    }
}

pub fn kind_label(kind: ItemKind) -> (label: &'static str)
    ensures
        label@ == kind_label_text(kind),
{
    match kind {
        ItemKind::Directory => "文件夹",
        ItemKind::Application => "应用",
        ItemKind::Command => "命令",
        ItemKind::File => "文件",
    }
}

/// A result as the launcher lists it.
pub struct ResultEntry {
    pub title: String,
    pub path: Vec<u8>,
    pub kind: &'static str,
    pub score: String,
}

/// The message shown when the daemon cannot be reached.
pub fn connection_message(error: &str) -> (text: String)
    ensures
        text@ == "无法连接后台服务："@ + error@ + "。请先启动 ruyiseekd"@,
{
    let mut text = String::new();
    push_str(&mut text, "无法连接后台服务：");
    push_str(&mut text, error);
    push_str(&mut text, "。请先启动 ruyiseekd");
    text
}

/// The status line for the daemon's status.
pub open spec fn status_text(status: DaemonStatus) -> Seq<char> {
    "已索引 "@ + decimal_text(status.indexed_items as nat) + " 项，跳过 "@ + decimal_text(status.skipped_paths as nat)
        + " 个路径"@ + (if status.truncated {
        "（索引已达上限）"@
    } else {
        Seq::<char>::empty()
    })
}

pub fn status_message(status: &DaemonStatus) -> (text: String)
    ensures
        text@ == status_text(*status),
{
    let mut text = String::new();
    push_str(&mut text, "已索引 ");
    push_decimal(&mut text, status.indexed_items as u64);
    push_str(&mut text, " 项，跳过 ");
    push_decimal(&mut text, status.skipped_paths as u64);
    push_str(&mut text, " 个路径");
    let ghost before = text@;
    if status.truncated {
        push_str(&mut text, "（索引已达上限）");
    } else {
        assert(text@ =~= before + Seq::<char>::empty());
    }
    text
}

/// What a failed exchange with the daemon is shown as.
pub open spec fn connection_failure(e: ClientError, text: Seq<char>) -> bool {
    crate::text::starts_with(text, "无法连接后台服务："@ + client_error_prefix(e))
}

fn failure_text(error: &ClientError) -> (text: String)
    ensures
        connection_failure(*error, text@),
{
    let detail = error.message();
    let text = connection_message(detail.as_str());
    assert(text@.take(("无法连接后台服务："@ + client_error_prefix(*error)).len() as int) =~= "无法连接后台服务："@
        + client_error_prefix(*error));
    text
}

/// The status the launcher shows for the daemon's answer to a status request.
pub fn status_outcome(answer: Result<Response, ClientError>) -> (r: Result<DaemonStatus, String>)
    ensures
        match answer {
            Err(e) => r matches Err(t) && connection_failure(e, t@),
            Ok(Response::Status(s)) => r == Ok::<DaemonStatus, String>(s),
            Ok(Response::Error(m)) => r matches Err(t) && t@ == m@,
            Ok(_) => r matches Err(t) && t@ == "后台服务返回了意外的状态响应"@,
        },
{
    match answer {
        Err(e) => Err(failure_text(&e)),
        Ok(Response::Status(s)) => Ok(s),
        Ok(Response::Error(m)) => Err(m),
        Ok(_) => {
            let mut t = String::new();
            push_str(&mut t, "后台服务返回了意外的状态响应");
            Err(t)
        },
    }
}

/// The results the launcher lists for the daemon's answer to a search request.
pub fn search_outcome(answer: Result<Response, ClientError>) -> (r: Result<Vec<ResultEntry>, String>)
    ensures
        match answer {
            Err(e) => r matches Err(t) && connection_failure(e, t@),
            Ok(Response::Search { hits, .. }) => r matches Ok(entries) && entries@.len() == hits@.len() && forall|k: int|
                0 <= k < hits@.len() ==> {
                    let e = #[trigger] entries@[k];
                    &&& e.title@ == hits@[k].item.name@
                    &&& e.path@ == hits@[k].item.path@
                    &&& e.kind@ == kind_label_text(hits@[k].item.kind)
                    &&& e.score@ == hits@[k].score@
                },
            Ok(Response::Error(m)) => r matches Err(t) && t@ == m@,
            Ok(_) => r matches Err(t) && t@ == "后台服务返回了意外的搜索响应"@,
        },
{
    match answer {
        Err(e) => Err(failure_text(&e)),
        Ok(Response::Search { hits, .. }) => {
            let mut entries: Vec<ResultEntry> = Vec::new();
            let mut k: usize = 0;
            while k < hits.len()
                invariant
                    k <= hits@.len(),
                    entries@.len() == k,
                    forall|j: int|
                        0 <= j < k ==> {
                            let e = #[trigger] entries@[j];
                            &&& e.title@ == hits@[j].item.name@
                            &&& e.path@ == hits@[j].item.path@
                            &&& e.kind@ == kind_label_text(hits@[j].item.kind)
                            &&& e.score@ == hits@[j].score@
                        },
                decreases hits.len() - k,
            {
                let hit = &hits[k];
                entries.push(
                    ResultEntry {
                        title: hit.item.name.clone(),
                        path: crate::text::copy_bytes(hit.item.path.as_slice()),
                        kind: kind_label(hit.item.kind),
                        score: hit.score.clone(),
                    },
                );
                k += 1;
            }
            Ok(entries)
        },
        Ok(Response::Error(m)) => Err(m),
        Ok(_) => {
            let mut t = String::new();
            push_str(&mut t, "后台服务返回了意外的搜索响应");
            Err(t)
        },
    }
}

/// Whether the daemon acknowledged a stop request.
pub fn shutdown_outcome(answer: Result<Response, ClientError>) -> (r: Result<(), String>)
    ensures
        match answer {
            Err(e) => r matches Err(t) && connection_failure(e, t@),
            Ok(Response::Acknowledged) => r is Ok,
            Ok(Response::Error(m)) => r matches Err(t) && t@ == m@,
            Ok(_) => r matches Err(t) && t@ == "后台服务返回了意外的停止响应"@,
        },
{
    match answer {
        Err(e) => Err(failure_text(&e)),
        Ok(Response::Acknowledged) => Ok(()),
        Ok(Response::Error(m)) => Err(m),
        Ok(_) => {
            let mut t = String::new();
            push_str(&mut t, "后台服务返回了意外的停止响应");
            Err(t)
        },
    }
}

// ---------------------------------------------------------------------------
// Bringing the daemon up
// ---------------------------------------------------------------------------

/// What a probe of the daemon's socket found.
#[derive(Clone, Copy, Debug, PartialEq, Eq, Structural)]
pub enum DaemonProbe {
    Ready,
    /// Connected, but no answer yet: the daemon is still building its index.
    Initializing,
    Unavailable,
}

/// A probe's outcome: any answer means ready, a failed exchange after connecting means
/// initializing, a failed connection means unavailable.
pub fn classify_daemon_probe(result: Result<Response, ClientError>) -> (p: DaemonProbe)
    ensures
        p == match result {
            Ok(_) => DaemonProbe::Ready,
            Err(ClientError::Protocol(_)) => DaemonProbe::Initializing,
            Err(ClientError::Connect { .. }) => DaemonProbe::Unavailable,
        },
{
    match result {
        Ok(_) => DaemonProbe::Ready,
        Err(ClientError::Protocol(_)) => DaemonProbe::Initializing,
        Err(ClientError::Connect { .. }) => DaemonProbe::Unavailable,
    }
}

/// Where bringing the daemon up stands.
#[derive(Clone, Copy, Debug, PartialEq, Eq, Structural)]
pub enum StartupStage {
    /// The first probe.
    FirstProbe,
    /// After waiting for an initializing daemon.
    AfterWaiting,
    /// After starting a daemon and waiting for it.
    AfterSpawn,
}

/// What to do next.
#[derive(Clone, Copy, Debug, PartialEq, Eq, Structural)]
pub enum StartupStep {
    /// The daemon answers.
    Done,
    /// Wait for the initializing daemon, then decide again.
    Wait,
    /// Start a daemon, wait for it, then decide again.
    Spawn,
    /// The daemon is still initializing; go on and connect later.
    StillInitializing,
    /// The started daemon did not answer in time.
    TimedOut,
}

/// The next step of bringing the daemon up: never start a second daemon beside one
/// that is initializing.
pub fn startup_step(stage: StartupStage, probe: DaemonProbe) -> (step: StartupStep)
    ensures
        probe == DaemonProbe::Ready ==> step == StartupStep::Done,
        step == StartupStep::Spawn ==> probe == DaemonProbe::Unavailable && stage != StartupStage::AfterSpawn,
        stage == StartupStage::FirstProbe && probe == DaemonProbe::Initializing ==> step == StartupStep::Wait,
        stage == StartupStage::FirstProbe && probe == DaemonProbe::Unavailable ==> step == StartupStep::Spawn,
        stage == StartupStage::AfterWaiting && probe == DaemonProbe::Initializing ==> step
            == StartupStep::StillInitializing,
        stage == StartupStage::AfterWaiting && probe == DaemonProbe::Unavailable ==> step == StartupStep::Spawn,
        stage == StartupStage::AfterSpawn && probe != DaemonProbe::Ready ==> step == StartupStep::TimedOut,
{
    match (stage, probe) {
        (_, DaemonProbe::Ready) => StartupStep::Done,
        (StartupStage::FirstProbe, DaemonProbe::Initializing) => StartupStep::Wait,
        (StartupStage::AfterWaiting, DaemonProbe::Initializing) => StartupStep::StillInitializing,
        (StartupStage::AfterSpawn, _) => StartupStep::TimedOut,
        (_, DaemonProbe::Unavailable) => StartupStep::Spawn,
    }
}

/// What waiting for the daemon does next.
#[derive(Clone, Copy, Debug, PartialEq, Eq, Structural)]
pub enum WaitStep {
    /// Probe the daemon now.
    Probe,
    /// Wait one poll interval.
    Sleep,
    /// Stop waiting, with this outcome.
    Finish(DaemonProbe),
}

/// One step of waiting for the daemon, `elapsed` nanoseconds into a wait of `total`:
/// a ready probe ends the wait; after any other probe comes a pause; before each
/// probe the time is checked, and once it is up the wait ends with the last probe
/// (unavailable where none was made).
pub fn wait_step(last: Option<DaemonProbe>, slept: bool, elapsed: u128, total: u128) -> (step: WaitStep)
    ensures
        step == (if last == Some(DaemonProbe::Ready) {
            WaitStep::Finish(DaemonProbe::Ready)
        } else if last is Some && !slept {
            WaitStep::Sleep
        } else if elapsed >= total {
            WaitStep::Finish(
                match last {
                    Some(p) => p,
                    None => DaemonProbe::Unavailable,
                },
            )
        } else {
            WaitStep::Probe
        }),
{
    match last {
        Some(DaemonProbe::Ready) => WaitStep::Finish(DaemonProbe::Ready),
        Some(p) => {
            if !slept {
                WaitStep::Sleep
            } else if elapsed >= total {
                WaitStep::Finish(p)
            } else {
                WaitStep::Probe
            }
        },
        None => {
            if elapsed >= total {
                WaitStep::Finish(DaemonProbe::Unavailable)
            } else {
                WaitStep::Probe
            }
        },
    }
}

/// Directories searched for the daemon binary after the launcher's own directory:
/// the usual system directories, then those of `PATH`.
pub open spec fn daemon_dirs(path_var: Option<Seq<u8>>) -> Seq<Seq<u8>> {
    let fixed = seq!["/usr/bin"@, "/usr/local/bin"@, "/bin"@, "/sbin"@, "/usr/sbin"@].map_values(
        |d: Seq<char>| vstd::utf8::encode_utf8(d),
    );
    match path_var {
        Some(p) => fixed + crate::text::split_on(p, 0x3Au8),
        None => fixed,
    }
}

pub fn daemon_search_dirs(path_var: Option<Vec<u8>>) -> (dirs: Vec<Vec<u8>>)
    ensures
        dirs@.map_values(|d: Vec<u8>| d@) == daemon_dirs(
            match path_var {
                Some(p) => Some(p@),
                None => None,
            },
        ),
{
    let mut dirs: Vec<Vec<u8>> = Vec::new();
    dirs.push(crate::text::bytes_of("/usr/bin"));
    dirs.push(crate::text::bytes_of("/usr/local/bin"));
    dirs.push(crate::text::bytes_of("/bin"));
    dirs.push(crate::text::bytes_of("/sbin"));
    dirs.push(crate::text::bytes_of("/usr/sbin"));
    let ghost fixed = dirs@.map_values(|d: Vec<u8>| d@);
    assert(fixed =~= seq!["/usr/bin"@, "/usr/local/bin"@, "/bin"@, "/sbin"@, "/usr/sbin"@].map_values(
        |d: Seq<char>| vstd::utf8::encode_utf8(d),
    ));
    if let Some(p) = &path_var {
        let pieces = crate::text::split_at_byte(p.as_slice(), 0x3A);
        let mut k: usize = 0;
        while k < pieces.len()
            invariant
                k <= pieces@.len(),
                pieces@.map_values(|v: Vec<u8>| v@) == crate::text::split_on(p@, 0x3Au8),
                dirs@.map_values(|d: Vec<u8>| d@) == fixed + crate::text::split_on(p@, 0x3Au8).take(k as int),
            decreases pieces.len() - k,
        {
            let ghost before = dirs@;
            dirs.push(crate::text::copy_bytes(pieces[k].as_slice()));
            assert(pieces@.map_values(|v: Vec<u8>| v@)[k as int] == pieces@[k as int]@);
            assert(dirs@.map_values(|d: Vec<u8>| d@) =~= before.map_values(|d: Vec<u8>| d@).push(pieces@[k as int]@));
            assert(crate::text::split_on(p@, 0x3Au8).take(k + 1) =~= crate::text::split_on(p@, 0x3Au8).take(
                k as int,
            ).push(crate::text::split_on(p@, 0x3Au8)[k as int]));
            assert(dirs@.map_values(|d: Vec<u8>| d@) =~= fixed + crate::text::split_on(p@, 0x3Au8).take(k + 1));
            k += 1;
        }
        assert(crate::text::split_on(p@, 0x3Au8).take(pieces.len() as int) == crate::text::split_on(p@, 0x3Au8));
    }
    dirs
}

// ---------------------------------------------------------------------------
// Paths
// ---------------------------------------------------------------------------

/// The text of one component.
pub open spec fn part_text(p: Part) -> Seq<u8> {
    if p.0 == PART_ROOT as nat {
        seq![]
    } else if p.0 == PART_CURRENT as nat {
        seq![0x2Eu8]
    } else if p.0 == PART_PARENT as nat {
        seq![0x2Eu8, 0x2Eu8]
    } else {
        p.1
    }
}

/// Components written out with single separators.
pub open spec fn join_parts(parts: Seq<Part>) -> Seq<u8>
    decreases parts.len(),
{
    if parts.len() == 0 {
        seq![]
    } else if parts.len() == 1 {
        part_text(parts[0])
    } else {
        join_parts(parts.drop_last()).push(0x2Fu8) + part_text(parts.last())
    }
}

/// The plain spelling of a component list.
pub open spec fn render_path(parts: Seq<Part>) -> Seq<u8> {
    if parts.len() > 0 && parts[0].0 == PART_ROOT as nat {
        seq![0x2Fu8] + join_parts(parts.drop_first())
    } else {
        join_parts(parts)
    }
}

/// The directory a file manager opens to show a path: its parent (`Path::parent`), or
/// `/` where the parent is missing or empty.
pub open spec fn reveal_parent_parts(c: Seq<Part>) -> Seq<Part> {
    if c.len() >= 2 {
        c.drop_last()
    } else {
        seq![(PART_ROOT as nat, Seq::<u8>::empty())]
    }
}

fn part_bytes(p: &PathPart) -> (b: Vec<u8>)
    requires
        p.kind <= 3,
    ensures
        b@ == part_text(crate::path::part_of(*p)),
{
    if p.kind == PART_ROOT {
        Vec::new()
    } else if p.kind == PART_CURRENT {
        vec![0x2Eu8]
    } else if p.kind == PART_PARENT {
        vec![0x2Eu8, 0x2E]
    } else {
        crate::text::copy_bytes(p.bytes.as_slice())
    }
}

/// The directory to open to show `path` in a file manager.
pub fn reveal_parent(path: &[u8]) -> (parent: Vec<u8>)
    ensures
        parent@ == render_path(reveal_parent_parts(components(path@))),
{
    let all = path_components(path);
    let ghost c = components(path@);
    let n: usize = if all.len() >= 2 {
        all.len() - 1
    } else {
        0
    };
    let ghost parts = reveal_parent_parts(c);
    let mut out: Vec<u8> = Vec::new();
    proof {
        crate::path::lemma_part_kinds(path@);
        assert forall|j: int| 0 <= j < all@.len() implies (#[trigger] all@[j]).kind <= 3 by {
            assert(crate::path::parts_of(all@)[j] == crate::path::part_of(all@[j]));
        }
    }
    if n == 0 {
        out.push(0x2F);
        assert(parts == seq![(PART_ROOT as nat, Seq::<u8>::empty())]);
        assert(parts.drop_first() =~= Seq::<Part>::empty());
        assert(out@ =~= render_path(parts));
        return out;
    }
    assert(crate::path::parts_of(all@).take(n as int) =~= parts);
    let mut start: usize = 0;
    if all[0].kind == PART_ROOT {
        out.push(0x2F);
        start = 1;
    }
    assert(parts[0] == crate::path::part_of(all@[0]));
    let ghost body = parts.skip(start as int);
    assert(out@ =~= render_path(parts).take(start as int)) by {
        if start == 1 {
            assert(body =~= parts.drop_first());
        }
    }
    let mut k: usize = start;
    assert(body.take(0) =~= Seq::<Part>::empty());
    while k < n
        invariant
            start <= k <= n,
            n < all@.len(),
            body == parts.skip(start as int),
            parts == crate::path::parts_of(all@).take(n as int),
            forall|j: int| 0 <= j < all@.len() ==> (#[trigger] all@[j]).kind <= 3,
            out@ == (if start == 1 {
                seq![0x2Fu8]
            } else {
                Seq::<u8>::empty()
            }) + join_parts(body.take(k - start)),
        decreases n - k,
    {
        let ghost before = out@;
        if k > start {
            out.push(0x2F);
        }
        let b = part_bytes(&all[k]);
        out.extend_from_slice(b.as_slice());
        proof {
            let t = body.take(k + 1 - start);
            assert(t.drop_last() == body.take(k - start));
            assert(t.last() == crate::path::part_of(all@[k as int]));
            if k == start {
                assert(before =~= (if start == 1 {
                    seq![0x2Fu8]
                } else {
                    Seq::<u8>::empty()
                }));
            }
        }
        assert(out@ =~= (if start == 1 {
            seq![0x2Fu8]
        } else {
            Seq::<u8>::empty()
        }) + join_parts(body.take(k + 1 - start)));
        k += 1;
    }
    assert(body.take(n - start) =~= body);
    proof {
        if start == 1 {
            assert(body =~= parts.drop_first());
        } else {
            assert(body =~= parts);
        }
    }
    assert(out@ =~= render_path(parts));
    out
}

// ---------------------------------------------------------------------------
// Clipboard text
// ---------------------------------------------------------------------------

/// The clipboard text that copies a file: its `file://` URI and a line feed.
pub fn file_uri_text(path: &[u8]) -> (text: Vec<u8>)
    ensures
        text@ == vstd::utf8::encode_utf8("file://"@ + lossy_text(path@) + "\n"@),
{
    let shown = lossy_chars(path);
    let mut s = String::new();
    push_str(&mut s, "file://");
    let t = string_from_chars(&shown);
    push_str(&mut s, t.as_str());
    push_str(&mut s, "\n");
    crate::text::bytes_of(s.as_str())
}

/// The clipboard text that copies a path: the path as text and a line feed.
pub fn path_text(path: &[u8]) -> (text: Vec<u8>)
    ensures
        text@ == vstd::utf8::encode_utf8(lossy_text(path@) + "\n"@),
{
    let shown = lossy_chars(path);
    let mut s = string_from_chars(&shown);
    push_str(&mut s, "\n");
    crate::text::bytes_of(s.as_str())
}

// ---------------------------------------------------------------------------
// The session bus and the lock screen
// ---------------------------------------------------------------------------

/// The session-bus method that forwards an action to the running launcher; settings
/// and leaving the launcher are not forwarded.
pub open spec fn method_name(action: DesktopAction) -> Option<Seq<char>> {
    match action {
        DesktopAction::Show => Some("ShowLauncher"@),
        DesktopAction::Hide => Some("HideLauncher"@),
        DesktopAction::Toggle => Some("ToggleLauncher"@),
        DesktopAction::QuitAll => Some("Quit"@),
        _ => None,
    }
}

pub fn method_for_action(action: DesktopAction) -> (m: Option<&'static str>)
    ensures
        match (m, method_name(action)) {
            (Some(a), Some(b)) => a@ == b,
            (None, None) => true,
            _ => false,
        },
{
    match action {
        DesktopAction::Show => Some("ShowLauncher"),
        DesktopAction::Hide => Some("HideLauncher"),
        DesktopAction::Toggle => Some("ToggleLauncher"),
        DesktopAction::QuitAll => Some("Quit"),
        _ => None,
    }
}

/// The action a session-bus method call asks for.
pub fn action_for_method(name: &str) -> (a: Option<DesktopAction>)
    ensures
        a matches Some(x) ==> method_name(x) == Some(name@),
        a is None ==> forall|x: DesktopAction| method_name(x) != Some(name@),
{
    let chars = chars_of(name);
    let show = chars_of("ShowLauncher");
    let hide = chars_of("HideLauncher");
    let toggle = chars_of("ToggleLauncher");
    let quit = chars_of("Quit");
    if same_elements_chars(chars.as_slice(), show.as_slice()) {
        Some(DesktopAction::Show)
    } else if same_elements_chars(chars.as_slice(), hide.as_slice()) {
        Some(DesktopAction::Hide)
    } else if same_elements_chars(chars.as_slice(), toggle.as_slice()) {
        Some(DesktopAction::Toggle)
    } else if same_elements_chars(chars.as_slice(), quit.as_slice()) {
        Some(DesktopAction::QuitAll)
    } else {
        None
    }
}

/// The lock state a `LockedHint` property carries, read as an integer: locked when it
/// is not zero; nothing where the property is missing or not an integer.
pub fn locked_hint(value: Option<i64>) -> (locked: Option<bool>)
    ensures
        locked == match value {
            Some(v) => Some(v != 0),
            None => None,
        },
{
    match value {
        Some(v) => Some(v != 0),
        None => None,
    }
}

// ---------------------------------------------------------------------------
// The launcher's event pump and search worker
// ---------------------------------------------------------------------------

/// What reaches the launcher's event pump.
pub enum UiEvent {
    /// The daemon's status, or why it could not be had.
    Status(Result<DaemonStatus, String>),
    /// The answer to the search of a query generation.
    Search { generation: u64, result: Result<Vec<ResultEntry>, String> },
    /// Whether stopping the daemon worked.
    Shutdown(Result<(), String>),
    Desktop(DesktopAction),
    /// A message about the global hotkey.
    HotkeyIssue(String),
    /// An arrow key seen on the raw keyboard stream, whatever window has the focus.
    Arrow(ArrowKey),
}

/// What the launcher does for an event.
pub enum UiEffect {
    Nothing,
    ShowStatus(String),
    /// List these results and select the first; show the status where one is given.
    ShowResults { entries: Vec<ResultEntry>, status: Option<String> },
    /// Clear the results and show the error.
    ClearResults(String),
    Desktop(DesktopAction),
    MoveSelection(ArrowKey),
    /// Leave the event loop.
    Quit,
    /// Stopping the daemon failed: show the launcher again, with the error.
    ShowLauncherWithError(String),
}

/// The launcher's answer to an event. Answers to an older query generation are
/// dropped; status and hotkey messages show only while the query is blank; arrows
/// move the selection only while the launcher is visible.
pub fn ui_event_effect(event: UiEvent, current_generation: u64, query: &str, visible: bool) -> (effect: UiEffect)
    ensures
        ({
            let blank = trim(query@).len() == 0;
            match event {
                UiEvent::Status(Ok(s)) => if blank {
                    effect matches UiEffect::ShowStatus(t) && t@ == status_text(s)
                } else {
                    effect is Nothing
                },
                UiEvent::Status(Err(m)) => effect matches UiEffect::ShowStatus(t) && t@ == m@,
                UiEvent::Search { generation, result } => if generation != current_generation {
                    effect is Nothing
                } else {
                    match result {
                        Ok(items) => effect matches UiEffect::ShowResults { entries, status } && entries@ == items@
                            && (if items@.len() == 0 {
                            status matches Some(t) && t@ == "没有找到匹配项"@
                        } else {
                            status is None
                        }),
                        Err(m) => effect matches UiEffect::ClearResults(t) && t@ == m@,
                    }
                },
                UiEvent::Desktop(a) => effect == UiEffect::Desktop(a),
                UiEvent::Arrow(a) => if visible {
                    effect == UiEffect::MoveSelection(a)
                } else {
                    effect is Nothing
                },
                UiEvent::Shutdown(Ok(())) => effect is Quit,
                UiEvent::Shutdown(Err(m)) => effect matches UiEffect::ShowLauncherWithError(t) && t@
                    == "后台停止失败，尚未退出："@ + m@,
                UiEvent::HotkeyIssue(m) => if blank {
                    effect matches UiEffect::ShowStatus(t) && t@ == m@
                } else {
                    effect is Nothing
                },
            }
        }),
{
    let chars = chars_of(query);
    let blank = trim_chars(&chars).len() == 0;
    match event {
        UiEvent::Status(Ok(s)) => {
            if blank {
                UiEffect::ShowStatus(status_message(&s))
            } else {
                UiEffect::Nothing
            }
        },
        UiEvent::Status(Err(m)) => UiEffect::ShowStatus(m),
        UiEvent::Search { generation, result } => {
            if generation != current_generation {
                return UiEffect::Nothing;
            }
            match result {
                Ok(entries) => {
                    if entries.len() == 0 {
                        let mut t = String::new();
                        push_str(&mut t, "没有找到匹配项");
                        UiEffect::ShowResults { entries, status: Some(t) }
                    } else {
                        UiEffect::ShowResults { entries, status: None }
                    }
                },
                Err(m) => UiEffect::ClearResults(m),
            }
        },
        UiEvent::Desktop(a) => UiEffect::Desktop(a),
        UiEvent::Arrow(a) => {
            if visible {
                UiEffect::MoveSelection(a)
            } else {
                UiEffect::Nothing
            }
        },
        UiEvent::Shutdown(Ok(())) => UiEffect::Quit,
        UiEvent::Shutdown(Err(m)) => {
            let mut t = String::new();
            push_str(&mut t, "后台停止失败，尚未退出：");
            push_str(&mut t, m.as_str());
            UiEffect::ShowLauncherWithError(t)
        },
        UiEvent::HotkeyIssue(m) => {
            if blank {
                UiEffect::ShowStatus(m)
            } else {
                UiEffect::Nothing
            }
        },
    }
}

/// Work for the search worker.
pub enum WorkerCommand {
    Status,
    Search { generation: u64, query: String },
    Shutdown,
}

/// Whether taking this command also takes every command already waiting: a search
/// does, so that only the newest of a burst of searches runs.
pub fn drains_queue(command: &WorkerCommand) -> (r: bool)
    ensures
        r == (*command is Search),
{
    match command {
        WorkerCommand::Search { .. } => true,
        _ => false,
    }
}

/// The command that runs after `taken` and the commands that were waiting behind it
/// were taken together: the last one.
pub fn last_command(taken: WorkerCommand, waiting: Vec<WorkerCommand>) -> (run: WorkerCommand)
    ensures
        waiting@.len() == 0 ==> run == taken,
        waiting@.len() > 0 ==> run == waiting@.last(),
{
    let mut waiting = waiting;
    match waiting.pop() {
        Some(last) => last,
        None => taken,
    }
}

// ---------------------------------------------------------------------------
// Saving settings
// ---------------------------------------------------------------------------

/// After saving the settings: where the autostart entry was already changed and the
/// preferences could not be written, the entry is set back as it was.
pub fn autostart_undo(autostart_changed: bool, saved: bool, previous_launch_at_login: bool) -> (undo: Option<bool>)
    ensures
        undo == (if autostart_changed && !saved {
            Some(previous_launch_at_login)
        } else {
            None
        }),
{
    if autostart_changed && !saved {
        Some(previous_launch_at_login)
    } else {
        None
    }
}

// ---------------------------------------------------------------------------
// The session lock monitor
// ---------------------------------------------------------------------------

/// What the session's lock monitor observes.
pub enum LockSignal {
    /// Properties of an interface changed: whether it is the login session's
    /// interface, the new `LockedHint` read as an integer where it is among them, and
    /// whether `LockedHint` was invalidated.
    Changed { session_interface: bool, hint: Option<i64>, invalidated: bool },
    /// `LockedHint` read again after it was invalidated, or `None` where that failed.
    Refreshed(Option<bool>),
    /// The monitor stopped listening.
    MonitorFailed,
}

/// What the monitor does with its lock state.
#[derive(Clone, Copy, Debug, PartialEq, Eq, Structural)]
pub enum LockAction {
    Keep,
    SetLocked(bool),
    /// Read `LockedHint` again.
    Refresh,
}

/// The monitor's rule. It fails closed: when the lock state cannot be read again, or
/// the monitor stops, the session counts as locked.
pub fn lock_action(signal: LockSignal) -> (action: LockAction)
    ensures
        action == match signal {
            LockSignal::Changed { session_interface, hint, invalidated } => if !session_interface {
                LockAction::Keep
            } else if hint is Some {
                LockAction::SetLocked(hint->0 != 0)
            } else if invalidated {
                LockAction::Refresh
            } else {
                LockAction::Keep
            },
            LockSignal::Refreshed(Some(b)) => LockAction::SetLocked(b),
            LockSignal::Refreshed(None) => LockAction::SetLocked(true),
            LockSignal::MonitorFailed => LockAction::SetLocked(true),
        },
{
    match signal {
        LockSignal::Changed { session_interface, hint, invalidated } => {
            if !session_interface {
                LockAction::Keep
            } else {
                match locked_hint(hint) {
                    Some(locked) => LockAction::SetLocked(locked),
                    None => {
                        if invalidated {
                            LockAction::Refresh
                        } else {
                            LockAction::Keep
                        }
                    },
                }
            }
        },
        LockSignal::Refreshed(Some(b)) => LockAction::SetLocked(b),
        LockSignal::Refreshed(None) => LockAction::SetLocked(true),
        LockSignal::MonitorFailed => LockAction::SetLocked(true),
    }
}

} // verus!
