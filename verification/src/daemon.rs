//! The search daemon's decisions: its command line, the automatic entry budget, the
//! index state built from a scan, when a changed mount set calls for a rebuild, and
//! the answer to each request.

use vstd::prelude::*;
use vstd::utf8::encode_utf8;
use crate::index::ScanReport;
use crate::ipc::{
    decode_request, encode_response, fault_text, read_frame, request_of, write_frame, ByteReader, DaemonStatus,
    Fault, ProtocolError, Request, RequestView, Response, ResponseView, PROTOCOL_VERSION,
};
use crate::path::{paths_equal, same_path};
use crate::query::{search_hits, SearchEngine};
use crate::text::{bytes_of, chars_of, copy_bytes, parse_bounded, parse_count, push_str, same_elements_chars};

verus! {

/// Entries indexed per automatically discovered root.
pub const AUTO_ENTRIES_PER_ROOT: usize = 250000;

/// The most entries indexed automatically, whatever the number of roots.
pub const AUTO_ENTRIES_MAX: usize = 2000000;

/// The automatic budget: a share per root (at least one), capped.
pub open spec fn automatic_limit(root_count: nat) -> nat {
    let k = if root_count == 0 {
        1
    } else {
        root_count
    };
    if 250000 * k < 2000000 {
        250000 * k
    } else {
        2000000
    }
}

/// The entry budget: the configured one, else the automatic one for this many roots.
pub fn entry_limit(configured: Option<usize>, root_count: usize) -> (n: usize)
    ensures
        n == match configured {
            Some(v) => v as nat,
            None => automatic_limit(root_count as nat),
        },
{
    match configured {
        Some(v) => v,
        None => {
            let k = if root_count == 0 {
                1
            } else {
                root_count
            };
            if k < 8 {
                AUTO_ENTRIES_PER_ROOT * k
            } else {
                AUTO_ENTRIES_MAX
            }
        },
    }
}

// ---------------------------------------------------------------------------
// Command line
// ---------------------------------------------------------------------------

/// The daemon's configuration.
#[derive(Debug)]
pub struct DaemonConfig {
    pub roots: Vec<Vec<u8>>,
    /// The home directory whose volumes are discovered automatically, when no root was
    /// given.
    pub automatic_home: Option<Vec<u8>>,
    /// The socket, where one was given.
    pub socket: Option<Vec<u8>>,
    pub include_hidden: bool,
    pub max_entries: Option<usize>,
    pub once: bool,
}

pub struct DaemonConfigView {
    pub roots: Seq<Seq<u8>>,
    pub automatic_home: Option<Seq<u8>>,
    pub socket: Option<Seq<u8>>,
    pub include_hidden: bool,
    pub max_entries: Option<nat>,
    pub once: bool,
}

pub open spec fn opt_bytes(v: Option<Vec<u8>>) -> Option<Seq<u8>> {
    match v {
        Some(b) => Some(b@),
        None => None,
    }
}

pub open spec fn views_of_bytes(v: Seq<Vec<u8>>) -> Seq<Seq<u8>> {
    v.map_values(|b: Vec<u8>| b@)
}

impl View for DaemonConfig {
    type V = DaemonConfigView;

    open spec fn view(&self) -> DaemonConfigView {
        DaemonConfigView {
            roots: views_of_bytes(self.roots@),
            automatic_home: opt_bytes(self.automatic_home),
            socket: opt_bytes(self.socket),
            include_hidden: self.include_hidden,
            max_entries: match self.max_entries {
                Some(v) => Some(v as nat),
                None => None,
            },
            once: self.once,
        }
    }
}

/// Why the command line was refused.
#[derive(Debug)]
pub enum ArgsError {
    UnknownArgument(String),
    MissingValue(&'static str),
    InvalidNumber(std::num::ParseIntError),
    ZeroEntries,
    /// No root was given and no default root could be found.
    NoDefaultRoot(String),
}

pub enum ArgsFault {
    UnknownArgument(Seq<char>),
    MissingValue(Seq<char>),
    InvalidNumber,
    ZeroEntries,
    NoDefaultRoot(Seq<char>),
}

pub open spec fn args_fault(e: ArgsError) -> ArgsFault {
    match e {
        ArgsError::UnknownArgument(a) => ArgsFault::UnknownArgument(a@),
        ArgsError::MissingValue(o) => ArgsFault::MissingValue(o@),
        ArgsError::InvalidNumber(_) => ArgsFault::InvalidNumber,
        ArgsError::ZeroEntries => ArgsFault::ZeroEntries,
        ArgsError::NoDefaultRoot(m) => ArgsFault::NoDefaultRoot(m@),
    }
}

/// The options read so far.
pub struct OptionsSoFar {
    pub roots: Seq<Seq<u8>>,
    pub socket: Option<Seq<u8>>,
    pub include_hidden: bool,
    pub max_entries: Option<nat>,
    pub once: bool,
}

/// Reads the arguments from `i` on: `None` where help was asked for.
pub open spec fn read_options(args: Seq<Seq<char>>, i: int, acc: OptionsSoFar) -> Result<Option<OptionsSoFar>, ArgsFault>
    decreases args.len() - i,
{
    if i < 0 || i >= args.len() {
        Ok(Some(acc))
    } else {
        let a = args[i];
        if a == "--root"@ {
            if i + 1 < args.len() {
                read_options(
                    args,
                    i + 2,
                    OptionsSoFar {
                        roots: acc.roots.push(encode_utf8(args[i + 1])),
                        socket: acc.socket,
                        include_hidden: acc.include_hidden,
                        max_entries: acc.max_entries,
                        once: acc.once,
                    },
                )
            } else {
                Err(ArgsFault::MissingValue("--root"@))
            }
        } else if a == "--socket"@ {
            if i + 1 < args.len() {
                read_options(
                    args,
                    i + 2,
                    OptionsSoFar {
                        roots: acc.roots,
                        socket: Some(encode_utf8(args[i + 1])),
                        include_hidden: acc.include_hidden,
                        max_entries: acc.max_entries,
                        once: acc.once,
                    },
                )
            } else {
                Err(ArgsFault::MissingValue("--socket"@))
            }
        } else if a == "--max-entries"@ {
            if i + 1 < args.len() {
                match parse_bounded(encode_utf8(args[i + 1]), usize::MAX as nat) {
                    Some(v) => read_options(
                        args,
                        i + 2,
                        OptionsSoFar {
                            roots: acc.roots,
                            socket: acc.socket,
                            include_hidden: acc.include_hidden,
                            max_entries: Some(v),
                            once: acc.once,
                        },
                    ),
                    None => Err(ArgsFault::InvalidNumber),
                }
            } else {
                Err(ArgsFault::MissingValue("--max-entries"@))
            }
        } else if a == "--include-hidden"@ {
            read_options(
                args,
                i + 1,
                OptionsSoFar {
                    roots: acc.roots,
                    socket: acc.socket,
                    include_hidden: true,
                    max_entries: acc.max_entries,
                    once: acc.once,
                },
            )
        } else if a == "--once"@ {
            read_options(
                args,
                i + 1,
                OptionsSoFar {
                    roots: acc.roots,
                    socket: acc.socket,
                    include_hidden: acc.include_hidden,
                    max_entries: acc.max_entries,
                    once: true,
                },
            )
        } else if a == "-h"@ || a == "--help"@ {
            Ok(None)
        } else {
            Err(ArgsFault::UnknownArgument(a))
        }
    }
}

pub open spec fn no_options() -> OptionsSoFar {
    OptionsSoFar { roots: seq![], socket: None, include_hidden: false, max_entries: None, once: false }
}

/// The configuration a command line gives. Without `--root`, the default root (the home
/// directory when it is one, else the current directory) is the only root and its
/// volumes are discovered automatically.
pub open spec fn daemon_args(args: Seq<Seq<char>>, default_root: Result<Seq<u8>, Seq<char>>) -> Result<
    Option<DaemonConfigView>,
    ArgsFault,
> {
    match read_options(args, 0, no_options()) {
        Err(e) => Err(e),
        Ok(None) => Ok(None),
        Ok(Some(o)) => {
            let chosen: Result<(Seq<Seq<u8>>, Option<Seq<u8>>), Seq<char>> = if o.roots.len() == 0 {
                match default_root {
                    Ok(r) => Ok((seq![r], Some(r))),
                    Err(m) => Err(m),
                }
            } else {
                Ok((o.roots, None))
            };
            match chosen {
                Err(m) => Err(ArgsFault::NoDefaultRoot(m)),
                Ok((roots, automatic_home)) => if o.max_entries == Some(0nat) {
                    Err(ArgsFault::ZeroEntries)
                } else {
                    Ok(
                        Some(
                            DaemonConfigView {
                                roots,
                                automatic_home,
                                socket: o.socket,
                                include_hidden: o.include_hidden,
                                max_entries: o.max_entries,
                                once: o.once,
                            },
                        ),
                    )
                },
            }
        },
    }
}

/// Reading a command line that is then continued goes on from the options of its
/// first part, when that first part read without error or help.
proof fn lemma_read_continues(args: Seq<Seq<char>>, t: Seq<Seq<char>>, i: int, acc: OptionsSoFar)
    requires
        0 <= i <= args.len(),
        read_options(args, i, acc) is Ok,
        read_options(args, i, acc)->Ok_0 is Some,
    ensures
        read_options(args + t, i, acc) == read_options(args + t, args.len() as int, read_options(args, i, acc)->Ok_0->Some_0),
    decreases args.len() - i,
{
    let all = args + t;
    if i < args.len() {
        assert(all[i] == args[i]);
        if i + 1 < args.len() {
            assert(all[i + 1] == args[i + 1]);
        }
        let a = args[i];
        if a == "--root"@ || a == "--socket"@ || a == "--max-entries"@ {
            lemma_read_continues(
                args,
                t,
                i + 2,
                if a == "--root"@ {
                        OptionsSoFar {
                            roots: acc.roots.push(encode_utf8(args[i + 1])),
                            socket: acc.socket,
                            include_hidden: acc.include_hidden,
                            max_entries: acc.max_entries,
                            once: acc.once,
                        }
                    } else if a == "--socket"@ {
                        OptionsSoFar {
                            roots: acc.roots,
                            socket: Some(encode_utf8(args[i + 1])),
                            include_hidden: acc.include_hidden,
                            max_entries: acc.max_entries,
                            once: acc.once,
                        }
                    } else {
                        OptionsSoFar {
                            roots: acc.roots,
                            socket: acc.socket,
                            include_hidden: acc.include_hidden,
                            max_entries: parse_bounded(encode_utf8(args[i + 1]), usize::MAX as nat),
                            once: acc.once,
                        }
                },
            );
        } else if a == "--include-hidden"@ {
            lemma_read_continues(
                args,
                t,
                i + 1,
                OptionsSoFar {
                    roots: acc.roots,
                    socket: acc.socket,
                    include_hidden: true,
                    max_entries: acc.max_entries,
                    once: acc.once,
                },
            );
        } else if a == "--once"@ {
            lemma_read_continues(
                args,
                t,
                i + 1,
                OptionsSoFar {
                    roots: acc.roots,
                    socket: acc.socket,
                    include_hidden: acc.include_hidden,
                    max_entries: acc.max_entries,
                    once: true,
                },
            );
        }
    }
}

/// The law of `--root`: the option can be repeated and every value is kept, in order.
/// Giving one more `--root PATH` after any accepted command line configures exactly
/// the roots given before it (none where the roots were being discovered) followed
/// by `PATH`, and turns automatic discovery off.
pub proof fn lemma_every_root_is_kept(
    args: Seq<Seq<char>>,
    path: Seq<char>,
    default_root: Result<Seq<u8>, Seq<char>>,
)
    requires
        daemon_args(args, default_root) matches Ok(Some(_)),
    ensures
        ({
            let c = daemon_args(args, default_root)->Ok_0->Some_0;
            let given = if c.automatic_home is None {
                c.roots
            } else {
                seq![]
            };
            daemon_args(args + seq!["--root"@, path], default_root) matches Ok(Some(d)) && d.roots == given.push(
                encode_utf8(path),
            ) && d.automatic_home is None
        }),
{
    let t = seq!["--root"@, path];
    lemma_read_continues(args, t, 0, no_options());
    let o = read_options(args, 0, no_options())->Ok_0->Some_0;
    let all = args + t;
    assert(all[args.len() as int] == "--root"@);
    assert(all[args.len() as int + 1] == path);
    let o2 = OptionsSoFar {
        roots: o.roots.push(encode_utf8(path)),
        socket: o.socket,
        include_hidden: o.include_hidden,
        max_entries: o.max_entries,
        once: o.once,
    };
    assert(read_options(all, args.len() as int, o) == read_options(all, args.len() as int + 2, o2));
    assert(read_options(all, 0, no_options()) == Ok::<Option<OptionsSoFar>, ArgsFault>(Some(o2)));
}

pub open spec fn arg_views(args: Seq<String>) -> Seq<Seq<char>> {
    args.map_values(|a: String| a@)
}

fn arg_is(arg: &String, word: &str) -> (r: bool)
    ensures
        r == (arg@ == word@),
{
    let a = chars_of(arg.as_str());
    let w = chars_of(word);
    same_elements_chars(a.as_slice(), w.as_slice())
}

/// Reads the daemon's command line. `default_root` is the home directory when it is a
/// directory, else the current directory, or why neither could be had.
pub fn parse_args(args: Vec<String>, default_root: Result<Vec<u8>, String>) -> (r: Result<
    Option<DaemonConfig>,
    ArgsError,
>)
    ensures
        match (
            r,
            daemon_args(
                arg_views(args@),
                match default_root {
                    Ok(b) => Ok(b@),
                    Err(m) => Err(m@),
                },
            ),
        ) {
            (Ok(None), Ok(None)) => true,
            (Ok(Some(c)), Ok(Some(v))) => c@ == v,
            (Err(e), Err(f)) => args_fault(e) == f,
            _ => false,
        },
{
    let ghost av = arg_views(args@);
    let mut roots: Vec<Vec<u8>> = Vec::new();
    let mut socket: Option<Vec<u8>> = None;
    let mut include_hidden = false;
    let mut max_entries: Option<usize> = None;
    let mut once = false;
    let mut i: usize = 0;
    assert(views_of_bytes(roots@) =~= Seq::<Seq<u8>>::empty());
    while i < args.len()
        invariant
            av == arg_views(args@),
            i <= args.len(),
            read_options(av, 0, no_options()) == read_options(
                av,
                i as int,
                OptionsSoFar {
                    roots: views_of_bytes(roots@),
                    socket: opt_bytes(socket),
                    include_hidden,
                    max_entries: match max_entries {
                        Some(v) => Some(v as nat),
                        None => None,
                    },
                    once,
                },
            ),
        decreases args.len() - i,
    {
        let a = &args[i];
        assert(av[i as int] == a@);
        if arg_is(a, "--root") {
            if i + 1 >= args.len() {
                return Err(ArgsError::MissingValue("--root"));
            }
            assert(av[i + 1] == args@[i + 1]@);
            let ghost before = roots@;
            roots.push(bytes_of(args[i + 1].as_str()));
            assert(views_of_bytes(roots@) =~= views_of_bytes(before).push(encode_utf8(av[i + 1])));
            i += 2;
        } else if arg_is(a, "--socket") {
            if i + 1 >= args.len() {
                return Err(ArgsError::MissingValue("--socket"));
            }
            assert(av[i + 1] == args@[i + 1]@);
            socket = Some(bytes_of(args[i + 1].as_str()));
            i += 2;
        } else if arg_is(a, "--max-entries") {
            if i + 1 >= args.len() {
                return Err(ArgsError::MissingValue("--max-entries"));
            }
            assert(av[i + 1] == args@[i + 1]@);
            match parse_count(args[i + 1].as_str()) {
                Ok(v) => {
                    max_entries = Some(v);
                },
                Err(e) => {
                    return Err(ArgsError::InvalidNumber(e));
                },
            }
            i += 2;
        } else if arg_is(a, "--include-hidden") {
            include_hidden = true;
            i += 1;
        } else if arg_is(a, "--once") {
            once = true;
            i += 1;
        } else if arg_is(a, "-h") || arg_is(a, "--help") {
            return Ok(None);
        } else {
            return Err(ArgsError::UnknownArgument(a.clone()));
        }
    }
    let automatic_home = if roots.len() == 0 {
        match default_root {
            Ok(root) => {
                let home = copy_bytes(root.as_slice());
                roots.push(root);
                assert(views_of_bytes(roots@) =~= seq![home@]);
                Some(home)
            },
            Err(message) => {
                return Err(ArgsError::NoDefaultRoot(message));
            },
        }
    } else {
        None
    };
    if max_entries == Some(0usize) {
        return Err(ArgsError::ZeroEntries);
    }
    Ok(Some(DaemonConfig { roots, automatic_home, socket, include_hidden, max_entries, once }))
}

/// The text of an argument error, as the daemon reports it.
pub open spec fn args_fault_text(f: ArgsFault) -> Seq<char> {
    match f {
        ArgsFault::UnknownArgument(a) => "unknown argument: "@ + a,
        ArgsFault::MissingValue(o) => o + " requires a value"@,
        ArgsFault::InvalidNumber => seq![],
        ArgsFault::ZeroEntries => "--max-entries must be greater than zero"@,
        ArgsFault::NoDefaultRoot(m) => m,
    }
}

impl ArgsError {
    /// The text of the error. A number that does not parse is described as
    /// `ParseIntError` describes it.
    pub fn message(&self) -> (text: String)
        ensures
            !(self is InvalidNumber) ==> text@ == args_fault_text(args_fault(*self)),
    {
        let mut text = String::new();
        match self {
            ArgsError::UnknownArgument(a) => {
                push_str(&mut text, "unknown argument: ");
                push_str(&mut text, a.as_str());
            },
            ArgsError::MissingValue(o) => {
                push_str(&mut text, o);
                push_str(&mut text, " requires a value");
            },
            ArgsError::InvalidNumber(e) => {
                text = crate::text::parse_error_text(e);
            },
            ArgsError::ZeroEntries => push_str(&mut text, "--max-entries must be greater than zero"),
            ArgsError::NoDefaultRoot(m) => push_str(&mut text, m.as_str()),
        }
        text
    }
}

// ---------------------------------------------------------------------------
// Index state
// ---------------------------------------------------------------------------

/// What the daemon serves from: the engine, its status, and the roots and budget it
/// was built with.
pub struct IndexState {
    pub engine: SearchEngine,
    pub status: DaemonStatus,
    pub roots: Vec<Vec<u8>>,
    pub max_entries: usize,
}

/// The index state of a finished scan.
pub fn build_index_state(report: ScanReport, roots: Vec<Vec<u8>>, max_entries: usize) -> (state: IndexState)
    ensures
        state.engine@ == report.items@,
        state.status == (DaemonStatus {
            indexed_items: report.items@.len() as usize,
            skipped_paths: report.skipped_paths,
            truncated: report.truncated,
        }),
        state.roots@ == roots@,
        state.max_entries == max_entries,
{
    let status = DaemonStatus {
        indexed_items: report.items.len(),
        skipped_paths: report.skipped_paths,
        truncated: report.truncated,
    };
    IndexState { engine: SearchEngine::new(report.items), status, roots, max_entries }
}

/// The roots to index: those discovered, or `home` alone where the mount table could
/// not be read.
pub fn discover_roots_or_home(home: &Vec<u8>, discovered: Result<Vec<Vec<u8>>, String>) -> (roots: Vec<
    Vec<u8>,
>)
    ensures
        match discovered {
            Ok(d) => roots@ == d@,
            Err(_) => views_of_bytes(roots@) == seq![home@],
        },
{
    match discovered {
        Ok(roots) => roots,
        Err(_) => {
            let v = vec![copy_bytes(home.as_slice())];
            assert(views_of_bytes(v@) =~= seq![home@]);
            v
        },
    }
}

/// Two root lists name the same paths in the same order.
pub open spec fn same_roots(a: Seq<Seq<u8>>, b: Seq<Seq<u8>>) -> bool {
    a.len() == b.len() && forall|i: int| 0 <= i < a.len() ==> same_path(#[trigger] a[i], b[i])
}

/// What a refreshed mount set calls for: nothing while the roots stay the same, else
/// a rebuild over the new roots with the budget for them.
pub fn mount_refresh(current: &Vec<Vec<u8>>, discovered: Vec<Vec<u8>>, configured_max_entries: Option<usize>) -> (plan:
    Option<(Vec<Vec<u8>>, usize)>)
    ensures
        same_roots(views_of_bytes(current@), views_of_bytes(discovered@)) ==> plan is None,
        !same_roots(views_of_bytes(current@), views_of_bytes(discovered@)) ==> (plan matches Some((roots, limit))
            && roots@ == discovered@ && limit == match configured_max_entries {
            Some(v) => v as nat,
            None => automatic_limit(discovered@.len()),
        }),
{
    let mut same = current.len() == discovered.len();
    if same {
        let mut i: usize = 0;
        while i < current.len()
            invariant
                current@.len() == discovered@.len(),
                i <= current@.len(),
                same == forall|k: int| 0 <= k < i ==> same_path(#[trigger] current@[k]@, discovered@[k]@),
            decreases current.len() - i,
        {
            if !paths_equal(current[i].as_slice(), discovered[i].as_slice()) {
                same = false;
            }
            i += 1;
        }
    }
    proof {
        let a = views_of_bytes(current@);
        let b = views_of_bytes(discovered@);
        if same {
            assert forall|i: int| 0 <= i < a.len() implies same_path(#[trigger] a[i], b[i]) by {
                assert(a[i] == current@[i]@ && b[i] == discovered@[i]@);
            }
        } else if current@.len() == discovered@.len() {
            let k = choose|k: int| 0 <= k < current@.len() && !same_path(#[trigger] current@[k]@, discovered@[k]@);
            assert(a[k] == current@[k]@ && b[k] == discovered@[k]@);
        }
    }
    if same {
        None
    } else {
        let limit = entry_limit(configured_max_entries, discovered.len());
        Some((discovered, limit))
    }
}

// ---------------------------------------------------------------------------
// Serving
// ---------------------------------------------------------------------------

/// Whether the daemon goes on accepting clients.
#[derive(Clone, Copy, Debug, PartialEq, Eq, Structural)]
pub enum ServerDirective {
    Continue,
    Shutdown,
}

#[verifier::external_type_specification]
#[verifier::external_body]
pub struct ExInstant(std::time::Instant);

/// Calls `Instant::now`.
#[verifier::external_body]
fn clock_now() -> std::time::Instant {
    std::time::Instant::now()
}

/// Calls `Instant::elapsed` and converts the microseconds to a `u64`, saturating. What
/// it returns depends on the clock and is left unsaid.
#[verifier::external_body]
fn micros_since(start: &std::time::Instant) -> u64 {
    u64::try_from(start.elapsed().as_micros()).unwrap_or(u64::MAX)
}

/// The answer to a decoded request, and whether to go on. A search answers with the
/// engine's results and the time it took.
pub open spec fn answers(
    request: Result<RequestView, Fault>,
    failure: Option<Seq<char>>,
    state: IndexState,
    response: ResponseView,
    directive: ServerDirective,
) -> bool {
    match request {
        Ok(RequestView::Ping) => response == (ResponseView::Pong { protocol_version: PROTOCOL_VERSION })
            && directive == ServerDirective::Continue,
        Ok(RequestView::Status) => response == ResponseView::Status(state.status) && directive
            == ServerDirective::Continue,
        Ok(RequestView::Shutdown) => response == ResponseView::Acknowledged && directive
            == ServerDirective::Shutdown,
        Ok(RequestView::Search { query, limit }) => (response matches ResponseView::Search { hits, .. } && hits
            == search_hits(state.engine@, query, limit as nat)) && directive == ServerDirective::Continue,
        Err(_) => (response matches ResponseView::Error(m) && Some(m) == failure) && directive
            == ServerDirective::Continue,
    }
}

/// Answers one decoded request.
pub fn respond(request: Result<Request, ProtocolError>, state: &IndexState) -> (out: (Response, ServerDirective))
    ensures
        match request {
            Ok(r) => answers(Ok(r@), None, *state, out.0@, out.1),
            Err(e) => out.0 matches Response::Error(m) && out.1 == ServerDirective::Continue && (!(e is Io)
                ==> m@ == fault_text(e)),
        },
{
    match request {
        Ok(Request::Ping) => (Response::Pong { protocol_version: PROTOCOL_VERSION }, ServerDirective::Continue),
        Ok(Request::Status) => (Response::Status(state.status), ServerDirective::Continue),
        Ok(Request::Shutdown) => (Response::Acknowledged, ServerDirective::Shutdown),
        Ok(Request::Search { query, limit }) => {
            let started = clock_now();
            let hits = state.engine.search(query.as_str(), limit);
            let elapsed_us = micros_since(&started);
            (Response::Search { elapsed_us, hits }, ServerDirective::Continue)
        },
        Err(error) => (Response::Error(error.message()), ServerDirective::Continue),
    }
}

/// The text of the error answer to a payload that does not decode.
pub open spec fn fault_message(f: Fault) -> Seq<char> {
    match f {
        Fault::EmptyMessage => "empty IPC message"@,
        Fault::InvalidMessage(reason) => "invalid IPC message: "@ + reason,
        Fault::InvalidNumber => "invalid numeric IPC field"@,
        Fault::InvalidEscape => "invalid percent-encoded IPC field"@,
        Fault::InvalidUtf8 => "IPC text field is not valid UTF-8"@,
    }
}

/// The directive after a payload: stop only after a shutdown request.
pub open spec fn directive_for(request: Result<RequestView, Fault>) -> ServerDirective {
    match request {
        Ok(RequestView::Shutdown) => ServerDirective::Shutdown,
        _ => ServerDirective::Continue,
    }
}

/// Serves one client exchange: reads a request frame from `input`, answers it, and
/// appends the response frame to `output`. It fails, appending nothing, where no
/// whole frame within the size limit can be read, or where the answer is too large
/// for a frame.
pub fn serve(input: &mut ByteReader, output: &mut Vec<u8>, state: &IndexState) -> (r: Result<
    ServerDirective,
    ProtocolError,
>)
    requires
        old(input).well_formed(),
    ensures
        final(input).well_formed(),
        ({
            let rest = old(input).remaining();
            let size = crate::ipc::prefix_value(rest);
            if rest.len() < 4 {
                &&& r matches Err(ProtocolError::Io(_))
                &&& final(input).remaining() == Seq::<u8>::empty()
                &&& final(output)@ == old(output)@
            } else if size > crate::ipc::MAX_FRAME_SIZE {
                &&& r matches Err(ProtocolError::FrameTooLarge(n)) && n == size
                &&& final(input).remaining() == rest.skip(4)
                &&& final(output)@ == old(output)@
            } else if rest.len() < 4 + size {
                &&& r matches Err(ProtocolError::Io(_))
                &&& final(input).remaining() == Seq::<u8>::empty()
                &&& final(output)@ == old(output)@
            } else {
                let payload = rest.subrange(4, 4 + size as int);
                let d = directive_for(request_of(payload));
                &&& final(input).remaining() == rest.skip(4 + size as int)
                &&& exists|response: ResponseView|
                    {
                        &&& match request_of(payload) {
                            Ok(q) => answers(Ok(q), None, *state, response, d),
                            Err(f) => response == ResponseView::Error(fault_message(f)),
                        }
                        &&& if (#[trigger] crate::ipc::response_bytes(response)).len()
                            <= crate::ipc::MAX_FRAME_SIZE {
                            &&& r matches Ok(e) && e == d
                            &&& final(output)@ == old(output)@ + crate::ipc::frame_bytes(
                                crate::ipc::response_bytes(response),
                            )
                        } else {
                            &&& r matches Err(ProtocolError::FrameTooLarge(n)) && n
                                == crate::ipc::response_bytes(response).len()
                            &&& final(output)@ == old(output)@
                        }
                    }
            }
        }),
{
    let payload = match read_frame(input) {
        Ok(p) => p,
        Err(e) => return Err(e),
    };
    let decoded = decode_request(payload.as_slice());
    let (response, directive) = respond(decoded, state);
    proof {
        if let Err(f) = request_of(payload@) {
            assert(response@ == ResponseView::Error(fault_message(f)));
        }
    }
    let bytes = encode_response(&response);
    let written = write_frame(output, bytes.as_slice());
    assert(crate::ipc::response_bytes(response@) == bytes@);
    match written {
        Ok(()) => Ok(directive),
        Err(e) => Err(e),
    }
}

} // verus!
