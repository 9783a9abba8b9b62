//! The command-line client: which request its arguments ask for, and what it reports
//! of the daemon's answer.

use vstd::prelude::*;
use vstd::utf8::encode_utf8;
use crate::daemon::arg_views;
use crate::ipc::{Request, RequestView, Response};
use crate::text::{bytes_of, chars_of, decimal_text, lossy_text, parse_bounded, parse_count, push_decimal, push_str, same_elements_chars};

verus! {

/// The search limit when `--limit` is not given.
pub const DEFAULT_LIMIT: usize = 20;

/// Why the client's command line was refused.
#[derive(Debug)]
pub enum CliError {
    MissingValue(&'static str),
    InvalidNumber(std::num::ParseIntError),
    UnknownOption(String),
    /// No command, or a command with the wrong number of words; the usage is shown.
    Usage,
}

pub enum CliFault {
    MissingValue(Seq<char>),
    InvalidNumber,
    UnknownOption(Seq<char>),
    Usage,
}

pub open spec fn cli_fault(e: CliError) -> CliFault {
    match e {
        CliError::MissingValue(o) => CliFault::MissingValue(o@),
        CliError::InvalidNumber(_) => CliFault::InvalidNumber,
        CliError::UnknownOption(a) => CliFault::UnknownOption(a@),
        CliError::Usage => CliFault::Usage,
    }
}

/// What the options say: the socket (where given), the limit, the positional words.
pub struct CliOptions {
    pub socket: Option<Seq<u8>>,
    pub limit: nat,
    pub words: Seq<Seq<char>>,
}

pub open spec fn read_cli_options(args: Seq<Seq<char>>, i: int, acc: CliOptions) -> Result<Option<CliOptions>, CliFault>
    decreases args.len() - i,
{
    if i < 0 || i >= args.len() {
        Ok(Some(acc))
    } else {
        let a = args[i];
        if a == "--socket"@ {
            if i + 1 < args.len() {
                read_cli_options(
                    args,
                    i + 2,
                    CliOptions { socket: Some(encode_utf8(args[i + 1])), limit: acc.limit, words: acc.words },
                )
            } else {
                Err(CliFault::MissingValue("--socket"@))
            }
        } else if a == "--limit"@ {
            if i + 1 < args.len() {
                match parse_bounded(encode_utf8(args[i + 1]), usize::MAX as nat) {
                    Some(v) => read_cli_options(args, i + 2, CliOptions { socket: acc.socket, limit: v, words: acc.words }),
                    None => Err(CliFault::InvalidNumber),
                }
            } else {
                Err(CliFault::MissingValue("--limit"@))
            }
        } else if a == "-h"@ || a == "--help"@ {
            Ok(None)
        } else if a.len() > 0 && a[0] == '-' {
            Err(CliFault::UnknownOption(a))
        } else {
            read_cli_options(args, i + 1, CliOptions { socket: acc.socket, limit: acc.limit, words: acc.words.push(a) })
        }
    }
}

/// Words joined by single spaces.
pub open spec fn join_spaced(words: Seq<Seq<char>>) -> Seq<char>
    decreases words.len(),
{
    if words.len() == 0 {
        seq![]
    } else if words.len() == 1 {
        words[0]
    } else {
        join_spaced(words.drop_last()).push(' ') + words.last()
    }
}

/// The request a command line asks for, with the socket where one was given; `None`
/// where help was asked for.
pub open spec fn cli_request(args: Seq<Seq<char>>) -> Result<Option<(Option<Seq<u8>>, RequestView)>, CliFault> {
    match read_cli_options(args, 0, CliOptions { socket: None, limit: DEFAULT_LIMIT as nat, words: seq![] }) {
        Err(e) => Err(e),
        Ok(None) => Ok(None),
        Ok(Some(o)) => {
            let w = o.words;
            if w.len() == 1 && w[0] == "ping"@ {
                Ok(Some((o.socket, RequestView::Ping)))
            } else if w.len() == 1 && w[0] == "status"@ {
                Ok(Some((o.socket, RequestView::Status)))
            } else if w.len() == 1 && w[0] == "stop"@ {
                Ok(Some((o.socket, RequestView::Shutdown)))
            } else if w.len() > 1 && w[0] == "search"@ {
                Ok(Some((o.socket, RequestView::Search { query: join_spaced(w.drop_first()), limit: o.limit as usize })))
            } else {
                Err(CliFault::Usage)
            }
        },
    }
}

fn word_is(arg: &String, word: &str) -> (r: bool)
    ensures
        r == (arg@ == word@),
{
    let a = chars_of(arg.as_str());
    let w = chars_of(word);
    same_elements_chars(a.as_slice(), w.as_slice())
}

/// Reads the client's command line: the socket (where `--socket` was given) and the
/// request, or `None` where help was asked for.
pub fn parse_args(args: Vec<String>) -> (r: Result<Option<(Option<Vec<u8>>, Request)>, CliError>)
    ensures
        match (r, cli_request(arg_views(args@))) {
            (Ok(None), Ok(None)) => true,
            (Ok(Some((s, q))), Ok(Some((t, v)))) => q@ == v && match (s, t) {
                (Some(a), Some(b)) => a@ == b,
                (None, None) => true,
                _ => false,
            },
            (Err(e), Err(f)) => cli_fault(e) == f,
            _ => false,
        },
{
    let ghost av = arg_views(args@);
    let mut socket: Option<Vec<u8>> = None;
    let mut limit: usize = DEFAULT_LIMIT;
    let mut words: Vec<String> = Vec::new();
    let mut i: usize = 0;
    assert(arg_views(words@) =~= Seq::<Seq<char>>::empty());
    while i < args.len()
        invariant
            av == arg_views(args@),
            i <= args.len(),
            read_cli_options(av, 0, CliOptions { socket: None, limit: DEFAULT_LIMIT as nat, words: seq![] })
                == read_cli_options(
                av,
                i as int,
                CliOptions {
                    socket: match socket {
                        Some(b) => Some(b@),
                        None => None,
                    },
                    limit: limit as nat,
                    words: arg_views(words@),
                },
            ),
        decreases args.len() - i,
    {
        let a = &args[i];
        assert(av[i as int] == a@);
        if word_is(a, "--socket") {
            if i + 1 >= args.len() {
                return Err(CliError::MissingValue("--socket"));
            }
            assert(av[i + 1] == args@[i + 1]@);
            socket = Some(bytes_of(args[i + 1].as_str()));
            i += 2;
        } else if word_is(a, "--limit") {
            if i + 1 >= args.len() {
                return Err(CliError::MissingValue("--limit"));
            }
            assert(av[i + 1] == args@[i + 1]@);
            match parse_count(args[i + 1].as_str()) {
                Ok(v) => {
                    limit = v;
                },
                Err(e) => {
                    return Err(CliError::InvalidNumber(e));
                },
            }
            i += 2;
        } else if word_is(a, "-h") || word_is(a, "--help") {
            return Ok(None);
        } else {
            let chars = chars_of(a.as_str());
            if chars.len() > 0 && chars[0] == '-' {
                return Err(CliError::UnknownOption(a.clone()));
            }
            let ghost before = words@;
            words.push(a.clone());
            assert(arg_views(words@) =~= arg_views(before).push(a@));
            i += 1;
        }
    }
    let ghost w = arg_views(words@);
    if words.len() == 1 && word_is(&words[0], "ping") {
        return Ok(Some((socket, Request::Ping)));
    }
    if words.len() == 1 && word_is(&words[0], "status") {
        return Ok(Some((socket, Request::Status)));
    }
    if words.len() == 1 && word_is(&words[0], "stop") {
        return Ok(Some((socket, Request::Shutdown)));
    }
    if words.len() > 1 && word_is(&words[0], "search") {
        let mut query = String::new();
        let mut k: usize = 1;
        assert(w.drop_first().take(0) =~= Seq::<Seq<char>>::empty());
        while k < words.len()
            invariant
                w == arg_views(words@),
                1 <= k <= words.len(),
                query@ == join_spaced(w.drop_first().take(k - 1)),
            decreases words.len() - k,
        {
            let ghost before = query@;
            if k > 1 {
                crate::text::push_char(&mut query, ' ');
            }
            push_str(&mut query, words[k].as_str());
            proof {
                let t = w.drop_first().take(k as int);
                assert(t.drop_last() == w.drop_first().take(k - 1));
                assert(t.last() == words@[k as int]@);
                if k == 1 {
                    assert(t[0] == words@[1]@);
                    assert(before =~= Seq::<char>::empty());
                    assert(query@ =~= t[0]);
                }
            }
            k += 1;
        }
        assert(w.drop_first().take(words.len() - 1) == w.drop_first());
        return Ok(Some((socket, Request::Search { query, limit })));
    }
    Err(CliError::Usage)
}

/// The text of an argument error.
pub open spec fn cli_fault_text(f: CliFault) -> Seq<char> {
    match f {
        CliFault::MissingValue(o) => o + " requires a value"@,
        CliFault::InvalidNumber => seq![],
        CliFault::UnknownOption(a) => "unknown option: "@ + a,
        CliFault::Usage => "expected ping, status, or search QUERY"@,
    }
}

impl CliError {
    /// The text of the error; a number that does not parse is described as
    /// `ParseIntError` describes it.
    pub fn message(&self) -> (text: String)
        ensures
            !(self is InvalidNumber) ==> text@ == cli_fault_text(cli_fault(*self)),
    {
        let mut text = String::new();
        match self {
            CliError::MissingValue(o) => {
                push_str(&mut text, o);
                push_str(&mut text, " requires a value");
            },
            CliError::InvalidNumber(e) => {
                text = crate::text::parse_error_text(e);
            },
            CliError::UnknownOption(a) => {
                push_str(&mut text, "unknown option: ");
                push_str(&mut text, a.as_str());
            },
            CliError::Usage => push_str(&mut text, "expected ping, status, or search QUERY"),
        }
        text
    }
}

// ---------------------------------------------------------------------------
// Reports
// ---------------------------------------------------------------------------

/// One result as the client lists it: its score text, its kind, its path as text.
pub struct ResultRow {
    pub score: String,
    pub kind: &'static str,
    pub path: String,
}

/// What the client prints for an answer: lines for the standard output, result rows,
/// and a summary for the standard error.
pub struct Report {
    pub lines: Vec<String>,
    pub rows: Vec<ResultRow>,
    pub summary: Option<String>,
}

pub open spec fn bool_text(b: bool) -> Seq<char> {
    if b {
        "true"@
    } else {
        "false"@
    }
}

fn push_bool(s: &mut String, b: bool)
    ensures
        final(s)@ == old(s)@ + bool_text(b),
{
    if b {
        push_str(s, "true");
    } else {
        push_str(s, "false");
    }
}

/// What the client reports of an answer; an error answer becomes the client's error.
pub fn describe_response(response: &Response) -> (r: Result<Report, String>)
    ensures
        match response {
            Response::Pong { protocol_version } => r matches Ok(rep) && rep.lines@.len() == 1
                && rep.lines@[0]@ == "ruyiseekd online (protocol "@ + decimal_text(*protocol_version as nat) + ")"@
                && rep.rows@.len() == 0 && rep.summary is None,
            Response::Status(s) => r matches Ok(rep) && rep.lines@.len() == 1 && rep.lines@[0]@ == "indexed="@
                + decimal_text(s.indexed_items as nat) + " skipped="@ + decimal_text(s.skipped_paths as nat)
                + " truncated="@ + bool_text(s.truncated) && rep.rows@.len() == 0 && rep.summary is None,
            Response::Search { elapsed_us, hits } => r matches Ok(rep) && rep.lines@.len() == 0
                && rep.rows@.len() == hits@.len() && (forall|k: int|
                0 <= k < hits@.len() ==> {
                    let row = #[trigger] rep.rows@[k];
                    &&& row.score@ == hits@[k].score@
                    &&& row.kind@ == crate::domain::kind_name(hits@[k].item.kind)
                    &&& row.path@ == lossy_text(hits@[k].item.path@)
                }) && (rep.summary matches Some(t) && t@ == decimal_text(hits@.len() as nat)
                + " result(s) in "@ + decimal_text(*elapsed_us as nat) + " µs"@),
            Response::Error(m) => r matches Err(t) && t@ == "ruyiseekd rejected the request: "@ + m@,
            Response::Acknowledged => r matches Ok(rep) && rep.lines@.len() == 0 && rep.rows@.len() == 0
                && rep.summary is None,
        },
{
    match response {
        Response::Pong { protocol_version } => {
            let mut line = String::new();
            push_str(&mut line, "ruyiseekd online (protocol ");
            push_decimal(&mut line, *protocol_version as u64);
            push_str(&mut line, ")");
            Ok(Report { lines: vec![line], rows: Vec::new(), summary: None })
        },
        Response::Status(s) => {
            let mut line = String::new();
            push_str(&mut line, "indexed=");
            push_decimal(&mut line, s.indexed_items as u64);
            push_str(&mut line, " skipped=");
            push_decimal(&mut line, s.skipped_paths as u64);
            push_str(&mut line, " truncated=");
            push_bool(&mut line, s.truncated);
            Ok(Report { lines: vec![line], rows: Vec::new(), summary: None })
        },
        Response::Search { elapsed_us, hits } => {
            let mut rows: Vec<ResultRow> = Vec::new();
            let mut k: usize = 0;
            while k < hits.len()
                invariant
                    k <= hits@.len(),
                    rows@.len() == k,
                    forall|j: int|
                        0 <= j < k ==> {
                            let row = #[trigger] rows@[j];
                            &&& row.score@ == hits@[j].score@
                            &&& row.kind@ == crate::domain::kind_name(hits@[j].item.kind)
                            &&& row.path@ == lossy_text(hits@[j].item.path@)
                        },
                decreases hits.len() - k,
            {
                let hit = &hits[k];
                let shown = crate::text::lossy_chars(hit.item.path.as_slice());
                rows.push(
                    ResultRow {
                        score: hit.score.clone(),
                        kind: hit.item.kind.protocol_name(),
                        path: crate::text::string_from_chars(&shown),
                    },
                );
                k += 1;
            }
            let mut summary = String::new();
            push_decimal(&mut summary, hits.len() as u64);
            push_str(&mut summary, " result(s) in ");
            push_decimal(&mut summary, *elapsed_us);
            push_str(&mut summary, " µs");
            Ok(Report { lines: Vec::new(), rows, summary: Some(summary) })
        },
        Response::Error(m) => {
            let mut text = String::new();
            push_str(&mut text, "ruyiseekd rejected the request: ");
            push_str(&mut text, m.as_str());
            Err(text)
        },
        Response::Acknowledged => Ok(Report { lines: Vec::new(), rows: Vec::new(), summary: None }),
    }
}

} // verus!
