use ruyiseek::cli::{describe_response, parse_args, CliError, DEFAULT_LIMIT};
use ruyiseek::domain::{ItemKind, SearchHit, SearchItem};
use ruyiseek::ipc::{DaemonStatus, Request, Response};

fn words(values: &[&str]) -> Vec<String> {
    values.iter().map(|value| (*value).to_owned()).collect()
}

#[test]
fn client_commands_become_requests() {
    assert_eq!(parse_args(words(&["ping"])).expect("ping"), Some((None, Request::Ping)));
    assert_eq!(parse_args(words(&["status"])).expect("status"), Some((None, Request::Status)));
    assert_eq!(parse_args(words(&["stop"])).expect("stop"), Some((None, Request::Shutdown)));
    assert_eq!(
        parse_args(words(&["--socket", "/tmp/d.sock", "stop"])).expect("stop with socket"),
        Some((Some(b"/tmp/d.sock".to_vec()), Request::Shutdown))
    );
    assert_eq!(
        parse_args(words(&["search", "年度", "报告"])).expect("search"),
        Some((
            None,
            Request::Search {
                query: "年度 报告".to_owned(),
                limit: DEFAULT_LIMIT,
            }
        ))
    );
    assert_eq!(
        parse_args(words(&["--socket", "/tmp/d.sock", "--limit", "5", "search", "notes"])).expect("options"),
        Some((
            Some(b"/tmp/d.sock".to_vec()),
            Request::Search {
                query: "notes".to_owned(),
                limit: 5,
            }
        ))
    );
    assert_eq!(parse_args(words(&["--help", "ping"])).expect("help"), None);
    assert_eq!(parse_args(words(&["-h"])).expect("short help"), None);
}

#[test]
fn client_argument_errors_are_named() {
    let missing = parse_args(words(&["ping", "--limit"])).expect_err("missing value");
    assert!(matches!(missing, CliError::MissingValue("--limit")));
    assert_eq!(missing.message(), "--limit requires a value");

    let unknown = parse_args(words(&["--verbose", "ping"])).expect_err("unknown option");
    assert_eq!(unknown.message(), "unknown option: --verbose");

    let bad = parse_args(words(&["--limit", "many", "search", "x"])).expect_err("bad number");
    assert!(matches!(bad, CliError::InvalidNumber(_)));
    assert_eq!(bad.message(), "invalid digit found in string");

    let usage = parse_args(words(&["search"])).expect_err("search needs a query");
    assert!(matches!(usage, CliError::Usage));
    assert_eq!(usage.message(), "expected ping, status, or search QUERY");
    assert!(matches!(parse_args(Vec::new()), Err(CliError::Usage)));
    assert!(matches!(parse_args(words(&["ping", "extra"])), Err(CliError::Usage)));
    assert!(matches!(parse_args(words(&["stop", "now"])), Err(CliError::Usage)));
}

#[test]
fn answers_become_report_lines() {
    let pong = describe_response(&Response::Pong { protocol_version: 1 }).expect("pong");
    assert_eq!(pong.lines, vec!["ruyiseekd online (protocol 1)".to_owned()]);
    assert!(pong.rows.is_empty());
    assert!(pong.summary.is_none());

    let status = describe_response(&Response::Status(DaemonStatus {
        indexed_items: 12,
        skipped_paths: 3,
        truncated: true,
    }))
    .expect("status");
    assert_eq!(status.lines, vec!["indexed=12 skipped=3 truncated=true".to_owned()]);

    let search = describe_response(&Response::Search {
        elapsed_us: 250,
        hits: vec![SearchHit {
            item: SearchItem {
                id: 4,
                name: "notes.txt".to_owned(),
                path: b"/home/a/notes.txt".to_vec(),
                kind: ItemKind::File,
                hidden: false,
            },
            score: "0.875000".to_owned(),
        }],
    })
    .expect("search");
    assert!(search.lines.is_empty());
    assert_eq!(search.rows.len(), 1);
    assert_eq!(search.rows[0].score, "0.875000");
    assert_eq!(search.rows[0].kind, "file");
    assert_eq!(search.rows[0].path, "/home/a/notes.txt");
    assert_eq!(search.summary, Some("1 result(s) in 250 µs".to_owned()));

    let error = describe_response(&Response::Error("bad request".to_owned()));
    assert_eq!(error.err(), Some("ruyiseekd rejected the request: bad request".to_owned()));
}

#[test]
fn paths_that_are_not_utf8_are_shown_with_replacement_characters() {
    let search = describe_response(&Response::Search {
        elapsed_us: 1,
        hits: vec![SearchHit {
            item: SearchItem {
                id: 9,
                name: "x".to_owned(),
                path: b"/data/\xffx".to_vec(),
                kind: ItemKind::Directory,
                hidden: false,
            },
            score: "1.000000".to_owned(),
        }],
    })
    .expect("search");
    assert_eq!(search.rows[0].path, "/data/\u{FFFD}x");
    assert_eq!(search.rows[0].kind, "directory");
}
