use ruyiseek::daemon::{
    build_index_state, discover_roots_or_home, entry_limit, mount_refresh, parse_args, respond, serve,
    ArgsError, IndexState, ServerDirective,
};
use ruyiseek::domain::{ItemKind, SearchItem};
use ruyiseek::index::ScanReport;
use ruyiseek::ipc::{
    decode_response, encode_request, read_frame, write_frame, ByteReader, DaemonStatus, ProtocolError, Request,
    Response,
};
use ruyiseek::query::SearchEngine;

fn stream_for(request: &Request) -> ByteReader {
    let mut input = Vec::new();
    write_frame(&mut input, &encode_request(request)).expect("encode framed request");
    ByteReader::new(input)
}

fn fixture_state() -> IndexState {
    IndexState {
        engine: SearchEngine::new(vec![SearchItem {
            id: 1,
            name: "完整开发设计文档.md".to_owned(),
            path: "/project/docs/完整开发设计文档.md".as_bytes().to_vec(),
            kind: ItemKind::File,
            hidden: false,
        }]),
        status: DaemonStatus {
            indexed_items: 1,
            skipped_paths: 0,
            truncated: false,
        },
        roots: vec![b"/project".to_vec()],
        max_entries: 250_000,
    }
}

fn args(values: &[&str]) -> Vec<String> {
    values.iter().map(|value| (*value).to_owned()).collect()
}

#[test]
fn serves_search_across_the_protocol_boundary() {
    let mut input = stream_for(&Request::Search {
        query: "设计文档".to_owned(),
        limit: 10,
    });
    let mut output = Vec::new();
    assert_eq!(
        serve(&mut input, &mut output, &fixture_state()).expect("serve search request"),
        ServerDirective::Continue
    );
    let response = decode_response(
        &read_frame(&mut ByteReader::new(output)).expect("read framed response"),
    )
    .expect("decode response");

    let Response::Search { hits, .. } = response else {
        panic!("expected search response");
    };
    assert_eq!(hits.len(), 1);
    assert_eq!(hits[0].item.id, 1);
}

#[test]
fn malformed_requests_receive_structured_errors() {
    let mut input = Vec::new();
    write_frame(&mut input, b"UNKNOWN").expect("encode malformed request");
    let mut reader = ByteReader::new(input);
    let mut output = Vec::new();

    assert_eq!(
        serve(&mut reader, &mut output, &fixture_state()).expect("serve malformed request"),
        ServerDirective::Continue
    );
    let response = decode_response(
        &read_frame(&mut ByteReader::new(output)).expect("read framed response"),
    )
    .expect("decode response");
    assert!(matches!(response, Response::Error(_)));
}

#[test]
fn shutdown_is_acknowledged_and_stops_the_accept_loop() {
    let mut input = stream_for(&Request::Shutdown);
    let mut output = Vec::new();
    assert_eq!(
        serve(&mut input, &mut output, &fixture_state()).expect("serve shutdown request"),
        ServerDirective::Shutdown
    );
    let response = decode_response(
        &read_frame(&mut ByteReader::new(output)).expect("read framed response"),
    )
    .expect("decode response");
    assert_eq!(response, Response::Acknowledged);
}

#[test]
fn explicit_roots_disable_automatic_volume_discovery() {
    let config = parse_args(
        args(&["--root", "/srv/search", "--max-entries", "42"]),
        Ok(b"/home/tester".to_vec()),
    )
    .expect("parse_args")
    .expect("non-help result");

    assert_eq!(config.roots, vec![b"/srv/search".to_vec()]);
    assert_eq!(config.automatic_home, None);
    assert_eq!(config.max_entries, Some(42));
}

#[test]
fn automatic_budget_scales_per_volume_and_is_capped() {
    assert_eq!(entry_limit(None, 0), 250_000);
    assert_eq!(entry_limit(None, 3), 750_000);
    assert_eq!(entry_limit(None, 100), 2_000_000);
    assert_eq!(entry_limit(Some(123), 100), 123);
}

#[test]
fn without_roots_the_default_root_is_discovered_automatically() {
    let config = parse_args(Vec::new(), Ok(b"/home/tester".to_vec()))
        .expect("parse_args")
        .expect("non-help result");
    assert_eq!(config.roots, vec![b"/home/tester".to_vec()]);
    assert_eq!(config.automatic_home, Some(b"/home/tester".to_vec()));
    assert_eq!(config.socket, None);
    assert!(!config.include_hidden && !config.once);
    let missing = parse_args(Vec::new(), Err("no current directory".to_owned())).expect_err("no root");
    assert_eq!(missing.message(), "no current directory");
}

#[test]
fn daemon_arguments_are_checked() {
    assert!(parse_args(args(&["--help", "--bogus"]), Ok(Vec::new())).expect("help").is_none());
    let unknown = parse_args(args(&["--bogus"]), Ok(Vec::new())).expect_err("unknown");
    assert_eq!(unknown.message(), "unknown argument: --bogus");
    let missing = parse_args(args(&["--socket"]), Ok(Vec::new())).expect_err("missing");
    assert_eq!(missing.message(), "--socket requires a value");
    let zero = parse_args(args(&["--max-entries", "0"]), Ok(b"/h".to_vec())).expect_err("zero");
    assert_eq!(zero.message(), "--max-entries must be greater than zero");
    let bad = parse_args(args(&["--max-entries", "lots"]), Ok(b"/h".to_vec())).expect_err("bad");
    assert!(matches!(bad, ArgsError::InvalidNumber(_)));
    let plus = parse_args(args(&["--max-entries", "+7", "--once", "--include-hidden", "--socket", "/s"]), Ok(b"/h".to_vec()))
        .expect("parse")
        .expect("config");
    assert_eq!(plus.max_entries, Some(7));
    assert!(plus.once && plus.include_hidden);
    assert_eq!(plus.socket, Some(b"/s".to_vec()));
}

#[test]
fn requests_get_their_answers() {
    let state = fixture_state();
    let (pong, go_on) = respond(Ok(Request::Ping), &state);
    assert_eq!(pong, Response::Pong { protocol_version: 1 });
    assert_eq!(go_on, ServerDirective::Continue);
    let (status, _) = respond(Ok(Request::Status), &state);
    assert_eq!(status, Response::Status(state.status));
    let (error, _) = respond(Err(ProtocolError::InvalidNumber), &state);
    assert_eq!(error, Response::Error("invalid numeric IPC field".to_owned()));
}

#[test]
fn index_state_reports_the_scan() {
    let report = ScanReport {
        items: vec![SearchItem {
            id: 9,
            name: "a".to_owned(),
            path: b"/r/a".to_vec(),
            kind: ItemKind::File,
            hidden: false,
        }],
        scanned_directories: vec![b"/r".to_vec()],
        skipped_paths: 2,
        truncated: true,
    };
    let state = build_index_state(report, vec![b"/r".to_vec()], 10);
    assert_eq!(state.status, DaemonStatus { indexed_items: 1, skipped_paths: 2, truncated: true });
    assert_eq!(state.engine.len(), 1);
    assert_eq!(state.max_entries, 10);
}

#[test]
fn mount_changes_trigger_a_rebuild() {
    let current = vec![b"/home/a".to_vec(), b"/data".to_vec()];
    assert!(mount_refresh(&current, vec![b"/home/a/".to_vec(), b"/data".to_vec()], None).is_none());
    let plan = mount_refresh(&current, vec![b"/home/a".to_vec()], None).expect("rebuild");
    assert_eq!(plan, (vec![b"/home/a".to_vec()], 250_000));
    let home = b"/home/a".to_vec();
    assert_eq!(discover_roots_or_home(&home, Err("no mountinfo".to_owned())), vec![home.clone()]);
    assert_eq!(discover_roots_or_home(&home, Ok(current.clone())), current);
}
