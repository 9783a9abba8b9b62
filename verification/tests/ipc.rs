use ruyiseek::domain::{ItemKind, SearchHit, SearchItem};
use ruyiseek::ipc::{
    decode_request, decode_response, default_socket_path, encode_request, encode_response,
    frame_length, read_frame, write_frame, ByteReader, ClientError, DaemonStatus, ProtocolError,
    Request, Response, MAX_FRAME_SIZE,
};

#[test]
fn request_round_trip_preserves_unicode_and_tabs() {
    let request = Request::Search {
        query: "年度\t报告 100%".to_owned(),
        limit: 25,
    };
    assert_eq!(
        decode_request(&encode_request(&request)).expect("decode request"),
        request
    );
}

#[test]
fn shutdown_and_acknowledgement_round_trip() {
    assert_eq!(
        decode_request(&encode_request(&Request::Shutdown)).expect("decode shutdown"),
        Request::Shutdown
    );
    assert_eq!(
        decode_response(&encode_response(&Response::Acknowledged))
            .expect("decode acknowledgement"),
        Response::Acknowledged
    );
}

#[test]
fn response_round_trip_preserves_hits() {
    let response = Response::Search {
        elapsed_us: 42,
        hits: vec![SearchHit {
            item: SearchItem {
                id: 7,
                name: "设计\n文档.md".to_owned(),
                path: "/工作/设计\n文档.md".as_bytes().to_vec(),
                kind: ItemKind::File,
                hidden: false,
            },
            score: "0.875000".to_owned(),
        }],
    };
    assert_eq!(
        decode_response(&encode_response(&response)).expect("decode response"),
        response
    );
}

#[test]
fn frame_round_trip_and_limit() {
    let mut bytes = Vec::new();
    write_frame(&mut bytes, b"hello").expect("write frame");
    assert_eq!(
        read_frame(&mut ByteReader::new(bytes)).expect("read frame"),
        b"hello"
    );

    let error = write_frame(&mut Vec::new(), &vec![0; MAX_FRAME_SIZE + 1])
        .expect_err("oversized frame must fail");
    assert!(matches!(error, ProtocolError::FrameTooLarge(_)));
}

#[test]
fn rejects_excessive_search_limit() {
    assert!(matches!(
        decode_request(b"SEARCH\t1001\tquery"),
        Err(ProtocolError::InvalidMessage(_))
    ));
}

#[test]
fn requests_encode_as_tab_separated_text() {
    assert_eq!(encode_request(&Request::Ping), b"PING");
    assert_eq!(
        encode_request(&Request::Search { query: "a b%".to_owned(), limit: 5 }),
        b"SEARCH\t5\ta b%25"
    );
}

#[test]
fn every_response_kind_round_trips() {
    for response in [
        Response::Pong { protocol_version: 1 },
        Response::Status(DaemonStatus { indexed_items: 12, skipped_paths: 3, truncated: true }),
        Response::Error("bad\trequest".to_owned()),
        Response::Search { elapsed_us: 0, hits: Vec::new() },
    ] {
        assert_eq!(decode_response(&encode_response(&response)).expect("round trip"), response);
    }
    assert_eq!(encode_response(&Response::Pong { protocol_version: 1 }), b"PONG\t1");
}

#[test]
fn malformed_payloads_name_their_fault() {
    assert!(matches!(decode_request(&[0xFF, 0xFE]), Err(ProtocolError::InvalidUtf8)));
    assert!(matches!(decode_request(b"NOPE"), Err(ProtocolError::InvalidMessage("unknown request"))));
    assert!(matches!(decode_request(b"SEARCH\tx\tq"), Err(ProtocolError::InvalidNumber)));
    assert!(matches!(decode_request(b"SEARCH\t3\t%zz"), Err(ProtocolError::InvalidEscape)));
    assert!(matches!(decode_response(b""), Err(ProtocolError::EmptyMessage)));
    assert!(matches!(
        decode_response(b"RESULTS\t1\t2"),
        Err(ProtocolError::InvalidMessage("result count mismatch"))
    ));
}

#[test]
fn short_input_is_an_io_error() {
    let mut reader = ByteReader::new(vec![0, 0, 0, 9, 1, 2]);
    assert!(matches!(read_frame(&mut reader), Err(ProtocolError::Io(_))));
    assert!(reader.unread().is_empty());
    let mut huge = ByteReader::new(vec![0, 0x10, 0, 1]);
    assert!(matches!(read_frame(&mut huge), Err(ProtocolError::FrameTooLarge(1048577))));
    assert_eq!(frame_length([0, 0, 1, 2]), 258);
}

#[test]
fn protocol_errors_read_as_their_display_text() {
    assert_eq!(ProtocolError::EmptyMessage.message(), "empty IPC message");
    assert_eq!(
        ProtocolError::InvalidMessage("unknown request").message(),
        "invalid IPC message: unknown request"
    );
    assert_eq!(ProtocolError::FrameTooLarge(5).message(), "IPC frame is too large: 5 bytes");
    let io = ProtocolError::Io(std::io::Error::new(std::io::ErrorKind::Other, "boom"));
    assert_eq!(io.message(), "IPC I/O error: boom");
    let connect = ClientError::Connect {
        socket: b"/run/x.sock".to_vec(),
        source: std::io::Error::new(std::io::ErrorKind::NotFound, "gone"),
    };
    assert_eq!(connect.message(), "cannot connect to /run/x.sock: gone");
}

#[test]
fn socket_path_prefers_the_runtime_directory() {
    assert_eq!(
        default_socket_path(Some(b"/run/user/1000".to_vec()), None, None),
        b"/run/user/1000/ruyiseek/daemon.sock"
    );
    assert_eq!(
        default_socket_path(Some(b"/run/user/1000/".to_vec()), None, None),
        b"/run/user/1000/ruyiseek/daemon.sock"
    );
    assert_eq!(
        default_socket_path(Some(Vec::new()), Some("1000".to_owned()), None),
        b"/tmp/ruyiseek-1000/daemon.sock"
    );
    assert_eq!(
        default_socket_path(None, Some("x1".to_owned()), Some("al ice!".to_owned())),
        b"/tmp/ruyiseek-alice/daemon.sock"
    );
    assert_eq!(
        default_socket_path(None, Some(String::new()), Some("bob".to_owned())),
        b"/tmp/ruyiseek-unknown/daemon.sock"
    );
    assert_eq!(default_socket_path(None, None, None), b"/tmp/ruyiseek-unknown/daemon.sock");
}

#[test]
fn encoded_search_over_the_limit_is_refused() {
    let request = Request::Search {
        query: "x".to_owned(),
        limit: 1001,
    };
    assert!(matches!(
        decode_request(&encode_request(&request)),
        Err(ProtocolError::InvalidMessage("search limit exceeds 1000"))
    ));
}
