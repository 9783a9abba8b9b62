use ruyiseek::clipboard::{
    handle_request, offered_targets, Atoms, ClipboardError, ClipboardMime, OwnerState, OwnerStep, Polled,
    SelectionReply, SelectionRequest, HARD_OWNER_TIMEOUT_NS, NONE_ATOM, QUIET_RELEASE_AFTER_NS,
};

fn atoms() -> Atoms {
    Atoms {
        clipboard: 1,
        targets: 2,
        utf8_string: 42,
        text: 43,
        text_uri_list: 44,
        multiple: 3,
    }
}

#[test]
fn mime_default_text_advertises_utf8_first() {
    let utf8 = 42_u32;
    let text = 43_u32;
    let uri = 44_u32;
    let atoms = Atoms {
        clipboard: 1,
        targets: 2,
        utf8_string: utf8,
        text,
        text_uri_list: uri,
        multiple: 3,
    };
    assert_eq!(offered_targets(&atoms, ClipboardMime::Text), [utf8, text, uri]);
    assert_eq!(offered_targets(&atoms, ClipboardMime::UriList), [uri, utf8, text]);
}

#[test]
fn targets_requests_list_the_offered_atoms() {
    let reply = handle_request(
        SelectionRequest { target: 2, property: 77 },
        &atoms(),
        ClipboardMime::Text,
        10,
    );
    match reply {
        SelectionReply::Targets { property, data } => {
            assert_eq!(property, 77);
            assert_eq!(data, vec![0, 0, 0, 42, 0, 0, 0, 43, 0, 0, 0, 44]);
        }
        other => panic!("unexpected reply {other:?}"),
    }
}

#[test]
fn data_requests_and_refusals() {
    match handle_request(SelectionRequest { target: 44, property: NONE_ATOM }, &atoms(), ClipboardMime::UriList, 3) {
        SelectionReply::Data { property, format } => {
            assert_eq!(property, 44);
            assert_eq!(format, 44);
        }
        other => panic!("unexpected reply {other:?}"),
    }
    match handle_request(SelectionRequest { target: 42, property: 9 }, &atoms(), ClipboardMime::Text, 3) {
        SelectionReply::Data { property, format } => {
            assert_eq!(property, 9);
            assert_eq!(format, 42);
        }
        other => panic!("unexpected reply {other:?}"),
    }
    assert!(matches!(
        handle_request(SelectionRequest { target: 3, property: 9 }, &atoms(), ClipboardMime::Text, 3),
        SelectionReply::Refuse
    ));
}

#[test]
fn owner_releases_after_a_quiet_spell_or_the_hard_limit() {
    let mut state = OwnerState::new();
    assert_eq!(state.before_poll(0, false), OwnerStep::Poll);
    assert_eq!(state.before_poll(0, true), OwnerStep::Release);
    assert_eq!(state.before_poll(HARD_OWNER_TIMEOUT_NS, false), OwnerStep::Release);
    assert_eq!(state.after_poll(Polled::Nothing, 10 * QUIET_RELEASE_AFTER_NS), OwnerStep::Sleep);
    assert_eq!(state.after_poll(Polled::Request, 5), OwnerStep::Serve);
    state.served(1_000);
    assert_eq!(state.after_poll(Polled::Nothing, 1_000 + QUIET_RELEASE_AFTER_NS), OwnerStep::Sleep);
    assert_eq!(state.after_poll(Polled::Nothing, 1_001 + QUIET_RELEASE_AFTER_NS), OwnerStep::Release);
    assert_eq!(state.after_poll(Polled::Cleared, 2_000), OwnerStep::Stop);
    assert_eq!(state.after_poll(Polled::Other, 2_000), OwnerStep::Continue);
    assert_eq!(state.after_poll(Polled::Failed, 2_000), OwnerStep::Fail);
}

#[test]
fn clipboard_errors_carry_their_text() {
    let error = ClipboardError("另一个程序已经持有 CLIPBOARD，无法替换".to_owned());
    assert_eq!(error.message(), "另一个程序已经持有 CLIPBOARD，无法替换");
}
