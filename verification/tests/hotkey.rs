use ruyiseek::hotkey::{
    ArrowKey, ControlKey, DoubleCtrlConfig, DoubleCtrlRecognizer, GestureContext, GestureDecision, Key,
    KeyEvent, KeyState,
};
use ruyiseek::keymap::{
    classify_keysyms, is_fullscreen_state, keycode_count, to_key_event, DoubleCtrlControl, HotkeyListener,
    KeyMap, WindowSearch, CONTROL_L, CONTROL_R,
};
use std::time::Duration;

const OPEN: GestureContext = GestureContext {
    session_locked: false,
    fullscreen_blocked: false,
};

fn event(ms: u64, key: Key, state: KeyState) -> KeyEvent {
    KeyEvent {
        key,
        state,
        at: Duration::from_millis(ms).as_nanos(),
        repeat: false,
    }
}

fn tap(recognizer: &mut DoubleCtrlRecognizer, key: ControlKey, down: u64, up: u64) -> GestureDecision {
    assert_eq!(
        recognizer.handle(event(down, Key::Control(key), KeyState::Pressed), OPEN),
        GestureDecision::NotTriggered
    );
    recognizer.handle(event(up, Key::Control(key), KeyState::Released), OPEN)
}

#[test]
fn two_complete_taps_trigger_on_second_release() {
    let mut recognizer = DoubleCtrlRecognizer::default();
    assert_eq!(
        tap(&mut recognizer, ControlKey::Left, 0, 40),
        GestureDecision::NotTriggered
    );
    assert_eq!(
        tap(&mut recognizer, ControlKey::Left, 200, 240),
        GestureDecision::Triggered
    );
}

#[test]
fn long_hold_does_not_arm() {
    let mut recognizer = DoubleCtrlRecognizer::default();
    assert_eq!(
        tap(&mut recognizer, ControlKey::Left, 0, 1_000),
        GestureDecision::NotTriggered
    );
    assert_eq!(
        tap(&mut recognizer, ControlKey::Left, 1_100, 1_150),
        GestureDecision::NotTriggered
    );
}

#[test]
fn ctrl_shortcut_cancels_the_sequence() {
    let mut recognizer = DoubleCtrlRecognizer::default();
    recognizer.handle(event(0, Key::Control(ControlKey::Left), KeyState::Pressed), OPEN);
    recognizer.handle(event(10, Key::NonModifier, KeyState::Pressed), OPEN);
    recognizer.handle(event(20, Key::Control(ControlKey::Left), KeyState::Released), OPEN);
    assert_eq!(
        tap(&mut recognizer, ControlKey::Left, 100, 130),
        GestureDecision::NotTriggered
    );
}

#[test]
fn automatic_repeat_cancels_the_sequence() {
    let mut recognizer = DoubleCtrlRecognizer::default();
    recognizer.handle(event(0, Key::Control(ControlKey::Left), KeyState::Pressed), OPEN);
    let mut repeated = event(20, Key::Control(ControlKey::Left), KeyState::Pressed);
    repeated.repeat = true;
    recognizer.handle(repeated, OPEN);
    assert_eq!(
        tap(&mut recognizer, ControlKey::Left, 50, 80),
        GestureDecision::NotTriggered
    );
}

#[test]
fn opposite_sides_follow_configuration() {
    let mut equivalent = DoubleCtrlRecognizer::default();
    tap(&mut equivalent, ControlKey::Left, 0, 30);
    assert_eq!(
        tap(&mut equivalent, ControlKey::Right, 100, 130),
        GestureDecision::Triggered
    );

    let mut distinct = DoubleCtrlRecognizer::new(DoubleCtrlConfig {
        sides_equivalent: false,
        ..DoubleCtrlConfig::default()
    });
    tap(&mut distinct, ControlKey::Left, 0, 30);
    assert_eq!(
        tap(&mut distinct, ControlKey::Right, 100, 130),
        GestureDecision::NotTriggered
    );
}

#[test]
fn locked_or_fullscreen_context_never_triggers() {
    for context in [
        GestureContext {
            session_locked: true,
            fullscreen_blocked: false,
        },
        GestureContext {
            session_locked: false,
            fullscreen_blocked: true,
        },
    ] {
        let mut recognizer = DoubleCtrlRecognizer::default();
        recognizer.handle(event(0, Key::Control(ControlKey::Left), KeyState::Pressed), context);
        recognizer.handle(event(20, Key::Control(ControlKey::Left), KeyState::Released), context);
        recognizer.handle(event(100, Key::Control(ControlKey::Left), KeyState::Pressed), context);
        assert_eq!(
            recognizer.handle(event(120, Key::Control(ControlKey::Left), KeyState::Released), context),
            GestureDecision::NotTriggered
        );
    }
}

#[test]
fn gap_expiry_starts_a_new_sequence() {
    let mut recognizer = DoubleCtrlRecognizer::default();
    tap(&mut recognizer, ControlKey::Left, 0, 20);
    assert_eq!(
        tap(&mut recognizer, ControlKey::Left, 500, 520),
        GestureDecision::NotTriggered
    );
}

#[test]
fn keysyms_distinguish_control_modifier_and_regular_keys() {
    assert_eq!(classify_keysyms(&[0, CONTROL_L]), Key::Control(ControlKey::Left));
    assert_eq!(classify_keysyms(&[CONTROL_R]), Key::Control(ControlKey::Right));
    assert_eq!(classify_keysyms(&[0xffe9]), Key::OtherModifier);
    assert_eq!(classify_keysyms(&[0x61]), Key::NonModifier);
}

#[test]
fn hotkey_control_updates_preferences_without_restarting_listener() {
    let control = DoubleCtrlControl::new(true, true);
    assert!(control.enabled());
    assert!(control.suppress_in_fullscreen());

    control.update(false, false);
    assert!(!control.enabled());
    assert!(!control.suppress_in_fullscreen());
}

fn sample_map() -> KeyMap {
    // Keycodes 8, 9, 10, 11 with two keysyms each.
    let keysyms = vec![0x61, 0x41, CONTROL_L, 0, 0xff52, 0, 0xffe1, 0xffe2];
    KeyMap::from_mapping(8, 2, &keysyms).expect("mapping")
}

#[test]
fn keyboard_map_classifies_raw_details() {
    let map = sample_map();
    assert_eq!(map.entries.len(), 4);
    assert_eq!(map.classify(8), Key::NonModifier);
    assert_eq!(map.classify(9), Key::Control(ControlKey::Left));
    assert_eq!(map.classify(11), Key::OtherModifier);
    assert_eq!(map.classify(7), Key::NonModifier);
    assert_eq!(map.classify(300), Key::NonModifier);
    assert_eq!(map.classify_arrow(10), Some(ArrowKey::Up));
    assert_eq!(map.classify_arrow(9), None);
    assert!(KeyMap::from_mapping(8, 0, &vec![1, 2]).is_err());
    assert_eq!(keycode_count(8, 255), Some(248));
    assert_eq!(keycode_count(0, 255), None);
    assert_eq!(keycode_count(9, 8), None);
}

#[test]
fn the_repeat_flag_marks_repeats() {
    let map = sample_map();
    assert!(to_key_event(&map, 9, 0x10000, KeyState::Pressed, 5).repeat);
    assert!(!to_key_event(&map, 9, 0, KeyState::Pressed, 5).repeat);
}

#[test]
fn listener_recognizes_a_double_tap_from_raw_events() {
    let mut listener = HotkeyListener::new(sample_map(), DoubleCtrlConfig::default());
    let ms = 1_000_000u128;
    assert!(!listener.on_press(9, 0, 0, false, true, false).triggered);
    assert!(!listener.on_release(9, 0, 40 * ms, true, false));
    assert!(!listener.on_press(9, 0, 200 * ms, false, true, false).triggered);
    assert!(listener.on_release(9, 0, 240 * ms, true, false));
    // Disabled preferences count as a locked session.
    assert!(!listener.on_press(9, 0, 1000 * ms, false, false, false).triggered);
    assert_eq!(listener.on_press(10, 0, 1100 * ms, false, true, false).arrow, Some(ArrowKey::Up));
}

#[test]
fn window_search_gives_up_after_its_budget() {
    let mut search = WindowSearch::new(vec![1, 2]);
    assert_eq!(search.next_window(), Some(2));
    search.add_children(vec![3]);
    assert_eq!(search.next_window(), Some(3));
    assert_eq!(search.next_window(), Some(1));
    assert_eq!(search.next_window(), None);
    let mut long = WindowSearch::new((0..600).collect());
    let mut seen = 0;
    while long.next_window().is_some() {
        seen += 1;
    }
    assert_eq!(seen, 512);
}

#[test]
fn fullscreen_needs_an_active_window_in_that_state() {
    assert!(is_fullscreen_state(5, &[1, 7], 7));
    assert!(!is_fullscreen_state(0, &[7], 7));
    assert!(!is_fullscreen_state(5, &[1], 7));
}
