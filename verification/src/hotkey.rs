//! Double-Control gesture recognizer.
//!
//! Keyboard adapters translate native events into this state machine. Times are
//! nanoseconds on a monotonic clock. The recognizer never grabs or suppresses keys.

use vstd::prelude::*;

verus! {

#[derive(Clone, Copy, Debug, PartialEq, Eq, Structural)]
pub enum ControlKey {
    Left,
    Right,
}

#[derive(Clone, Copy, Debug, PartialEq, Eq, Structural)]
pub enum Key {
    Control(ControlKey),
    OtherModifier,
    NonModifier,
}

/// Directional arrow keys reported by the keyboard listener.
#[derive(Clone, Copy, Debug, PartialEq, Eq, Structural)]
pub enum ArrowKey {
    Up,
    Down,
    Left,
    Right,
}

#[derive(Clone, Copy, Debug, PartialEq, Eq, Structural)]
pub enum KeyState {
    Pressed,
    Released,
}

/// One key transition; `at` is in nanoseconds.
#[derive(Clone, Copy, Debug, PartialEq, Eq, Structural)]
pub struct KeyEvent {
    pub key: Key,
    pub state: KeyState,
    pub at: u128,
    pub repeat: bool,
}

#[derive(Clone, Copy, Debug, PartialEq, Eq, Structural)]
pub struct GestureContext {
    pub session_locked: bool,
    pub fullscreen_blocked: bool,
}

impl Default for GestureContext {
    fn default() -> (c: Self)
        ensures
            !c.session_locked && !c.fullscreen_blocked,
    {
        GestureContext { session_locked: false, fullscreen_blocked: false }
    }
}

/// Limits of the gesture, in nanoseconds.
#[derive(Clone, Copy, Debug, PartialEq, Eq, Structural)]
pub struct DoubleCtrlConfig {
    pub max_hold: u128,
    pub max_gap: u128,
    pub sides_equivalent: bool,
}

pub const NANOS_PER_MILLI: u128 = 1_000_000;

impl Default for DoubleCtrlConfig {
    /// A tap is held at most 220 ms and the taps are at most 320 ms apart; either
    /// Control key counts.
    fn default() -> (c: Self)
        ensures
            c.max_hold == 220 * NANOS_PER_MILLI,
            c.max_gap == 320 * NANOS_PER_MILLI,
            c.sides_equivalent,
    {
        DoubleCtrlConfig {
            max_hold: 220 * NANOS_PER_MILLI,
            max_gap: 320 * NANOS_PER_MILLI,
            sides_equivalent: true,
        }
    }
}

#[derive(Clone, Copy, Debug, PartialEq, Eq, Structural)]
pub enum GestureDecision {
    NotTriggered,
    Triggered,
}

#[derive(Clone, Copy, Debug, PartialEq, Eq, Structural)]
pub enum TapNumber {
    First,
    Second,
}

/// Where the recognizer is within a gesture.
#[derive(Clone, Copy, Debug, PartialEq, Eq, Structural)]
pub enum GesturePhase {
    Idle,
    Pressed { key: ControlKey, pressed_at: u128, tap: TapNumber, chorded: bool },
    Armed { key: ControlKey, released_at: u128 },
}

#[derive(Debug)]
pub struct DoubleCtrlRecognizer {
    config: DoubleCtrlConfig,
    state: GesturePhase,
    last_event_at: Option<u128>,
}

/// Everything the recognizer remembers.
pub struct RecognizerView {
    pub config: DoubleCtrlConfig,
    pub phase: GesturePhase,
    pub last_event_at: Option<u128>,
}

impl View for DoubleCtrlRecognizer {
    type V = RecognizerView;

    closed spec fn view(&self) -> RecognizerView {
        RecognizerView {
            config: self.config,
            phase: self.state,
            last_event_at: self.last_event_at,
        }
    }
}

pub open spec fn keys_match_spec(config: DoubleCtrlConfig, left: ControlKey, right: ControlKey) -> bool {
    config.sides_equivalent || left == right
}

/// An armed gesture lapses once the gap since the first release exceeds the limit.
pub open spec fn expired(config: DoubleCtrlConfig, phase: GesturePhase, now: u128) -> GesturePhase {
    match phase {
        GesturePhase::Armed { released_at, .. } => if now >= released_at && now - released_at
            > config.max_gap {
            GesturePhase::Idle
        } else {
            phase
        },
        _ => phase,
    }
}

pub open spec fn after_press(
    config: DoubleCtrlConfig,
    phase: GesturePhase,
    key: ControlKey,
    at: u128,
) -> GesturePhase {
    match phase {
        GesturePhase::Armed { key: first_key, released_at } if at >= released_at && at
            - released_at <= config.max_gap && keys_match_spec(config, first_key, key) => {
            GesturePhase::Pressed { key, pressed_at: at, tap: TapNumber::Second, chorded: false }
        },
        GesturePhase::Pressed { key: pressed_key, pressed_at, tap, .. } => {
            GesturePhase::Pressed { key: pressed_key, pressed_at, tap, chorded: true }
        },
        _ => GesturePhase::Pressed { key, pressed_at: at, tap: TapNumber::First, chorded: false },
    }
}

pub open spec fn after_release(
    config: DoubleCtrlConfig,
    phase: GesturePhase,
    key: ControlKey,
    at: u128,
) -> (GesturePhase, GestureDecision) {
    match phase {
        GesturePhase::Pressed { key: pressed_key, pressed_at, tap, chorded } => {
            if !keys_match_spec(config, pressed_key, key) || at < pressed_at || at - pressed_at
                > config.max_hold || chorded {
                (GesturePhase::Idle, GestureDecision::NotTriggered)
            } else {
                match tap {
                    TapNumber::First => (
                        GesturePhase::Armed { key, released_at: at },
                        GestureDecision::NotTriggered,
                    ),
                    TapNumber::Second => (GesturePhase::Idle, GestureDecision::Triggered),
                }
            }
        },
        _ => (GesturePhase::Idle, GestureDecision::NotTriggered),
    }
}

/// One step of the recognizer: the new phase, the new last-event time, and the decision.
pub open spec fn step(
    r: RecognizerView,
    event: KeyEvent,
    context: GestureContext,
) -> (RecognizerView, GestureDecision) {
    let config = r.config;
    if context.session_locked || context.fullscreen_blocked {
        (RecognizerView { config, phase: GesturePhase::Idle, last_event_at: None }, GestureDecision::NotTriggered)
    } else if r.last_event_at matches Some(last) && event.at < last {
        (RecognizerView { config, phase: GesturePhase::Idle, last_event_at: None }, GestureDecision::NotTriggered)
    } else {
        let phase = expired(config, r.phase, event.at);
        let last = Some(event.at);
        if event.repeat {
            (RecognizerView { config, phase: GesturePhase::Idle, last_event_at: last }, GestureDecision::NotTriggered)
        } else {
            match (event.key, event.state) {
                (Key::NonModifier, KeyState::Pressed) => (
                    RecognizerView { config, phase: GesturePhase::Idle, last_event_at: last },
                    GestureDecision::NotTriggered,
                ),
                (Key::Control(key), KeyState::Pressed) => (
                    RecognizerView {
                        config,
                        phase: after_press(config, phase, key, event.at),
                        last_event_at: last,
                    },
                    GestureDecision::NotTriggered,
                ),
                (Key::Control(key), KeyState::Released) => {
                    let (next, decision) = after_release(config, phase, key, event.at);
                    (RecognizerView { config, phase: next, last_event_at: last }, decision)
                },
                _ => (RecognizerView { config, phase, last_event_at: last }, GestureDecision::NotTriggered),
            }
        }
    }
}

impl DoubleCtrlRecognizer {
    pub fn new(config: DoubleCtrlConfig) -> (r: Self)
        ensures
            r@.config == config,
            r@.phase == GesturePhase::Idle,
            r@.last_event_at is None,
    {
        DoubleCtrlRecognizer { config, state: GesturePhase::Idle, last_event_at: None }
    }

    /// Forgets any gesture in progress and the last event time.
    pub fn reset(&mut self)
        ensures
            final(self)@.config == old(self)@.config,
            final(self)@.phase == GesturePhase::Idle,
            final(self)@.last_event_at is None,
    {
        self.state = GesturePhase::Idle;
        self.last_event_at = None;
    }

    /// Drops an armed gesture whose gap has lapsed at `now`.
    pub fn expire(&mut self, now: u128)
        ensures
            final(self)@.config == old(self)@.config,
            final(self)@.last_event_at == old(self)@.last_event_at,
            final(self)@.phase == expired(old(self)@.config, old(self)@.phase, now),
    {
        if let GesturePhase::Armed { released_at, .. } = self.state {
            if now >= released_at && now - released_at > self.config.max_gap {
                self.state = GesturePhase::Idle;
            }
        }
    }

    /// Feeds one key event; reports `Triggered` when it completes a double tap.
    pub fn handle(&mut self, event: KeyEvent, context: GestureContext) -> (decision: GestureDecision)
        ensures
            (final(self)@, decision) == step(old(self)@, event, context),
    {
        if context.session_locked || context.fullscreen_blocked {
            self.reset();
            return GestureDecision::NotTriggered;
        }
        if let Some(last) = self.last_event_at {
            if event.at < last {
                self.reset();
                return GestureDecision::NotTriggered;
            }
        }
        self.last_event_at = Some(event.at);
        self.expire(event.at);

        if event.repeat {
            self.state = GesturePhase::Idle;
            return GestureDecision::NotTriggered;
        }
        match (event.key, event.state) {
            (Key::NonModifier, KeyState::Pressed) => {
                self.state = GesturePhase::Idle;
            },
            (Key::Control(key), KeyState::Pressed) => self.on_control_pressed(key, event.at),
            (Key::Control(key), KeyState::Released) => {
                return self.on_control_released(key, event.at);
            },
            _ => {},
        }
        GestureDecision::NotTriggered
    }

    fn on_control_pressed(&mut self, key: ControlKey, at: u128)
        ensures
            final(self)@.config == old(self)@.config,
            final(self)@.last_event_at == old(self)@.last_event_at,
            final(self)@.phase == after_press(old(self)@.config, old(self)@.phase, key, at),
    {
        self.state = match self.state {
            GesturePhase::Armed { key: first_key, released_at } if at >= released_at && at
                - released_at <= self.config.max_gap && self.keys_match(first_key, key) => {
                GesturePhase::Pressed { key, pressed_at: at, tap: TapNumber::Second, chorded: false }
            },
            GesturePhase::Pressed { key: pressed_key, pressed_at, tap, .. } => {
                GesturePhase::Pressed { key: pressed_key, pressed_at, tap, chorded: true }
            },
            _ => GesturePhase::Pressed { key, pressed_at: at, tap: TapNumber::First, chorded: false },
        };
    }

    fn on_control_released(&mut self, key: ControlKey, at: u128) -> (decision: GestureDecision)
        ensures
            final(self)@.config == old(self)@.config,
            final(self)@.last_event_at == old(self)@.last_event_at,
            (final(self)@.phase, decision) == after_release(old(self)@.config, old(self)@.phase, key, at),
    {
        let (pressed_key, pressed_at, tap, chorded) = match self.state {
            GesturePhase::Pressed { key: pressed_key, pressed_at, tap, chorded } => (
                pressed_key,
                pressed_at,
                tap,
                chorded,
            ),
            _ => {
                self.state = GesturePhase::Idle;
                return GestureDecision::NotTriggered;
            },
        };
        if !self.keys_match(pressed_key, key) || at < pressed_at || at - pressed_at
            > self.config.max_hold || chorded {
            self.state = GesturePhase::Idle;
            return GestureDecision::NotTriggered;
        }
        match tap {
            TapNumber::First => {
                self.state = GesturePhase::Armed { key, released_at: at };
                GestureDecision::NotTriggered
            },
            TapNumber::Second => {
                self.state = GesturePhase::Idle;
                GestureDecision::Triggered
            },
        }
    }

    fn keys_match(&self, left: ControlKey, right: ControlKey) -> (r: bool)
        ensures
            r == keys_match_spec(self@.config, left, right),
    {
        self.config.sides_equivalent || match (left, right) {
            (ControlKey::Left, ControlKey::Left) | (ControlKey::Right, ControlKey::Right) => true,
            _ => false,
        }
    }
}

impl Default for DoubleCtrlRecognizer {
    fn default() -> (r: Self)
        ensures
            r@.config.max_hold == 220 * NANOS_PER_MILLI,
            r@.config.max_gap == 320 * NANOS_PER_MILLI,
            r@.config.sides_equivalent,
            r@.phase == GesturePhase::Idle,
            r@.last_event_at is None,
    {
        DoubleCtrlRecognizer::new(DoubleCtrlConfig::default())
    }
}

// ---------------------------------------------------------------------------
// Laws
// ---------------------------------------------------------------------------

pub open spec fn open_context() -> GestureContext {
    GestureContext { session_locked: false, fullscreen_blocked: false }
}

pub open spec fn control_event(key: ControlKey, state: KeyState, at: u128) -> KeyEvent {
    KeyEvent { key: Key::Control(key), state, at, repeat: false }
}

/// A locked session or a blocking fullscreen window never triggers, and leaves the
/// recognizer idle with no remembered event.
pub proof fn lemma_blocked_context_never_triggers(
    r: RecognizerView,
    event: KeyEvent,
    context: GestureContext,
)
    requires
        context.session_locked || context.fullscreen_blocked,
    ensures
        step(r, event, context).1 == GestureDecision::NotTriggered,
        step(r, event, context).0.phase == GesturePhase::Idle,
        step(r, event, context).0.last_event_at is None,
{
}

/// Only the release that ends a second, unchorded press triggers; an idle or armed
/// recognizer never triggers on the next event.
pub proof fn lemma_trigger_needs_second_press(r: RecognizerView, event: KeyEvent, context: GestureContext)
    requires
        step(r, event, context).1 == GestureDecision::Triggered,
    ensures
        !context.session_locked && !context.fullscreen_blocked,
        !event.repeat,
        event.key is Control,
        event.state == KeyState::Released,
        r.phase matches GesturePhase::Pressed { tap, chorded, .. } && tap == TapNumber::Second && !chorded,
        step(r, event, context).0.phase == GesturePhase::Idle,
{
}

/// Two complete taps within the hold and gap limits, with matching keys, in an open
/// context and in time order, trigger on the second release and not before.
pub proof fn lemma_double_tap_triggers(
    config: DoubleCtrlConfig,
    last: Option<u128>,
    first: ControlKey,
    second: ControlKey,
    t0: u128,
    t1: u128,
    t2: u128,
    t3: u128,
)
    requires
        last matches Some(l) ==> l <= t0,
        t0 <= t1 <= t2 <= t3,
        t1 - t0 <= config.max_hold,
        t2 - t1 <= config.max_gap,
        t3 - t2 <= config.max_hold,
        keys_match_spec(config, first, second),
    ensures
        ({
            let r0 = RecognizerView { config, phase: GesturePhase::Idle, last_event_at: last };
            let s1 = step(r0, control_event(first, KeyState::Pressed, t0), open_context());
            let s2 = step(s1.0, control_event(first, KeyState::Released, t1), open_context());
            let s3 = step(s2.0, control_event(second, KeyState::Pressed, t2), open_context());
            let s4 = step(s3.0, control_event(second, KeyState::Released, t3), open_context());
            &&& s1.1 == GestureDecision::NotTriggered
            &&& s2.1 == GestureDecision::NotTriggered
            &&& s3.1 == GestureDecision::NotTriggered
            &&& s4.1 == GestureDecision::Triggered
            &&& s4.0.phase == GesturePhase::Idle
        }),
{
}

/// A Control key held longer than the hold limit neither arms nor triggers: its
/// release leaves the recognizer idle.
pub proof fn lemma_long_hold_never_arms(r: RecognizerView, key: ControlKey, at: u128, context: GestureContext)
    requires
        r.phase matches GesturePhase::Pressed { pressed_at, .. } && at >= pressed_at && at - pressed_at
            > r.config.max_hold,
    ensures
        step(r, control_event(key, KeyState::Released, at), context).1 == GestureDecision::NotTriggered,
        step(r, control_event(key, KeyState::Released, at), context).0.phase == GesturePhase::Idle,
{
}

/// Any other key pressed, or any automatic repeat, cancels the gesture in progress.
pub proof fn lemma_other_keys_cancel(r: RecognizerView, event: KeyEvent, context: GestureContext)
    requires
        event.repeat || (event.key == Key::NonModifier && event.state == KeyState::Pressed),
    ensures
        step(r, event, context).1 == GestureDecision::NotTriggered,
        step(r, event, context).0.phase == GesturePhase::Idle,
{
}

} // verus!
