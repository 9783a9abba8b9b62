//! The X11 side of the double-Control gesture: which keysyms are Control, other
//! modifiers or ordinary keys, the keyboard map built from the server's mapping, the
//! listener's state between raw key events, the search for a window by title, and
//! the preferences shared with the settings window.

use vstd::prelude::*;
use crate::hotkey::{
    step, ArrowKey, ControlKey, DoubleCtrlConfig, DoubleCtrlRecognizer, GestureContext, GestureDecision, Key,
    KeyEvent, KeyState, RecognizerView,
};
use crate::text::push_str;

verus! {

pub const CONTROL_L: u32 = 0xffe3;
pub const CONTROL_R: u32 = 0xffe4;
pub const UP_ARROW_KEYSYM: u32 = 0xff52;
pub const DOWN_ARROW_KEYSYM: u32 = 0xff54;
pub const LEFT_ARROW_KEYSYM: u32 = 0xff51;
pub const RIGHT_ARROW_KEYSYM: u32 = 0xff53;

/// Shift, Caps Lock, Shift Lock, Meta, Alt, Super, Hyper and ISO Level 3 Shift.
pub open spec fn other_modifiers() -> Seq<u32> {
    seq![0xffe1u32, 0xffe2, 0xffe5, 0xffe6, 0xffe7, 0xffe8, 0xffe9, 0xffea, 0xffeb, 0xffec, 0xffed, 0xffee, 0xfe03]
}

/// What a key with these keysyms is: left or right Control (left first), another
/// modifier, or an ordinary key.
pub open spec fn key_of_keysyms(keysyms: Seq<u32>) -> Key {
    if keysyms.contains(CONTROL_L) {
        Key::Control(ControlKey::Left)
    } else if keysyms.contains(CONTROL_R) {
        Key::Control(ControlKey::Right)
    } else if exists|i: int| 0 <= i < keysyms.len() && other_modifiers().contains(#[trigger] keysyms[i]) {
        Key::OtherModifier
    } else {
        Key::NonModifier
    }
}

fn contains_keysym(keysyms: &[u32], k: u32) -> (r: bool)
    ensures
        r == keysyms@.contains(k),
{
    let mut i: usize = 0;
    while i < keysyms.len()
        invariant
            i <= keysyms.len(),
            forall|j: int| 0 <= j < i ==> keysyms@[j] != k,
        decreases keysyms.len() - i,
    {
        if keysyms[i] == k {
            return true;
        }
        i += 1;
    }
    false
}

fn is_other_modifier(k: u32) -> (r: bool)
    ensures
        r == other_modifiers().contains(k),
{
    let list = [0xffe1u32, 0xffe2, 0xffe5, 0xffe6, 0xffe7, 0xffe8, 0xffe9, 0xffea, 0xffeb, 0xffec, 0xffed, 0xffee, 0xfe03];
    assert(list@ =~= other_modifiers());
    contains_keysym(&list, k)
}

/// Classifies a key by all of its keysyms.
pub fn classify_keysyms(keysyms: &[u32]) -> (key: Key)
    ensures
        key == key_of_keysyms(keysyms@),
{
    if contains_keysym(keysyms, CONTROL_L) {
        return Key::Control(ControlKey::Left);
    }
    if contains_keysym(keysyms, CONTROL_R) {
        return Key::Control(ControlKey::Right);
    }
    let mut i: usize = 0;
    while i < keysyms.len()
        invariant
            i <= keysyms.len(),
            forall|j: int| 0 <= j < i ==> !other_modifiers().contains(#[trigger] keysyms@[j]),
            !keysyms@.contains(CONTROL_L),
            !keysyms@.contains(CONTROL_R),
        decreases keysyms.len() - i,
    {
        if is_other_modifier(keysyms[i]) {
            assert(other_modifiers().contains(keysyms@[i as int]));
            return Key::OtherModifier;
        }
        i += 1;
    }
    Key::NonModifier
}

/// The arrow a keysym names.
pub open spec fn arrow_of(k: u32) -> Option<ArrowKey> {
    if k == UP_ARROW_KEYSYM {
        Some(ArrowKey::Up)
    } else if k == DOWN_ARROW_KEYSYM {
        Some(ArrowKey::Down)
    } else if k == LEFT_ARROW_KEYSYM {
        Some(ArrowKey::Left)
    } else if k == RIGHT_ARROW_KEYSYM {
        Some(ArrowKey::Right)
    } else {
        None
    }
}

/// The first arrow among the keysyms, in their order.
pub open spec fn first_arrow(keysyms: Seq<u32>) -> Option<ArrowKey>
    decreases keysyms.len(),
{
    if keysyms.len() == 0 {
        None
    } else if arrow_of(keysyms[0]) is Some {
        arrow_of(keysyms[0])
    } else {
        first_arrow(keysyms.drop_first())
    }
}

/// A keyboard failure, with its description.
#[derive(Debug)]
pub struct HotkeyError(pub String);

impl HotkeyError {
    pub fn message(&self) -> (text: String)
        ensures
            text@ == self.0@,
    {
        self.0.clone()
    }
}

/// The keyboard map: for each keycode from `first_keycode` on, its class and keysyms.
pub struct KeyMap {
    pub first_keycode: u8,
    pub entries: Vec<Key>,
    pub keysyms: Vec<Vec<u32>>,
}

/// The keysym groups of a mapping: consecutive runs of `per` keysyms, the last one
/// possibly shorter.
pub open spec fn keysym_groups(keysyms: Seq<u32>, per: nat) -> Seq<Seq<u32>>
    decreases keysyms.len(),
{
    if per == 0 || keysyms.len() == 0 {
        seq![]
    } else if keysyms.len() <= per {
        seq![keysyms]
    } else {
        seq![keysyms.take(per as int)] + keysym_groups(keysyms.skip(per as int), per)
    }
}

/// How many keycodes the server's range spans, where that fits in a byte.
pub fn keycode_count(min_keycode: u8, max_keycode: u8) -> (n: Option<u8>)
    ensures
        n == (if min_keycode <= max_keycode && max_keycode - min_keycode + 1 <= 255 {
            Some((max_keycode - min_keycode + 1) as u8)
        } else {
            None
        }),
{
    if max_keycode < min_keycode {
        return None;
    }
    let d = max_keycode - min_keycode;
    if d == 255 {
        None
    } else {
        Some(d + 1)
    }
}

impl KeyMap {
    pub open spec fn well_formed(&self) -> bool {
        self.entries@.len() == self.keysyms@.len()
    }

    /// The map of a keyboard mapping reply: `keysyms` holds `per_keycode` keysyms for
    /// each keycode from `first_keycode` on. An empty mapping is refused.
    pub fn from_mapping(first_keycode: u8, per_keycode: u8, keysyms: &Vec<u32>) -> (r: Result<KeyMap, HotkeyError>)
        ensures
            per_keycode == 0 ==> (r matches Err(e) && e.0@ == "X11 键盘映射为空"@),
            per_keycode > 0 ==> (r matches Ok(m) && m.well_formed() && m.first_keycode == first_keycode
                && m.keysyms@.map_values(|g: Vec<u32>| g@) == keysym_groups(keysyms@, per_keycode as nat)
                && forall|i: int| 0 <= i < m.entries@.len() ==> #[trigger] m.entries@[i] == key_of_keysyms(
                m.keysyms@[i]@,
            )),
    {
        if per_keycode == 0 {
            let mut text = String::new();
            push_str(&mut text, "X11 键盘映射为空");
            return Err(HotkeyError(text));
        }
        let per = per_keycode as usize;
        let mut groups: Vec<Vec<u32>> = Vec::new();
        let mut entries: Vec<Key> = Vec::new();
        let mut start: usize = 0;
        assert(keysyms@.skip(0) == keysyms@);
        assert(groups@.map_values(|g: Vec<u32>| g@) =~= Seq::<Seq<u32>>::empty());
        assert(Seq::<Seq<u32>>::empty() + keysym_groups(keysyms@, per as nat) =~= keysym_groups(keysyms@, per as nat));
        while start < keysyms.len()
            invariant
                per == per_keycode as usize,
                per > 0,
                start <= keysyms.len(),
                entries@.len() == groups@.len(),
                forall|i: int| 0 <= i < entries@.len() ==> #[trigger] entries@[i] == key_of_keysyms(groups@[i]@),
                keysym_groups(keysyms@, per as nat) == groups@.map_values(|g: Vec<u32>| g@) + keysym_groups(
                    keysyms@.skip(start as int),
                    per as nat,
                ),
            decreases keysyms.len() - start,
        {
            let end = if keysyms.len() - start <= per {
                keysyms.len()
            } else {
                start + per
            };
            let mut group: Vec<u32> = Vec::new();
            let mut k = start;
            while k < end
                invariant
                    start <= k <= end <= keysyms.len(),
                    group@ == keysyms@.subrange(start as int, k as int),
                decreases end - k,
            {
                group.push(keysyms[k]);
                k += 1;
                assert(group@ =~= keysyms@.subrange(start as int, k as int));
            }
            let key = classify_keysyms(group.as_slice());
            proof {
                let rest = keysyms@.skip(start as int);
                if rest.len() <= per {
                    assert(group@ =~= rest);
                    assert(keysyms@.skip(end as int) =~= Seq::<u32>::empty());
                } else {
                    assert(group@ =~= rest.take(per as int));
                    assert(rest.skip(per as int) =~= keysyms@.skip(end as int));
                }
            }
            let ghost before = groups@;
            groups.push(group);
            entries.push(key);
            proof {
                assert(groups@.map_values(|g: Vec<u32>| g@) =~= before.map_values(|g: Vec<u32>| g@).push(
                    groups@.last()@,
                ));
                assert forall|i: int| 0 <= i < entries@.len() implies #[trigger] entries@[i] == key_of_keysyms(
                    groups@[i]@,
                ) by {
                    if i < before.len() {
                        assert(groups@[i] == before[i]);
                    }
                }
            }
            start = end;
        }
        assert(keysyms@.skip(start as int) =~= Seq::<u32>::empty());
        assert(groups@.map_values(|g: Vec<u32>| g@) + Seq::<Seq<u32>>::empty() =~= groups@.map_values(
            |g: Vec<u32>| g@,
        ));
        Ok(KeyMap { first_keycode, entries, keysyms: groups })
    }

    /// The index of a raw key detail in the map, when it is a keycode at or above the
    /// first one.
    pub open spec fn index_of(&self, detail: u32) -> Option<int> {
        if detail <= 255 && detail >= self.first_keycode {
            Some(detail - self.first_keycode)
        } else {
            None
        }
    }

    /// The class of the key with this raw detail; unknown keys are ordinary keys.
    pub fn classify(&self, detail: u32) -> (key: Key)
        requires
            self.well_formed(),
        ensures
            key == match self.index_of(detail) {
                Some(i) => if i < self.entries@.len() {
                    self.entries@[i]
                } else {
                    Key::NonModifier
                },
                None => Key::NonModifier,
            },
    {
        if detail > 255 {
            return Key::NonModifier;
        }
        let keycode = detail as u8;
        if keycode < self.first_keycode {
            return Key::NonModifier;
        }
        let index = (keycode - self.first_keycode) as usize;
        if index < self.entries.len() {
            self.entries[index]
        } else {
            Key::NonModifier
        }
    }

    /// The arrow the key with this raw detail carries, if any.
    pub fn classify_arrow(&self, detail: u32) -> (arrow: Option<ArrowKey>)
        requires
            self.well_formed(),
        ensures
            arrow == match self.index_of(detail) {
                Some(i) => if i < self.keysyms@.len() {
                    first_arrow(self.keysyms@[i]@)
                } else {
                    None
                },
                None => None,
            },
    {
        if detail > 255 {
            return None;
        }
        let keycode = detail as u8;
        if keycode < self.first_keycode {
            return None;
        }
        let index = (keycode - self.first_keycode) as usize;
        if index >= self.keysyms.len() {
            return None;
        }
        let syms = &self.keysyms[index];
        let mut j: usize = 0;
        assert(syms@.skip(0) == syms@);
        while j < syms.len()
            invariant
                j <= syms@.len(),
                first_arrow(syms@) == first_arrow(syms@.skip(j as int)),
                syms@ == self.keysyms@[index as int]@,
                self.index_of(detail) == Some(index as int),
                index < self.keysyms@.len(),
            decreases syms.len() - j,
        {
            let s = syms[j];
            assert(syms@.skip(j as int)[0] == s);
            let found = if s == UP_ARROW_KEYSYM {
                Some(ArrowKey::Up)
            } else if s == DOWN_ARROW_KEYSYM {
                Some(ArrowKey::Down)
            } else if s == LEFT_ARROW_KEYSYM {
                Some(ArrowKey::Left)
            } else if s == RIGHT_ARROW_KEYSYM {
                Some(ArrowKey::Right)
            } else {
                None
            };
            if found.is_some() {
                assert(arrow_of(s) == found);
                assert(first_arrow(syms@.skip(j as int)) == arrow_of(s));
                return found;
            }
            assert(syms@.skip(j as int).drop_first() == syms@.skip(j + 1));
            j += 1;
        }
        None
    }
}

/// Calls into x11rb for the XInput2 key-repeat flag, which its source defines as bit 16.
#[verifier::external_body]
fn key_repeat_flag() -> (flag: u32)
    ensures
        flag == 0x10000,
{
    u32::from(x11rb::protocol::xinput::KeyEventFlags::KEY_REPEAT)
}

/// A raw key event as the recognizer sees it; it is a repeat where the repeat flag is
/// set.
pub fn to_key_event(keymap: &KeyMap, detail: u32, flags: u32, state: KeyState, at: u128) -> (event: KeyEvent)
    requires
        keymap.well_formed(),
    ensures
        event.state == state,
        event.at == at,
        event.repeat == (flags & 0x10000 != 0),
        event.key == match keymap.index_of(detail) {
            Some(i) => if i < keymap.entries@.len() {
                keymap.entries@[i]
            } else {
                Key::NonModifier
            },
            None => Key::NonModifier,
        },
{
    let repeat_flag = key_repeat_flag();
    KeyEvent { key: keymap.classify(detail), state, at, repeat: flags & repeat_flag != 0 }
}

// ---------------------------------------------------------------------------
// The listener
// ---------------------------------------------------------------------------

/// The listener's state between raw key events.
pub struct HotkeyListener {
    pub keymap: KeyMap,
    pub recognizer: DoubleCtrlRecognizer,
    /// Whether a full-screen window blocked the gesture at the last key press.
    pub fullscreen_blocked: bool,
}

/// What a key press gives: the arrow it carries, and whether it completed the gesture.
pub struct PressOutcome {
    pub arrow: Option<ArrowKey>,
    pub triggered: bool,
}

/// The gesture context: disabled or locked sessions count as locked.
pub open spec fn listener_context(enabled: bool, locked: bool, fullscreen_blocked: bool) -> GestureContext {
    GestureContext { session_locked: !enabled || locked, fullscreen_blocked }
}

impl HotkeyListener {
    pub fn new(keymap: KeyMap, config: DoubleCtrlConfig) -> (listener: HotkeyListener)
        ensures
            listener.keymap == keymap,
            listener.recognizer@ == (RecognizerView {
                config,
                phase: crate::hotkey::GesturePhase::Idle,
                last_event_at: None,
            }),
            !listener.fullscreen_blocked,
    {
        HotkeyListener { keymap, recognizer: DoubleCtrlRecognizer::new(config), fullscreen_blocked: false }
    }

    /// A key press at `at`. `fullscreen` says whether a full-screen window blocks the
    /// gesture now (false where that is not checked).
    pub fn on_press(&mut self, detail: u32, flags: u32, at: u128, fullscreen: bool, enabled: bool, locked: bool) -> (out:
        PressOutcome)
        requires
            old(self).keymap.well_formed(),
        ensures
            final(self).keymap == old(self).keymap,
            final(self).fullscreen_blocked == fullscreen,
            out.arrow == match old(self).keymap.index_of(detail) {
                Some(i) => if i < old(self).keymap.keysyms@.len() {
                    first_arrow(old(self).keymap.keysyms@[i]@)
                } else {
                    None
                },
                None => None,
            },
            ({
                let event = KeyEvent {
                    key: match old(self).keymap.index_of(detail) {
                        Some(i) => if i < old(self).keymap.entries@.len() {
                            old(self).keymap.entries@[i]
                        } else {
                            Key::NonModifier
                        },
                        None => Key::NonModifier,
                    },
                    state: KeyState::Pressed,
                    at,
                    repeat: flags & 0x10000 != 0,
                };
                let (next, decision) = step(old(self).recognizer@, event, listener_context(enabled, locked, fullscreen));
                final(self).recognizer@ == next && out.triggered == (decision == GestureDecision::Triggered)
            }),
    {
        self.fullscreen_blocked = fullscreen;
        let arrow = self.keymap.classify_arrow(detail);
        let event = to_key_event(&self.keymap, detail, flags, KeyState::Pressed, at);
        let context = GestureContext { session_locked: !enabled || locked, fullscreen_blocked: self.fullscreen_blocked };
        let decision = self.recognizer.handle(event, context);
        PressOutcome { arrow, triggered: decision == GestureDecision::Triggered }
    }

    /// A key release at `at`; returns whether it completed the gesture.
    pub fn on_release(&mut self, detail: u32, flags: u32, at: u128, enabled: bool, locked: bool) -> (triggered: bool)
        requires
            old(self).keymap.well_formed(),
        ensures
            final(self).keymap == old(self).keymap,
            final(self).fullscreen_blocked == old(self).fullscreen_blocked,
            ({
                let event = KeyEvent {
                    key: match old(self).keymap.index_of(detail) {
                        Some(i) => if i < old(self).keymap.entries@.len() {
                            old(self).keymap.entries@[i]
                        } else {
                            Key::NonModifier
                        },
                        None => Key::NonModifier,
                    },
                    state: KeyState::Released,
                    at,
                    repeat: flags & 0x10000 != 0,
                };
                let (next, decision) = step(
                    old(self).recognizer@,
                    event,
                    listener_context(enabled, locked, old(self).fullscreen_blocked),
                );
                final(self).recognizer@ == next && triggered == (decision == GestureDecision::Triggered)
            }),
    {
        let event = to_key_event(&self.keymap, detail, flags, KeyState::Released, at);
        let context = GestureContext { session_locked: !enabled || locked, fullscreen_blocked: self.fullscreen_blocked };
        let decision = self.recognizer.handle(event, context);
        decision == GestureDecision::Triggered
    }

    /// The keyboard mapping changed: a new map replaces the old one and the gesture
    /// starts over; where the new map could not be read, nothing changes.
    pub fn on_mapping(&mut self, updated: Option<KeyMap>)
        ensures
            match updated {
                Some(m) => final(self).keymap == m && final(self).recognizer@.phase == crate::hotkey::GesturePhase::Idle
                    && final(self).recognizer@.last_event_at is None && final(self).recognizer@.config
                    == old(self).recognizer@.config,
                None => final(self).keymap == old(self).keymap && final(self).recognizer@ == old(self).recognizer@,
            },
            final(self).fullscreen_blocked == old(self).fullscreen_blocked,
    {
        if let Some(m) = updated {
            self.keymap = m;
            self.recognizer.reset();
        }
    }
}

/// Whether the active window is full screen: there is one (not window 0) and its
/// states include the full-screen atom.
pub fn is_fullscreen_state(active_window: u32, states: &[u32], fullscreen_atom: u32) -> (r: bool)
    ensures
        r == (active_window != 0 && states@.contains(fullscreen_atom)),
{
    if active_window == 0 {
        return false;
    }
    contains_keysym(states, fullscreen_atom)
}

// ---------------------------------------------------------------------------
// Finding a window by title
// ---------------------------------------------------------------------------

/// The most windows inspected in one search.
pub const MAX_INSPECTED: usize = 512;

/// A depth-first search through the window tree, most recently found first, that
/// gives up after inspecting `MAX_INSPECTED` windows.
pub struct WindowSearch {
    pub pending: Vec<u32>,
    pub inspected: usize,
}

impl WindowSearch {
    pub fn new(candidates: Vec<u32>) -> (s: WindowSearch)
        ensures
            s.pending@ == candidates@,
            s.inspected == 0,
    {
        WindowSearch { pending: candidates, inspected: 0 }
    }

    /// The next window to inspect, or `None` when none is left or the budget is spent.
    pub fn next_window(&mut self) -> (w: Option<u32>)
        requires
            old(self).inspected <= MAX_INSPECTED,
        ensures
            final(self).inspected <= MAX_INSPECTED,
            old(self).pending@.len() == 0 ==> w is None && final(self).pending@ == old(self).pending@,
            old(self).pending@.len() > 0 ==> final(self).pending@ == old(self).pending@.drop_last() && (
            if old(self).inspected < MAX_INSPECTED {
                w == Some(old(self).pending@.last()) && final(self).inspected == old(self).inspected + 1
            } else {
                w is None
            }),
    {
        match self.pending.pop() {
            None => None,
            Some(window) => {
                if self.inspected >= MAX_INSPECTED {
                    return None;
                }
                self.inspected = self.inspected + 1;
                Some(window)
            },
        }
    }

    /// Queues the children of the window just inspected.
    pub fn add_children(&mut self, children: Vec<u32>)
        ensures
            final(self).pending@ == old(self).pending@ + children@,
            final(self).inspected == old(self).inspected,
    {
        let mut k: usize = 0;
        let ghost start = self.pending@;
        while k < children.len()
            invariant
                k <= children@.len(),
                self.pending@ == start + children@.take(k as int),
                self.inspected == old(self).inspected,
            decreases children.len() - k,
        {
            self.pending.push(children[k]);
            k += 1;
            assert(self.pending@ =~= start + children@.take(k as int));
        }
        assert(children@.take(children.len() as int) == children@);
    }
}

// ---------------------------------------------------------------------------
// Shared preferences
// ---------------------------------------------------------------------------

/// The gesture preferences, shared between the settings window and the listener
/// thread; an update takes effect without restarting the listener. The values live
/// in atomics that other threads store into, and the specifications of `AtomicBool`
/// say nothing of what a load returns, so the methods carry no contract on them.
#[derive(Clone, Debug)]
pub struct DoubleCtrlControl {
    enabled: std::sync::Arc<std::sync::atomic::AtomicBool>,
    suppress_in_fullscreen: std::sync::Arc<std::sync::atomic::AtomicBool>,
}

impl DoubleCtrlControl {
    pub fn new(enabled: bool, suppress_in_fullscreen: bool) -> DoubleCtrlControl {
        DoubleCtrlControl {
            enabled: std::sync::Arc::new(std::sync::atomic::AtomicBool::new(enabled)),
            suppress_in_fullscreen: std::sync::Arc::new(std::sync::atomic::AtomicBool::new(suppress_in_fullscreen)),
        }
    }

    /// Stores both preferences, the full-screen one first.
    pub fn update(&self, enabled: bool, suppress_in_fullscreen: bool) {
        self.suppress_in_fullscreen.store(suppress_in_fullscreen, std::sync::atomic::Ordering::Release);
        self.enabled.store(enabled, std::sync::atomic::Ordering::Release);
    }

    pub fn enabled(&self) -> bool {
        self.enabled.load(std::sync::atomic::Ordering::Acquire)
    }

    pub fn suppress_in_fullscreen(&self) -> bool {
        self.suppress_in_fullscreen.load(std::sync::atomic::Ordering::Acquire)
    }
}

} // verus!
