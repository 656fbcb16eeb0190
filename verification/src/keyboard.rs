//! PS/2 keyboard input: what each decoded key event means to the shell.
//!
//! Scancode decoding itself is done by the `pc_keyboard` crate, held in a
//! [`KeyDecoder`]; it reports the key, whether it went down, and (when
//! asked) the character it types.  This module decides what the shell sees.

use vstd::prelude::*;

use pc_keyboard::{layouts, DecodedKey, HandleControl, KeyCode, KeyEvent, KeyState, PS2Keyboard, ScancodeSet1};
use ringbuf::traits::{Consumer, Producer};
use ringbuf::StaticRb;

verus! {

/// Capacity of the scancode queue.
pub const KEYBOARD_QUEUE_SIZE: usize = 256;

/// One raw byte from the PS/2 data port.
#[derive(Clone, Copy, Debug, PartialEq, Eq, Structural)]
pub struct KeyboardScancode(u8);

impl View for KeyboardScancode {
    type V = u8;

    closed spec fn view(&self) -> u8 {
        self.0
    }
}

impl KeyboardScancode {
    pub fn new(value: u8) -> (code: KeyboardScancode)
        ensures
            code@ == value,
    {
        KeyboardScancode(value)
    }

    pub fn get(self) -> (value: u8)
        ensures
            value == self@,
    {
        self.0
    }
}

/// The keys the shell treats specially; every other key is `Other`.
#[derive(Clone, Copy, Debug, PartialEq, Eq, Structural)]
pub enum KeyKind {
    LControl,
    RControl,
    ArrowLeft,
    ArrowRight,
    ArrowUp,
    ArrowDown,
    Tab,
    C,
    L,
    OemPlus,
    OemMinus,
    Other,
}

/// What the shell sees of the keyboard.
#[derive(Clone, Copy, Debug, PartialEq, Eq, Structural)]
pub enum KeyboardEvent {
    Char(char),
    CtrlC,
    ZoomIn,
    ZoomOut,
    ArrowUp,
    ArrowDown,
    ArrowLeft,
    ArrowRight,
    CtrlL,
    Tab,
}

/// What to do with one key event.
#[derive(Clone, Copy, Debug, PartialEq, Eq, Structural)]
pub enum KeyStep {
    /// A control key changed: Ctrl is now held or released; no event.
    SetCtrl(bool),
    /// The shell receives this event.
    Emit(KeyboardEvent),
    /// The event is a candidate character: pass it to the layout decoder.
    Decode,
}

/// The meaning of a key event given whether Ctrl is held: a Ctrl key
/// updates the Ctrl state, arrows and Tab going down are events of their
/// own, Ctrl with C, L, plus or minus going down are shortcuts, and
/// everything else is left to the layout.
pub open spec fn spec_classify(code: KeyKind, down: bool, ctrl_held: bool) -> KeyStep {
    match code {
        KeyKind::LControl | KeyKind::RControl => KeyStep::SetCtrl(down),
        KeyKind::ArrowLeft if down => KeyStep::Emit(KeyboardEvent::ArrowLeft),
        KeyKind::ArrowRight if down => KeyStep::Emit(KeyboardEvent::ArrowRight),
        KeyKind::ArrowUp if down => KeyStep::Emit(KeyboardEvent::ArrowUp),
        KeyKind::ArrowDown if down => KeyStep::Emit(KeyboardEvent::ArrowDown),
        KeyKind::Tab if down => KeyStep::Emit(KeyboardEvent::Tab),
        KeyKind::C if ctrl_held && down => KeyStep::Emit(KeyboardEvent::CtrlC),
        KeyKind::L if ctrl_held && down => KeyStep::Emit(KeyboardEvent::CtrlL),
        KeyKind::OemPlus if ctrl_held && down => KeyStep::Emit(KeyboardEvent::ZoomIn),
        KeyKind::OemMinus if ctrl_held && down => KeyStep::Emit(KeyboardEvent::ZoomOut),
        _ => KeyStep::Decode,
    }
}

/// The direction an arrow key points in, as the key and as the shell event.
pub open spec fn arrow_pair(kind: KeyKind, event: KeyboardEvent) -> bool {
    ||| kind == KeyKind::ArrowUp && event == KeyboardEvent::ArrowUp
    ||| kind == KeyKind::ArrowDown && event == KeyboardEvent::ArrowDown
    ||| kind == KeyKind::ArrowLeft && event == KeyboardEvent::ArrowLeft
    ||| kind == KeyKind::ArrowRight && event == KeyboardEvent::ArrowRight
}

/// Arrow keys keep their direction: an arrow key going down is the arrow
/// event of the same direction whether or not Ctrl is held, and an arrow
/// event comes from nothing but its own arrow key going down.  A Ctrl key
/// only records whether Ctrl is held, and the Ctrl shortcuts come only
/// while Ctrl is held.
pub proof fn arrow_keys_keep_their_direction(kind: KeyKind, down: bool, ctrl_held: bool, event: KeyboardEvent)
    ensures
        arrow_pair(kind, event) && down ==> spec_classify(kind, down, ctrl_held) == KeyStep::Emit(event),
        spec_classify(kind, down, ctrl_held) == KeyStep::Emit(event) && (event == KeyboardEvent::ArrowUp
            || event == KeyboardEvent::ArrowDown || event == KeyboardEvent::ArrowLeft || event == KeyboardEvent::ArrowRight)
            ==> arrow_pair(kind, event) && down,
        (kind == KeyKind::LControl || kind == KeyKind::RControl) ==> spec_classify(kind, down, ctrl_held) == KeyStep::SetCtrl(down),
        spec_classify(kind, down, ctrl_held) == KeyStep::Emit(event) && (event == KeyboardEvent::CtrlC
            || event == KeyboardEvent::CtrlL || event == KeyboardEvent::ZoomIn || event == KeyboardEvent::ZoomOut)
            ==> ctrl_held && down,
{
}

pub fn classify(code: KeyKind, down: bool, ctrl_held: bool) -> (step: KeyStep)
    ensures
        step == spec_classify(code, down, ctrl_held),
{
    match code {
        KeyKind::LControl | KeyKind::RControl => return KeyStep::SetCtrl(down),
        KeyKind::ArrowLeft if down => return KeyStep::Emit(KeyboardEvent::ArrowLeft),
        KeyKind::ArrowRight if down => return KeyStep::Emit(KeyboardEvent::ArrowRight),
        KeyKind::ArrowUp if down => return KeyStep::Emit(KeyboardEvent::ArrowUp),
        KeyKind::ArrowDown if down => return KeyStep::Emit(KeyboardEvent::ArrowDown),
        KeyKind::Tab if down => return KeyStep::Emit(KeyboardEvent::Tab),
        _ => {},
    }
    if ctrl_held && down {
        match code {
            KeyKind::C => return KeyStep::Emit(KeyboardEvent::CtrlC),
            KeyKind::L => return KeyStep::Emit(KeyboardEvent::CtrlL),
            KeyKind::OemPlus => return KeyStep::Emit(KeyboardEvent::ZoomIn),
            KeyKind::OemMinus => return KeyStep::Emit(KeyboardEvent::ZoomOut),
            _ => {},
        }
    }
    KeyStep::Decode
}

/// The event for what the layout decoded: a typed character, or nothing.
pub fn decoded_event(decoded: Option<char>) -> (event: Option<KeyboardEvent>)
    ensures
        event == (match decoded {
            Some(c) => Some(KeyboardEvent::Char(c)),
            None => None,
        }),
{
    match decoded {
        Some(c) => Some(KeyboardEvent::Char(c)),
        None => None,
    }
}

} // verus!

verus! {

/// Scancodes waiting for the shell, oldest first: a `ringbuf` static ring
/// buffer of `KEYBOARD_QUEUE_SIZE` slots.
#[verifier::external_body]
pub struct ScancodeQueue {
    ring: StaticRb<KeyboardScancode, KEYBOARD_QUEUE_SIZE>,
}

/// The scancodes a queue holds, oldest first.
pub uninterp spec fn queued_scancodes(queue: ScancodeQueue) -> Seq<u8>;

impl ScancodeQueue {
    /// Calls `StaticRb::default`, which makes an empty ring.
    #[verifier::external_body]
    fn empty_ring() -> (queue: ScancodeQueue)
        ensures
            queued_scancodes(queue) == Seq::<u8>::empty(),
    {
        ScancodeQueue { ring: StaticRb::default() }
    }

    /// Calls `Producer::try_push`: when fewer than `KEYBOARD_QUEUE_SIZE`
    /// items are queued the scancode goes behind them; a full ring refuses
    /// it and is left as it was.
    #[verifier::external_body]
    fn try_push(&mut self, code: KeyboardScancode) -> (pushed: bool)
        ensures
            pushed == (queued_scancodes(*old(self)).len() < KEYBOARD_QUEUE_SIZE),
            pushed ==> queued_scancodes(*final(self)) == queued_scancodes(*old(self)).push(code@),
            !pushed ==> queued_scancodes(*final(self)) == queued_scancodes(*old(self)),
    {
        self.ring.try_push(code).is_ok()
    }

    /// Calls `Consumer::try_pop`: the oldest scancode, taken out of the
    /// ring; nothing from an empty ring.
    #[verifier::external_body]
    fn try_pop(&mut self) -> (code: Option<KeyboardScancode>)
        ensures
            queued_scancodes(*old(self)).len() == 0 ==> code.is_none() && queued_scancodes(*final(self)) == queued_scancodes(*old(self)),
            queued_scancodes(*old(self)).len() > 0 ==> code.is_some() && code.unwrap()@ == queued_scancodes(*old(self))[0]
                && queued_scancodes(*final(self)) == queued_scancodes(*old(self)).drop_first(),
    {
        self.ring.try_pop()
    }

    /// An empty queue.
    pub fn new() -> (queue: ScancodeQueue)
        ensures
            queued_scancodes(queue) == Seq::<u8>::empty(),
    {
        Self::empty_ring()
    }
}

/// Queues a scancode from the keyboard interrupt.  A full queue refuses it
/// (the caller counts the drop); the result says whether it was taken.
pub fn push_keyboard_scancode(queue: &mut ScancodeQueue, code: KeyboardScancode) -> (accepted: bool)
    ensures
        accepted == (queued_scancodes(*old(queue)).len() < KEYBOARD_QUEUE_SIZE),
        accepted ==> queued_scancodes(*final(queue)) == queued_scancodes(*old(queue)).push(code@),
        !accepted ==> queued_scancodes(*final(queue)) == queued_scancodes(*old(queue)),
{
    queue.try_push(code)
}

/// Takes the oldest queued scancode, if any.
pub fn pop_keyboard_scancode(queue: &mut ScancodeQueue) -> (code: Option<KeyboardScancode>)
    ensures
        queued_scancodes(*old(queue)).len() == 0 ==> code.is_none() && queued_scancodes(*final(queue)) == queued_scancodes(*old(queue)),
        queued_scancodes(*old(queue)).len() > 0 ==> code.is_some() && code.unwrap()@ == queued_scancodes(*old(queue))[0]
            && queued_scancodes(*final(queue)) == queued_scancodes(*old(queue)).drop_first(),
{
    queue.try_pop()
}

/// The scancode decoder: a `pc_keyboard` PS/2 keyboard with scancode set 1
/// and the US 104-key layout, and the key event it last reported.
#[verifier::external_body]
pub struct KeyDecoder {
    inner: PS2Keyboard<layouts::Us104Key, ScancodeSet1>,
    last: Option<KeyEvent>,
}

#[verifier::external_type_specification]
pub struct ExKeyCode(KeyCode);

/// What a decoder has been given since it was made, oldest first: a byte
/// fed to it, or (`None`) a request to decode the key event it last
/// reported.
pub uninterp spec fn decoder_inputs(decoder: KeyDecoder) -> Seq<Option<u8>>;

/// What `PS2Keyboard::add_byte` reports for the last byte of `inputs`, on
/// a decoder given `inputs`: the key code and whether the key went down,
/// when the byte completes a key event.
pub uninterp spec fn key_after(inputs: Seq<Option<u8>>) -> Option<(KeyCode, bool)>;

/// What `PS2Keyboard::process_keyevent` decodes the last reported key event
/// to, on a decoder given `inputs` (the last one the decode request): the
/// Unicode character, if any.
pub uninterp spec fn char_after(inputs: Seq<Option<u8>>) -> Option<char>;

/// The key a key code stands for, as far as the shell tells keys apart.
pub open spec fn spec_key_kind(code: KeyCode) -> KeyKind {
    match code {
        KeyCode::LControl => KeyKind::LControl,
        KeyCode::RControl => KeyKind::RControl,
        KeyCode::ArrowLeft => KeyKind::ArrowLeft,
        KeyCode::ArrowRight => KeyKind::ArrowRight,
        KeyCode::ArrowUp => KeyKind::ArrowUp,
        KeyCode::ArrowDown => KeyKind::ArrowDown,
        KeyCode::Tab => KeyKind::Tab,
        KeyCode::C => KeyKind::C,
        KeyCode::L => KeyKind::L,
        KeyCode::OemPlus => KeyKind::OemPlus,
        KeyCode::OemMinus => KeyKind::OemMinus,
        _ => KeyKind::Other,
    }
}

/// Each key the shell tells apart comes from exactly the key code of the
/// same name: a code is seen as an arrow, Tab, Ctrl, C, L, plus or minus
/// key exactly when it is that key, and every other code is `Other`.
pub proof fn key_codes_keep_their_names(code: KeyCode)
    ensures
        (spec_key_kind(code) == KeyKind::ArrowUp) == (code == KeyCode::ArrowUp),
        (spec_key_kind(code) == KeyKind::ArrowDown) == (code == KeyCode::ArrowDown),
        (spec_key_kind(code) == KeyKind::ArrowLeft) == (code == KeyCode::ArrowLeft),
        (spec_key_kind(code) == KeyKind::ArrowRight) == (code == KeyCode::ArrowRight),
        (spec_key_kind(code) == KeyKind::Tab) == (code == KeyCode::Tab),
        (spec_key_kind(code) == KeyKind::LControl) == (code == KeyCode::LControl),
        (spec_key_kind(code) == KeyKind::RControl) == (code == KeyCode::RControl),
        (spec_key_kind(code) == KeyKind::C) == (code == KeyCode::C),
        (spec_key_kind(code) == KeyKind::L) == (code == KeyCode::L),
        (spec_key_kind(code) == KeyKind::OemPlus) == (code == KeyCode::OemPlus),
        (spec_key_kind(code) == KeyKind::OemMinus) == (code == KeyCode::OemMinus),
{
}

pub fn key_kind(code: KeyCode) -> (kind: KeyKind)
    ensures
        kind == spec_key_kind(code),
{
    match code {
        KeyCode::LControl => KeyKind::LControl,
        KeyCode::RControl => KeyKind::RControl,
        KeyCode::ArrowLeft => KeyKind::ArrowLeft,
        KeyCode::ArrowRight => KeyKind::ArrowRight,
        KeyCode::ArrowUp => KeyKind::ArrowUp,
        KeyCode::ArrowDown => KeyKind::ArrowDown,
        KeyCode::Tab => KeyKind::Tab,
        KeyCode::C => KeyKind::C,
        KeyCode::L => KeyKind::L,
        KeyCode::OemPlus => KeyKind::OemPlus,
        KeyCode::OemMinus => KeyKind::OemMinus,
        _ => KeyKind::Other,
    }
}

/// A reported key as the shell sees it.
pub open spec fn key_seen(key: Option<(KeyCode, bool)>) -> Option<(KeyKind, bool)> {
    match key {
        Some((code, down)) => Some((spec_key_kind(code), down)),
        None => None,
    }
}

impl KeyDecoder {
    /// Calls `PS2Keyboard::new` with scancode set 1, the US 104-key layout
    /// and Ctrl combinations left undecoded: a decoder given nothing yet.
    #[verifier::external_body]
    fn fresh() -> (decoder: KeyDecoder)
        ensures
            decoder_inputs(decoder) == Seq::<Option<u8>>::empty(),
    {
        KeyDecoder {
            inner: PS2Keyboard::new(ScancodeSet1::new(), layouts::Us104Key, HandleControl::Ignore),
            last: None,
        }
    }

    /// A decoder that has been given nothing.
    pub fn new() -> (decoder: KeyDecoder)
        ensures
            decoder_inputs(decoder) == Seq::<Option<u8>>::empty(),
    {
        Self::fresh()
    }

    /// Calls `PS2Keyboard::add_byte`: feeds one scancode byte to the
    /// decoder and, when it completes a key event, keeps that event and
    /// gives its key code and whether the key went down.  A byte the
    /// decoder rejects gives nothing.  The decoder's state is a function of
    /// what it was given, so the result is too.
    #[verifier::external_body]
    fn next_key(&mut self, byte: u8) -> (key: Option<(KeyCode, bool)>)
        ensures
            decoder_inputs(*final(self)) == decoder_inputs(*old(self)).push(Some(byte)),
            key == key_after(decoder_inputs(*final(self))),
    {
        self.last = self.inner.add_byte(byte).ok().flatten();
        match &self.last {
            Some(event) => Some((event.code, event.state == KeyState::Down)),
            None => None,
        }
    }

    /// Calls `PS2Keyboard::process_keyevent` on the event last reported by
    /// `next_key`, and gives the Unicode character it decodes to, if any.
    /// The decoder's modifier state is a function of what it was given, so
    /// the result is too.
    #[verifier::external_body]
    fn decode_key(&mut self) -> (c: Option<char>)
        ensures
            decoder_inputs(*final(self)) == decoder_inputs(*old(self)).push(None),
            c == char_after(decoder_inputs(*final(self))),
    {
        let decoded = match self.last.take() {
            Some(event) => self.inner.process_keyevent(event),
            None => None,
        };
        match decoded {
            Some(DecodedKey::Unicode(c)) => Some(c),
            Some(DecodedKey::RawKey(_)) | None => None,
        }
    }
}

/// What one decoded key (`None` when the byte completed no key event)
/// gives the shell, with Ctrl held as `ctrl_held`: the event, and whether
/// Ctrl is held afterwards.  `decoded` is what the layout made of the key;
/// it counts only when the key is left to the layout.
pub open spec fn key_outcome(key: Option<(KeyKind, bool)>, ctrl_held: bool, decoded: Option<char>) -> (
    Option<KeyboardEvent>,
    bool,
) {
    match key {
        None => (None, ctrl_held),
        Some((kind, down)) => match spec_classify(kind, down, ctrl_held) {
            KeyStep::SetCtrl(held) => (None, held),
            KeyStep::Emit(event) => (Some(event), ctrl_held),
            KeyStep::Decode => (
                match decoded {
                    Some(c) => Some(KeyboardEvent::Char(c)),
                    None => None,
                },
                ctrl_held,
            ),
        },
    }
}

/// Whether a key is left to the layout to decode.
pub open spec fn left_to_layout(key: Option<(KeyKind, bool)>, ctrl_held: bool) -> bool {
    match key {
        Some((kind, down)) => spec_classify(kind, down, ctrl_held) == KeyStep::Decode,
        None => false,
    }
}

/// Takes the oldest queued scancode, if any, feeds it to `decoder`, and
/// gives the keyboard event it completes.  A Ctrl key going down or up
/// only updates `ctrl_held`; arrows, Tab and the Ctrl shortcuts are
/// events of their own; any other key is decoded by the layout and gives
/// the character it decodes to, if one.
pub fn poll(queue: &mut ScancodeQueue, decoder: &mut KeyDecoder, ctrl_held: &mut bool) -> (event: Option<KeyboardEvent>)
    ensures
        queued_scancodes(*old(queue)).len() == 0 ==> {
            &&& event.is_none()
            &&& queued_scancodes(*final(queue)) == queued_scancodes(*old(queue))
            &&& *final(ctrl_held) == *old(ctrl_held)
            &&& decoder_inputs(*final(decoder)) == decoder_inputs(*old(decoder))
        },
        queued_scancodes(*old(queue)).len() > 0 ==> {
            let fed = decoder_inputs(*old(decoder)).push(Some(queued_scancodes(*old(queue))[0]));
            let key = key_seen(key_after(fed));
            &&& queued_scancodes(*final(queue)) == queued_scancodes(*old(queue)).drop_first()
            &&& (event, *final(ctrl_held)) == key_outcome(key, *old(ctrl_held), char_after(fed.push(None)))
            &&& decoder_inputs(*final(decoder)) == if left_to_layout(key, *old(ctrl_held)) {
                fed.push(None)
            } else {
                fed
            }
        },
{
    let code = match pop_keyboard_scancode(queue) {
        Some(code) => code,
        None => return None,
    };
    let key = match decoder.next_key(code.get()) {
        Some((key_code, down)) => Some((key_kind(key_code), down)),
        None => None,
    };
    match key {
        None => None,
        Some((kind, down)) => match classify(kind, down, *ctrl_held) {
            KeyStep::SetCtrl(held) => {
                *ctrl_held = held;
                None
            },
            KeyStep::Emit(event) => Some(event),
            KeyStep::Decode => decoded_event(decoder.decode_key()),
        },
    }
}

} // verus!
