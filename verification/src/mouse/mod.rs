//! PS/2 mouse packet decoding.
//!
//! The interrupt handler queues raw bytes; [`poll`] assembles them into
//! three-byte packets and turns each complete packet into a movement event.

use vstd::prelude::*;

use crate::platform::ring_buffer::RingBuffer;

pub mod cursor;

verus! {

/// Capacity of the mouse byte queue.
pub const MOUSE_QUEUE_SIZE: usize = 256;

/// A signed movement along one axis, in mouse counts.
#[derive(Clone, Copy, Debug, PartialEq, Eq, Structural)]
pub struct MouseDelta(i16);

impl View for MouseDelta {
    type V = i16;

    closed spec fn view(&self) -> i16 {
        self.0
    }
}

impl MouseDelta {
    pub fn new(value: i16) -> (delta: MouseDelta)
        ensures
            delta@ == value,
    {
        MouseDelta(value)
    }

    pub fn get(self) -> (value: i16)
        ensures
            value == self@,
    {
        self.0
    }
}

/// One decoded packet: movement (with +y pointing down the screen) and buttons.
#[derive(Clone, Copy, Debug, PartialEq, Eq, Structural)]
pub struct MouseEvent {
    pub dx: MouseDelta,
    pub dy: MouseDelta,
    pub left: bool,
    pub right: bool,
    pub middle: bool,
}

/// The bytes of the packet being assembled.
pub struct PacketState {
    bytes: [u8; 3],
    index: usize,
}

/// A sign bit of the packet header, as the offset it applies to a movement byte.
pub open spec fn sign_offset(flags: u8, bit: u8) -> int {
    if flags & bit != 0 { -256 } else { 0 }
}

/// The event a complete packet describes; packets whose overflow bits are
/// set describe none.
pub open spec fn decode_packet(bytes: Seq<u8>) -> Option<(int, int, bool, bool, bool)> {
    let flags = bytes[0];
    if flags & 0xc0u8 != 0 {
        None
    } else {
        Some((
            bytes[1] + sign_offset(flags, 0x10u8),
            -(bytes[2] + sign_offset(flags, 0x20u8)),
            flags & 0x01u8 != 0,
            flags & 0x02u8 != 0,
            flags & 0x04u8 != 0,
        ))
    }
}

pub open spec fn event_matches(event: MouseEvent, decoded: (int, int, bool, bool, bool)) -> bool {
    &&& event.dx@ == decoded.0
    &&& event.dy@ == decoded.1
    &&& event.left == decoded.2
    &&& event.right == decoded.3
    &&& event.middle == decoded.4
}

/// Whether a byte arriving when `received` bytes of the packet are in is
/// dropped: a first byte must have bit 3 set.
pub open spec fn out_of_sync(received: int, byte: u8) -> bool {
    received == 0 && byte & 0x08u8 == 0
}

/// How many packet bytes are in after `byte` arrives.
pub open spec fn next_received(received: int, byte: u8) -> int {
    if out_of_sync(received, byte) {
        0
    } else if received < 2 {
        received + 1
    } else {
        0
    }
}

/// The packet bytes after `byte` arrives.
pub open spec fn next_packet(received: int, packet: Seq<u8>, byte: u8) -> Seq<u8> {
    if out_of_sync(received, byte) { packet } else { packet.update(received, byte) }
}

/// What `byte` completes, if anything: the decoded third byte of a packet.
pub open spec fn fed_event(received: int, packet: Seq<u8>, byte: u8) -> Option<(int, int, bool, bool, bool)> {
    if out_of_sync(received, byte) || received < 2 {
        None
    } else {
        decode_packet(packet.update(received, byte))
    }
}

pub open spec fn event_is(event: Option<MouseEvent>, decoded: Option<(int, int, bool, bool, bool)>) -> bool {
    match decoded {
        None => event.is_none(),
        Some(d) => event.is_some() && event_matches(event.unwrap(), d),
    }
}

/// A packet's movement is its two movement bytes read as nine-bit two's
/// complement numbers: the horizontal movement is byte 1, less 256 exactly
/// when bit 4 of the header is set, whatever its other bits; the vertical
/// movement is byte 2, less 256 exactly when bit 5 is set, negated so that
/// it points down the screen.  The buttons are bits 0 to 2, and a packet
/// with an overflow bit (6 or 7) moves nothing.
pub proof fn packets_move_by_their_signed_bytes(flags: u8, b1: u8, b2: u8)
    ensures
        ({
            let x_negative = (flags as int / 16) % 2 == 1;
            let y_negative = (flags as int / 32) % 2 == 1;
            let overflow = flags as int >= 64;
            &&& overflow ==> decode_packet(seq![flags, b1, b2]) is None
            &&& !overflow ==> decode_packet(seq![flags, b1, b2]) == Some((
                b1 - (if x_negative { 256int } else { 0int }),
                (if y_negative { 256int } else { 0int }) - b2,
                flags as int % 2 == 1,
                (flags as int / 2) % 2 == 1,
                (flags as int / 4) % 2 == 1,
            ))
        }),
{
    assert((flags & 0x10u8 != 0) == ((flags as int / 16) % 2 == 1)) by (bit_vector);
    assert((flags & 0x20u8 != 0) == ((flags as int / 32) % 2 == 1)) by (bit_vector);
    assert((flags & 0xc0u8 != 0) == (flags as int >= 64)) by (bit_vector);
    assert((flags & 0x01u8 != 0) == (flags as int % 2 == 1)) by (bit_vector);
    assert((flags & 0x02u8 != 0) == ((flags as int / 2) % 2 == 1)) by (bit_vector);
    assert((flags & 0x04u8 != 0) == ((flags as int / 4) % 2 == 1)) by (bit_vector);
}

/// Three bytes fed from the start of a packet, the first with bit 3 set,
/// make exactly one event: the packet they form, decoded; the first two
/// make none, and the state is back at the start of a packet.
pub proof fn a_synchronized_packet_yields_one_event(packet: Seq<u8>, b0: u8, b1: u8, b2: u8)
    requires
        packet.len() == 3,
        b0 & 0x08u8 != 0,
    ensures
        ({
            let p1 = next_packet(0, packet, b0);
            let p2 = next_packet(1, p1, b1);
            &&& next_received(0, b0) == 1
            &&& fed_event(0, packet, b0).is_none()
            &&& next_received(1, b1) == 2
            &&& fed_event(1, p1, b1).is_none()
            &&& next_received(2, b2) == 0
            &&& fed_event(2, p2, b2) == decode_packet(seq![b0, b1, b2])
        }),
{
    let p1 = next_packet(0, packet, b0);
    let p2 = next_packet(1, p1, b1);
    assert(p2.update(2, b2) =~= seq![b0, b1, b2]);
}

impl PacketState {
    #[verifier::type_invariant]
    spec fn inv(self) -> bool {
        self.index < 3
    }

    /// How many bytes of the current packet have arrived.
    pub closed spec fn received(&self) -> int {
        self.index as int
    }

    /// The bytes of the current packet, including the ones not yet received.
    pub closed spec fn packet(&self) -> Seq<u8> {
        self.bytes@
    }

    /// A state waiting for the first byte of a packet.
    pub fn new() -> (state: PacketState)
        ensures
            state.received() == 0,
            state.packet() == seq![0u8, 0u8, 0u8],
    {
        let state = PacketState { bytes: [0u8; 3], index: 0 };
        assert(state.packet() =~= seq![0u8, 0u8, 0u8]);
        state
    }

    /// Takes one byte of the stream.  A first byte without its always-set bit
    /// 3 is out of sync and dropped; the third byte completes the packet.
    pub fn feed(&mut self, byte: u8) -> (event: Option<MouseEvent>)
        ensures
            final(self).received() == next_received(old(self).received(), byte),
            final(self).packet() == next_packet(old(self).received(), old(self).packet(), byte),
            event_is(event, fed_event(old(self).received(), old(self).packet(), byte)),
    {
        proof { use_type_invariant(&*self); }
        if self.index == 0 && byte & 0b0000_1000 == 0 {
            return None;
        }
        let mut bytes = self.bytes;
        bytes[self.index] = byte;
        let index = self.index + 1;
        if index < 3 {
            *self = PacketState { bytes, index };
            return None;
        }
        *self = PacketState { bytes, index: 0 };
        let flags = bytes[0];
        if flags & 0b1100_0000 != 0 {
            return None;
        }
        let mut dx = bytes[1] as i16;
        let mut dy = bytes[2] as i16;
        if flags & 0b0001_0000 != 0 {
            dx -= 256;
        }
        if flags & 0b0010_0000 != 0 {
            dy -= 256;
        }
        dy = -dy;
        Some(MouseEvent {
            dx: MouseDelta::new(dx),
            dy: MouseDelta::new(dy),
            left: flags & 0b0000_0001 != 0,
            right: flags & 0b0000_0010 != 0,
            middle: flags & 0b0000_0100 != 0,
        })
    }
}

/// Takes the oldest queued mouse byte, if any, and feeds it to the packet state.
pub fn poll(queue: &mut RingBuffer<u8, MOUSE_QUEUE_SIZE>, state: &mut PacketState) -> (event: Option<MouseEvent>)
    ensures
        old(queue)@.len() == 0 ==> event.is_none() && final(queue)@ == old(queue)@
            && final(state).received() == old(state).received() && final(state).packet() == old(state).packet(),
        old(queue)@.len() > 0 ==> {
            let byte = old(queue)@[0];
            &&& final(queue)@ == old(queue)@.drop_first()
            &&& final(state).received() == next_received(old(state).received(), byte)
            &&& final(state).packet() == next_packet(old(state).received(), old(state).packet(), byte)
            &&& event_is(event, fed_event(old(state).received(), old(state).packet(), byte))
        },
        final(queue).spec_dropped() == old(queue).spec_dropped(),
{
    match queue.pop() {
        None => None,
        Some(byte) => state.feed(byte),
    }
}

} // verus!

verus! {

pub const PS2_READY_POLL_LIMIT: usize = 100_000;
pub const CMD_ENABLE_AUX: u8 = 0xa8;
pub const CMD_READ_CONFIG: u8 = 0x20;
pub const CMD_WRITE_CONFIG: u8 = 0x60;
pub const CMD_WRITE_TO_AUX: u8 = 0xd4;
pub const MOUSE_ENABLE_PACKETS: u8 = 0xf4;
pub const MOUSE_ACK: u8 = 0xfa;

/// Why talking to the PS/2 controller failed.
#[derive(Clone, Copy, Debug, PartialEq, Eq, Structural)]
pub enum Ps2Error {
    Timeout,
    UnexpectedResponse(u8),
}

/// The controller configuration byte with the auxiliary-port interrupt
/// (bit 1) enabled and the auxiliary clock (bit 5, active low) running.
pub fn aux_enabled_config(config: u8) -> (updated: u8)
    ensures
        updated == (config | 0b10u8) & !0b0010_0000u8,
{
    let mut updated = config;
    updated |= 0b0000_0010;
    updated &= !0b0010_0000;
    updated
}

/// Checks the mouse's answer to the enable-packets command.
pub fn check_ack(response: u8) -> (result: Result<(), Ps2Error>)
    ensures
        response == MOUSE_ACK ==> result is Ok,
        response != MOUSE_ACK ==> result == Err::<(), Ps2Error>(Ps2Error::UnexpectedResponse(response)),
{
    if response != MOUSE_ACK {
        return Err(Ps2Error::UnexpectedResponse(response));
    }
    Ok(())
}

} // verus!
