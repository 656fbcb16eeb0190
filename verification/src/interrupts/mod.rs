//! Interrupt-controller policy: vector numbers, acknowledgements, and the
//! port writes that program the legacy 8259 PIC and the interval timer.
//! The port I/O itself is performed by the platform layer.

use vstd::prelude::*;

use crate::timer::PIT_DIVISOR;

verus! {

pub const MASTER_OFFSET: u8 = 32;
pub const SLAVE_OFFSET: u8 = 40;
pub const MASTER_COMMAND: u16 = 0x20;
pub const MASTER_DATA: u16 = 0x21;
pub const SLAVE_COMMAND: u16 = 0xa0;
pub const SLAVE_DATA: u16 = 0xa1;
pub const EOI: u8 = 0x20;

pub const TIMER_VECTOR: u8 = 32;
pub const KEYBOARD_VECTOR: u8 = 33;
pub const MOUSE_VECTOR: u8 = 44;

/// PS/2 controller data port.
pub const PS2_DATA: u16 = 0x60;
/// PS/2 controller command port (also its read-only status port).
pub const PS2_COMMAND: u16 = 0x64;
pub const PS2_STATUS: u16 = 0x64;

pub const PIT_COMMAND_PORT: u16 = 0x43;
pub const PIT_CHANNEL_0_PORT: u16 = 0x40;
/// Channel 0, low then high byte, square-wave mode.
pub const PIT_CHANNEL_0_MODE_3: u8 = 0x36;

/// The hardware interrupt lines the kernel handles.
#[derive(Clone, Copy, Debug, PartialEq, Eq, Structural)]
pub enum Irq {
    Timer,
    Keyboard,
    Mouse,
}

/// The CPU vector an interrupt line is remapped to.
pub open spec fn spec_vector_for(irq: Irq) -> u8 {
    match irq {
        Irq::Timer => TIMER_VECTOR,
        Irq::Keyboard => KEYBOARD_VECTOR,
        Irq::Mouse => MOUSE_VECTOR,
    }
}

pub fn vector_for(irq: Irq) -> (vector: u8)
    ensures
        vector == spec_vector_for(irq),
{
    match irq {
        Irq::Timer => MASTER_OFFSET,
        Irq::Keyboard => MASTER_OFFSET + 1,
        Irq::Mouse => SLAVE_OFFSET + 4,
    }
}

/// The command ports that must receive an end-of-interrupt, in order: a
/// line of the slave controller is acknowledged on both controllers.
pub fn acknowledge_ports(irq: Irq) -> (ports: Vec<u16>)
    ensures
        irq != Irq::Mouse ==> ports@ == seq![MASTER_COMMAND],
        irq == Irq::Mouse ==> ports@ == seq![SLAVE_COMMAND, MASTER_COMMAND],
{
    match irq {
        Irq::Timer | Irq::Keyboard => vec![MASTER_COMMAND],
        Irq::Mouse => vec![SLAVE_COMMAND, MASTER_COMMAND],
    }
}

/// The interrupt mask of the master controller: timer and keyboard are
/// unmasked, and the cascade line too when the mouse is used.
pub fn master_irq_mask(mouse: bool) -> (mask: u8)
    ensures
        mask == (if mouse { 0b1111_1000u8 } else { 0b1111_1100u8 }),
{
    if mouse { 0b1111_1000 } else { 0b1111_1100 }
}

/// The interrupt mask of the slave controller: only the mouse line, when used.
pub fn slave_irq_mask(mouse: bool) -> (mask: u8)
    ensures
        mask == (if mouse { 0b1110_1111u8 } else { 0b1111_1111u8 }),
{
    if mouse { 0b1110_1111 } else { 0b1111_1111 }
}

/// The (value, port) writes that remap both controllers above the CPU
/// exception vectors, wire the cascade, select 8086 mode and set the masks.
pub fn pic_initialization(mouse: bool) -> (writes: Vec<(u8, u16)>)
    ensures
        writes@ == seq![
            (0x11u8, MASTER_COMMAND),
            (0x11u8, SLAVE_COMMAND),
            (MASTER_OFFSET, MASTER_DATA),
            (SLAVE_OFFSET, SLAVE_DATA),
            (0x04u8, MASTER_DATA),
            (0x02u8, SLAVE_DATA),
            (0x01u8, MASTER_DATA),
            (0x01u8, SLAVE_DATA),
            (if mouse { 0b1111_1000u8 } else { 0b1111_1100u8 }, MASTER_DATA),
            (if mouse { 0b1110_1111u8 } else { 0b1111_1111u8 }, SLAVE_DATA),
        ],
{
    let icw1_init: u8 = 0x10;
    let icw1_icw4: u8 = 0x01;
    let icw4_8086: u8 = 0x01;
    let init = icw1_init | icw1_icw4;
    assert(init == 0x11u8) by (bit_vector)
        requires
            init == 0x10u8 | 0x01u8;
    let writes = vec![
        (init, MASTER_COMMAND),
        (init, SLAVE_COMMAND),
        (MASTER_OFFSET, MASTER_DATA),
        (SLAVE_OFFSET, SLAVE_DATA),
        (0x04u8, MASTER_DATA),
        (0x02u8, SLAVE_DATA),
        (icw4_8086, MASTER_DATA),
        (icw4_8086, SLAVE_DATA),
        (master_irq_mask(mouse), MASTER_DATA),
        (slave_irq_mask(mouse), SLAVE_DATA),
    ];
    assert(writes@ =~= seq![
        (0x11u8, MASTER_COMMAND),
        (0x11u8, SLAVE_COMMAND),
        (MASTER_OFFSET, MASTER_DATA),
        (SLAVE_OFFSET, SLAVE_DATA),
        (0x04u8, MASTER_DATA),
        (0x02u8, SLAVE_DATA),
        (0x01u8, MASTER_DATA),
        (0x01u8, SLAVE_DATA),
        (if mouse { 0b1111_1000u8 } else { 0b1111_1100u8 }, MASTER_DATA),
        (if mouse { 0b1110_1111u8 } else { 0b1111_1111u8 }, SLAVE_DATA),
    ]);
    writes
}

/// The (value, port) writes that program timer channel 0 with the kernel's
/// divisor: the mode, then the divisor's low and high bytes.
pub fn pit_initialization() -> (writes: Vec<(u8, u16)>)
    ensures
        writes@ == seq![
            (PIT_CHANNEL_0_MODE_3, PIT_COMMAND_PORT),
            ((PIT_DIVISOR % 256) as u8, PIT_CHANNEL_0_PORT),
            ((PIT_DIVISOR / 256) as u8, PIT_CHANNEL_0_PORT),
        ],
{
    let divisor = PIT_DIVISOR as u16;
    let low = (divisor & 0xff) as u8;
    let high = (divisor >> 8u16) as u8;
    assert(low == 169u8 && high == 4u8) by (bit_vector)
        requires
            divisor == 1193u16,
            low == (divisor & 0xffu16) as u8,
            high == (divisor >> 8u16) as u8;
    let writes = vec![(PIT_CHANNEL_0_MODE_3, PIT_COMMAND_PORT), (low, PIT_CHANNEL_0_PORT), (high, PIT_CHANNEL_0_PORT)];
    assert(writes@ =~= seq![
        (PIT_CHANNEL_0_MODE_3, PIT_COMMAND_PORT),
        ((PIT_DIVISOR % 256) as u8, PIT_CHANNEL_0_PORT),
        ((PIT_DIVISOR / 256) as u8, PIT_CHANNEL_0_PORT),
    ]);
    writes
}

/// Whether the PS/2 status byte says the controller can take a byte (its
/// input buffer, bit 1, is empty).
pub fn ps2_ready_for_write(status: u8) -> (ready: bool)
    ensures
        ready == (status & 0b10u8 == 0),
{
    status & 0b10 == 0
}

/// Whether the PS/2 status byte says a byte is waiting (output buffer, bit 0, full).
pub fn ps2_has_output(status: u8) -> (waiting: bool)
    ensures
        waiting == (status & 0b01u8 != 0),
{
    status & 0b01 != 0
}

} // verus!
