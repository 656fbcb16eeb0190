//! Trace lines of the input smoke test, written to QEMU's debug console.

use vstd::prelude::*;

verus! {

/// The debug-console I/O port.
pub const DEBUG_PORT: u16 = 0xe9;

/// The lower-case hexadecimal digit of a nibble.
pub open spec fn hex_digit(nibble: int) -> u8 {
    if nibble < 10 { (nibble + 48) as u8 } else { (nibble - 10 + 97) as u8 }
}

/// The two hexadecimal digits of `byte`, high nibble first.
pub fn hex_digits(byte: u8) -> (digits: (u8, u8))
    ensures
        digits.0 == hex_digit(byte as int / 16),
        digits.1 == hex_digit(byte as int % 16),
{
    let table: [u8; 16] = [
        0x30, 0x31, 0x32, 0x33, 0x34, 0x35, 0x36, 0x37, 0x38, 0x39, 0x61, 0x62, 0x63, 0x64, 0x65, 0x66,
    ];
    let high = byte >> 4u8;
    let low = byte & 0x0f;
    assert(high == byte / 16 && low == byte % 16) by (bit_vector)
        requires
            high == byte >> 4u8,
            low == byte & 0x0fu8;
    (table[high as usize], table[low as usize])
}

/// One trace line: the prefix, the byte in hexadecimal, and a newline.
pub fn trace_line(prefix: u8, byte: u8) -> (line: Vec<u8>)
    ensures
        line@ == seq![prefix, hex_digit(byte as int / 16), hex_digit(byte as int % 16), 10u8],
{
    let (high, low) = hex_digits(byte);
    vec![prefix, high, low, 0x0a]
}

/// The line announcing that the input path is ready.
pub fn ready_line() -> (line: Vec<u8>)
    ensures
        line@ == seq![82u8, 10u8],
{
    vec![0x52, 0x0a]
}

/// The line reporting a dropped keyboard byte.
pub fn keyboard_overflow_line() -> (line: Vec<u8>)
    ensures
        line@ == seq![68u8, 10u8],
{
    vec![0x44, 0x0a]
}

/// Turns the first `B` make code (0x30) into a queue-overflow probe:
/// true exactly once, for the first such byte.
pub fn force_keyboard_overflow(byte: u8, triggered: &mut bool) -> (force: bool)
    ensures
        force == (byte == 0x30 && !*old(triggered)),
        *final(triggered) == (*old(triggered) || byte == 0x30),
{
    if byte != 0x30 {
        return false;
    }
    let already = *triggered;
    *triggered = true;
    !already
}

} // verus!
