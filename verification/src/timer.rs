//! Conversions between timer ticks, milliseconds and readable uptimes.
//!
//! The programmable interval timer runs at `PIT_FREQUENCY` Hz and raises one
//! tick every `PIT_DIVISOR` of its cycles.

use vstd::prelude::*;

use crate::text::{decimal, push_decimal, push_text, string_of};

verus! {

/// Input frequency of the programmable interval timer, in Hz.
pub const PIT_FREQUENCY: u64 = 1_193_182;

/// Target tick rate, in Hz.
pub const TIMER_FREQUENCY: u64 = 1000;

/// Timer cycles per tick: `PIT_FREQUENCY / TIMER_FREQUENCY`.
pub const PIT_DIVISOR: u64 = 1193;

pub open spec fn saturate(x: int) -> u64 {
    if x > u64::MAX { u64::MAX } else { x as u64 }
}

/// Milliseconds elapsed after `ticks` ticks, each product saturated.
pub open spec fn spec_uptime_ms(ticks: u64) -> u64 {
    (saturate(saturate(ticks * PIT_DIVISOR) * 1000) / PIT_FREQUENCY) as u64
}

/// The number of ticks that covers `milliseconds`, rounded up (saturated).
pub open spec fn spec_ticks_for_ms(milliseconds: u64) -> u64 {
    if milliseconds == 0 {
        0
    } else {
        (saturate(saturate(milliseconds * PIT_FREQUENCY) + (PIT_DIVISOR * 1000 - 1)) / (PIT_DIVISOR * 1000) as u64) as u64
    }
}

fn saturating_mul(a: u64, b: u64) -> (product: u64)
    ensures
        product == saturate(a * b),
{
    match a.checked_mul(b) {
        Some(product) => product,
        None => u64::MAX,
    }
}

/// Milliseconds elapsed after `ticks` timer ticks.
pub fn uptime_ms(ticks: u64) -> (ms: u64)
    ensures
        ms == spec_uptime_ms(ticks),
{
    saturating_mul(saturating_mul(ticks, PIT_DIVISOR), 1000) / PIT_FREQUENCY
}

/// The number of ticks that covers `milliseconds`, rounded up.
pub fn ticks_for_ms(milliseconds: u64) -> (ticks: u64)
    ensures
        ticks == spec_ticks_for_ms(milliseconds),
{
    if milliseconds == 0 {
        return 0;
    }
    let denominator = saturating_mul(PIT_DIVISOR, 1000);
    saturating_mul(milliseconds, PIT_FREQUENCY).saturating_add(denominator.saturating_sub(1)) / denominator
}

/// The tick at which `milliseconds` from tick `ticks` have passed.
pub fn deadline_ms(ticks: u64, milliseconds: u64) -> (deadline: u64)
    ensures
        deadline == saturate(ticks + spec_ticks_for_ms(milliseconds)),
{
    ticks.saturating_add(ticks_for_ms(milliseconds))
}

/// The tick a sleep of `milliseconds` started at tick `now` waits for; a
/// sleep cannot wait for ticks while interrupts are off, so then there is
/// none.
pub fn sleep_deadline(interrupts_enabled: bool, now: u64, milliseconds: u64) -> (deadline: Option<u64>)
    ensures
        deadline == (if interrupts_enabled {
            Some(saturate(now + spec_ticks_for_ms(milliseconds)))
        } else {
            None::<u64>
        }),
{
    if !interrupts_enabled {
        return None;
    }
    Some(deadline_ms(now, milliseconds))
}

/// Whether tick `ticks` is at or past `deadline`.
pub fn expired(ticks: u64, deadline: u64) -> (done: bool)
    ensures
        done == (ticks >= deadline),
{
    ticks >= deadline
}

/// The hours, minutes and seconds in `uptime_ms` milliseconds, truncated to whole seconds.
pub open spec fn hms(uptime_ms: u64) -> (int, int, int) {
    let total_seconds = uptime_ms as int / 1000;
    (total_seconds / 3600, (total_seconds % 3600) / 60, total_seconds % 60)
}

/// `"<h> hrs <m> min <s> sec"` for an uptime of `uptime_ms` milliseconds.
pub open spec fn uptime_text(uptime_ms: u64) -> Seq<char> {
    let (hours, minutes, seconds) = hms(uptime_ms);
    decimal(hours as nat) + " hrs "@ + decimal(minutes as nat) + " min "@ + decimal(seconds as nat) + " sec"@
}

/// An uptime as hours, minutes and seconds.
pub fn format_uptime(uptime_ms: u64) -> (text: String)
    ensures
        text@ == uptime_text(uptime_ms),
{
    let total_seconds = uptime_ms / 1000;
    let hours = total_seconds / 3600;
    let minutes = (total_seconds % 3600) / 60;
    let seconds = total_seconds % 60;
    let mut text: Vec<char> = Vec::new();
    push_decimal(&mut text, hours);
    push_text(&mut text, " hrs ");
    push_decimal(&mut text, minutes);
    push_text(&mut text, " min ");
    push_decimal(&mut text, seconds);
    push_text(&mut text, " sec");
    string_of(&text)
}

/// The uptime after `ticks` ticks, as hours, minutes and seconds.
pub fn uptime(ticks: u64) -> (text: String)
    ensures
        text@ == uptime_text(spec_uptime_ms(ticks)),
{
    format_uptime(uptime_ms(ticks))
}

/// A non-zero wait lasts at least one tick, and never fewer ticks than
/// milliseconds (a tick is shorter than a millisecond), as long as the
/// conversion does not saturate.
pub proof fn waits_last_at_least_their_milliseconds(milliseconds: u64)
    requires
        milliseconds * PIT_FREQUENCY <= u64::MAX,
    ensures
        milliseconds > 0 ==> spec_ticks_for_ms(milliseconds) >= 1,
        spec_ticks_for_ms(milliseconds) >= milliseconds,
{
    if milliseconds > 0 {
        let n = saturate(milliseconds * PIT_FREQUENCY);
        {
            assert(n >= milliseconds * PIT_DIVISOR * 1000) by (nonlinear_arith)
                requires
                    n == milliseconds * PIT_FREQUENCY,
                    PIT_FREQUENCY >= PIT_DIVISOR * 1000;
            assert((n + (PIT_DIVISOR * 1000 - 1)) / (PIT_DIVISOR * 1000) >= milliseconds) by (nonlinear_arith)
                requires
                    n >= milliseconds * PIT_DIVISOR * 1000,
                    PIT_DIVISOR * 1000 > 0;
        }
    }
}

/// Uptime never goes backwards: more ticks never read as fewer milliseconds.
pub proof fn uptime_never_goes_backwards(earlier: u64, later: u64)
    requires
        earlier <= later,
    ensures
        spec_uptime_ms(earlier) <= spec_uptime_ms(later),
{
    assert(saturate(earlier * PIT_DIVISOR) <= saturate(later * PIT_DIVISOR)) by (nonlinear_arith)
        requires
            earlier <= later,
    {
    }
    let (a, b) = (saturate(earlier * PIT_DIVISOR), saturate(later * PIT_DIVISOR));
    assert(saturate(a * 1000) <= saturate(b * 1000)) by (nonlinear_arith)
        requires
            a <= b,
    {
    }
    vstd::arithmetic::div_mod::lemma_div_is_ordered(
        saturate(a * 1000) as int,
        saturate(b * 1000) as int,
        PIT_FREQUENCY as int,
    );
}

/// A deadline set for a non-zero wait has not passed when it is set, as
/// long as it does not saturate.
pub proof fn a_fresh_deadline_has_not_expired(now: u64, milliseconds: u64)
    requires
        milliseconds > 0,
        milliseconds * PIT_FREQUENCY <= u64::MAX,
        now + spec_ticks_for_ms(milliseconds) <= u64::MAX,
    ensures
        !(now >= saturate(now + spec_ticks_for_ms(milliseconds))),
{
    waits_last_at_least_their_milliseconds(milliseconds);
}

} // verus!
