use agnostos::timer::{deadline_ms, expired, format_uptime, sleep_deadline, ticks_for_ms, uptime, uptime_ms};

#[test]
fn formats_subsecond_uptime_as_zero_seconds() {
    assert_eq!(format_uptime(999), "0 hrs 0 min 0 sec");
}

#[test]
fn formats_minutes_and_seconds() {
    assert_eq!(format_uptime(125_000), "0 hrs 2 min 5 sec");
}

#[test]
fn formats_hours_minutes_and_seconds() {
    assert_eq!(format_uptime(3_661_000), "1 hrs 1 min 1 sec");
}

#[test]
fn converts_milliseconds_to_at_least_one_tick() {
    assert_eq!(ticks_for_ms(0), 0);
    assert!(ticks_for_ms(1) >= 1);
    assert!(ticks_for_ms(100) >= 100);
}

#[test]
fn tick_conversion_rounds_up_and_saturates() {
    assert_eq!(ticks_for_ms(1), 2);
    assert_eq!(ticks_for_ms(1000), 1001);
    assert_eq!(ticks_for_ms(u64::MAX), u64::MAX / 1_193_000);
}

#[test]
fn uptime_counts_milliseconds_from_ticks() {
    assert_eq!(uptime_ms(0), 0);
    assert_eq!(uptime_ms(1000), 999);
    assert_eq!(uptime_ms(u64::MAX), u64::MAX / 1_193_182);
    assert_eq!(uptime(3_700_000), "1 hrs 1 min 39 sec");
}

#[test]
fn deadlines_saturate_and_expire_at_their_tick() {
    assert_eq!(deadline_ms(10, 0), 10);
    assert_eq!(deadline_ms(10, 1), 12);
    assert_eq!(deadline_ms(u64::MAX, 5), u64::MAX);
    assert!(!expired(9, 10));
    assert!(expired(10, 10));
    assert!(expired(11, 10));
}

#[test]
fn sleeping_needs_interrupts() {
    assert_eq!(sleep_deadline(false, 5, 10), None);
    assert_eq!(sleep_deadline(true, 5, 10), Some(5 + ticks_for_ms(10)));
    assert_eq!(sleep_deadline(true, u64::MAX, 1), Some(u64::MAX));
}
