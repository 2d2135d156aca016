//! End-to-end tests of the radix counter, the tick producer and the
//! observer's downsampling protocol.

use memory_worm::memory_worm::{decode, MemoryWorm, ShadowConfig, MAX_SHADOWS};
use memory_worm::observer::{handle_overflow, run_observer, Observer};
use memory_worm::tick_worker::run_tick_producer;

fn enabled_slot(source_digit: u8, divisor: u32) -> ShadowConfig {
    let mut c = ShadowConfig::new();
    c.enabled = 1;
    c.source_digit = source_digit;
    c.divisor = divisor;
    c
}

#[test]
fn new_worm_is_zeroed() {
    let w = MemoryWorm::new();
    assert_eq!(w.full(), 0);
    assert_eq!(w.shadows.len(), MAX_SHADOWS);
    assert_eq!(w.shadow_counters.len(), MAX_SHADOWS);
    for s in 0..MAX_SHADOWS {
        assert_eq!(w.shadows[s], ShadowConfig::new());
        assert_eq!(w.shadow_counter(s), 0);
    }
}

#[test]
fn new_slot_is_disabled_with_divisor_one() {
    let c = ShadowConfig::new();
    assert_eq!(c.enabled, 0);
    assert_eq!(c.source_digit, 0);
    assert_eq!(c.reserved1, 0);
    assert_eq!(c.divisor, 1);
    assert_eq!(c.overflow_count, 0);
    assert_eq!(c.reserved2, 0);
}

#[test]
fn ticks_count_up_from_zero() {
    let mut w = MemoryWorm::new();
    for _ in 0..4096 {
        w.tick();
    }
    assert_eq!(w.full(), 4096);
    run_tick_producer(&mut w, 10_000);
    assert_eq!(w.full(), 14_096);
}

#[test]
fn tick_wraps_at_the_top() {
    let mut w = MemoryWorm::new();
    w.counter = u64::MAX;
    w.tick();
    assert_eq!(w.full(), 0);

    let mut w = MemoryWorm::new();
    w.counter = u64::MAX - 2;
    run_tick_producer(&mut w, 5);
    assert_eq!(w.full(), 2);
}

#[test]
fn decode_extracts_each_digit() {
    let v: u64 = 0x0123_4567_89AB_CDEF;
    assert_eq!(decode(v, 0), 3567);
    assert_eq!(decode(v, 1), 700);
    assert_eq!(decode(v, 2), 550);
    assert_eq!(decode(v, 3), 359);
    assert_eq!(decode(v, 4), 209);
    assert_eq!(decode(v, 5), 18);

    let mut w = MemoryWorm::new();
    w.counter = v;
    assert_eq!(w.p0(), 3567);
    assert_eq!(w.p1(), 700);
    assert_eq!(w.p2(), 550);
    assert_eq!(w.p3(), 359);
    assert_eq!(w.p4(), 209);
    assert_eq!(w.p5(), 18);
}

#[test]
fn decode_saturates_at_all_ones() {
    let v = u64::MAX;
    assert_eq!(decode(v, 0), 4095);
    assert_eq!(decode(v, 1), 1023);
    assert_eq!(decode(v, 2), 1023);
    assert_eq!(decode(v, 3), 1023);
    assert_eq!(decode(v, 4), 1023);
    assert_eq!(decode(v, 5), 4095);
}

fn reconstruct(v: u64) -> u64 {
    (decode(v, 0) as u64)
        | ((decode(v, 1) as u64) << 12)
        | ((decode(v, 2) as u64) << 22)
        | ((decode(v, 3) as u64) << 32)
        | ((decode(v, 4) as u64) << 42)
        | ((decode(v, 5) as u64) << 52)
}

#[test]
fn decoded_digits_reconstruct_the_value() {
    for v in [
        0u64,
        1,
        4095,
        4096,
        0x0123_4567_89AB_CDEF,
        0xDEAD_BEEF_CAFE_F00D,
        u64::MAX,
        1 << 52,
        (1 << 52) - 1,
    ] {
        assert_eq!(reconstruct(v), v);
    }
}

#[test]
fn first_pass_declares_no_wrap() {
    // The observer starts remembering every digit at zero, so the very
    // first sample can never be below the remembered value.
    let mut w = MemoryWorm::new();
    w.shadows[0] = enabled_slot(0, 1);
    w.counter = 0x0123_4567_89AB_CDEF;
    let mut o = Observer::new();
    run_observer(&mut w, &mut o);
    assert_eq!(w.shadow_counter(0), 0);
    assert_eq!(w.shadows[0].overflow_count, 0);
}

#[test]
fn single_wrap_is_detected_once() {
    let mut w = MemoryWorm::new();
    w.shadows[0] = enabled_slot(0, 1);
    w.counter = 5;
    let mut o = Observer::new();
    run_observer(&mut w, &mut o);
    assert_eq!(w.shadow_counter(0), 0);
    // P0 sampled below its remembered value: one wrap declared, and the
    // divisor-one slot advances exactly once.
    w.counter = 2;
    run_observer(&mut w, &mut o);
    assert_eq!(w.shadow_counter(0), 1);
    assert_eq!(w.shadows[0].overflow_count, 0);
    // No further decrease, no further advance.
    run_observer(&mut w, &mut o);
    assert_eq!(w.shadow_counter(0), 1);
}

#[test]
fn two_wraps_between_samples_collapse_into_one() {
    // Documented limitation, not a bug: when the sampling interval is too
    // coarse, detection undercounts. P0 wraps every 4096 ticks; two true
    // wraps between two samples are declared as a single one.
    let mut w = MemoryWorm::new();
    w.shadows[0] = enabled_slot(0, 1);
    w.counter = 100;
    let mut o = Observer::new();
    run_observer(&mut w, &mut o);
    // 8142 ticks cross two multiples of 4096: P0 truly wraps twice and
    // lands at 50, below the remembered 100.
    run_tick_producer(&mut w, 8142);
    assert_eq!(w.p0(), 50);
    run_observer(&mut w, &mut o);
    assert_eq!(w.shadow_counter(0), 1);
}

#[test]
fn divisor_counts_down_detected_wraps() {
    // A slot with divisor 4 advances once after exactly 4 detected wraps,
    // and its tally returns to zero.
    let mut w = MemoryWorm::new();
    w.shadows[2] = enabled_slot(3, 4);
    for i in 0..4 {
        assert_eq!(w.shadow_counter(2), 0);
        assert_eq!(w.shadows[2].overflow_count, i);
        handle_overflow(&mut w, 3);
    }
    assert_eq!(w.shadow_counter(2), 1);
    assert_eq!(w.shadows[2].overflow_count, 0);
}

#[test]
fn disabled_and_mismatched_slots_never_advance() {
    let mut w = MemoryWorm::new();
    // Slot 0 is disabled though bound to digit 1; slot 1 is enabled but
    // bound to digit 4; slot 2 is enabled but bound past the last digit.
    w.shadows[0] = enabled_slot(1, 1);
    w.shadows[0].enabled = 0;
    w.shadows[1] = enabled_slot(4, 1);
    w.shadows[2] = enabled_slot(6, 1);
    for _ in 0..10 {
        handle_overflow(&mut w, 1);
    }
    assert_eq!(w.shadow_counter(0), 0);
    assert_eq!(w.shadows[0].overflow_count, 0);
    assert_eq!(w.shadow_counter(1), 0);
    assert_eq!(w.shadows[1].overflow_count, 0);
    assert_eq!(w.shadow_counter(2), 0);
    assert_eq!(w.shadows[2].overflow_count, 0);
}

#[test]
fn zero_divisor_advances_on_every_wrap() {
    // A controller can write a zero divisor; the degenerate slot then
    // advances on every detected wrap.
    let mut w = MemoryWorm::new();
    w.shadows[5] = enabled_slot(2, 0);
    handle_overflow(&mut w, 2);
    handle_overflow(&mut w, 2);
    assert_eq!(w.shadow_counter(5), 2);
    assert_eq!(w.shadows[5].overflow_count, 0);
}

#[test]
fn shadow_counter_wraps_at_the_top() {
    let mut w = MemoryWorm::new();
    w.shadows[0] = enabled_slot(0, 1);
    w.shadow_counters[0] = u64::MAX;
    handle_overflow(&mut w, 0);
    assert_eq!(w.shadow_counter(0), 0);
}

#[test]
fn tally_saturated_by_controller_still_advances() {
    // A controller may leave the tally at the very top; the next detected
    // wrap has mathematically reached any divisor, so the slot advances
    // and the tally resets instead of overflowing.
    let mut w = MemoryWorm::new();
    w.shadows[0] = enabled_slot(0, 1000);
    w.shadows[0].overflow_count = u32::MAX;
    handle_overflow(&mut w, 0);
    assert_eq!(w.shadow_counter(0), 1);
    assert_eq!(w.shadows[0].overflow_count, 0);
}

#[test]
fn downsampled_p0_wraps_with_frequent_sampling() {
    // Counter at zero, divisor 3, source digit P0 (12 bits wide, so it
    // wraps every 4096 ticks): after exactly 12288 ticks with sampling
    // well above the wrap rate, the bound shadow counter reads 1.
    let mut w = MemoryWorm::new();
    w.shadows[0] = enabled_slot(0, 3);
    let mut o = Observer::new();
    for _ in 0..12 {
        run_tick_producer(&mut w, 1024);
        run_observer(&mut w, &mut o);
    }
    assert_eq!(w.full(), 12288);
    assert_eq!(w.shadow_counter(0), 1);
    assert_eq!(w.shadows[0].overflow_count, 0);
}

#[test]
fn two_slots_share_the_top_digit() {
    // Two slots both bound to P5 with divisors 1 and 2: after 2 detected
    // wraps of P5, the first counts 2 and the second counts 1.
    let mut w = MemoryWorm::new();
    w.shadows[0] = enabled_slot(5, 1);
    w.shadows[1] = enabled_slot(5, 2);
    let mut o = Observer::new();
    w.counter = 2u64 << 52;
    run_observer(&mut w, &mut o);
    w.counter = 1u64 << 52;
    run_observer(&mut w, &mut o);
    w.counter = 0;
    run_observer(&mut w, &mut o);
    assert_eq!(w.shadow_counter(0), 2);
    assert_eq!(w.shadows[0].overflow_count, 0);
    assert_eq!(w.shadow_counter(1), 1);
    assert_eq!(w.shadows[1].overflow_count, 0);
}

#[test]
fn observer_leaves_counter_and_configuration_alone() {
    let mut w = MemoryWorm::new();
    w.shadows[3] = enabled_slot(0, 7);
    w.counter = 9000;
    let mut o = Observer::new();
    run_observer(&mut w, &mut o);
    w.counter = 8999;
    run_observer(&mut w, &mut o);
    assert_eq!(w.full(), 8999);
    assert_eq!(w.shadows[3].enabled, 1);
    assert_eq!(w.shadows[3].source_digit, 0);
    assert_eq!(w.shadows[3].divisor, 7);
    assert_eq!(w.shadows[3].overflow_count, 1);
}

#[test]
fn observer_remembers_every_digit() {
    let mut w = MemoryWorm::new();
    w.counter = 0x0123_4567_89AB_CDEF;
    let mut o = Observer::new();
    run_observer(&mut w, &mut o);
    assert_eq!(o.last_digits, vec![3567, 700, 550, 359, 209, 18]);
}
