use weir::budget::sliding_window::{is_ahead, pack, unpack, SlidingWindowCounter};

#[test]
fn accumulates_within_single_window() {
    let mut c = SlidingWindowCounter::new(60 * 1000);
    assert_eq!(c.add(10, 1_000), 10);
    assert_eq!(c.add(5, 1_500), 15);
    assert_eq!(c.estimate(1_600), 15);
}

#[test]
fn rollover_carries_previous_window_weighted() {
    let mut c = SlidingWindowCounter::new(1000);
    c.add(100, 0); // bucket 0: 100 tokens
    let total = c.estimate(1_500);
    assert!((45..=55).contains(&total), "expected ~50, got {total}");
}

#[test]
fn gap_larger_than_two_windows_resets_to_zero() {
    let mut c = SlidingWindowCounter::new(1000);
    c.add(100, 0);
    assert_eq!(c.estimate(5_000), 0);
}

#[test]
fn interleaved_adds_are_not_lost() {
    let mut c = SlidingWindowCounter::new(60 * 1000);
    for _ in 0..8000 {
        c.add(1, 0);
    }
    assert_eq!(c.estimate(0), 8000);
}

#[test]
fn interleaved_adds_across_a_window_boundary_are_not_lost() {
    let mut c = SlidingWindowCounter::new(1000);
    for i in 0..16 {
        let now_ms = if i % 2 == 0 { 900 } else { 1100 };
        for _ in 0..500 {
            c.add(1, now_ms);
        }
    }
    // 4000 in the current window, and 4000 * 0.9 of the one before it.
    assert_eq!(c.estimate(1100), 7600);
}

#[test]
fn counts_at_wall_clock_times() {
    let mut c = SlidingWindowCounter::new(60_000);
    assert_eq!(c.add(7, 1_752_000_000_000), 7);
    assert_eq!(c.add(7, 1_752_000_000_001), 14);
}

#[test]
fn counts_again_after_a_gap() {
    let mut c = SlidingWindowCounter::new(1000);
    assert_eq!(c.add(100, 0), 100);
    assert_eq!(c.add(3, 10_000), 3);
    assert_eq!(c.add(4, 10_001), 7);
}

#[test]
fn stale_tokens_are_dropped() {
    let mut c = SlidingWindowCounter::new(1000);
    c.add(5, 10_000);
    assert_eq!(c.add(100, 8_000), 0);
    assert_eq!(c.estimate(10_000), 5);
}

#[test]
fn previous_window_counts_in_full_at_the_start_of_the_next() {
    let mut c = SlidingWindowCounter::new(1000);
    c.add(100, 500);
    assert_eq!(c.estimate(1_000), 100);
    assert_eq!(c.estimate(1_250), 75);
    assert_eq!(c.estimate(1_999), 0);
    assert_eq!(c.estimate(2_000), 0);
}

#[test]
fn counts_saturate() {
    let mut c = SlidingWindowCounter::new(1000);
    assert_eq!(c.add(u64::MAX, 0), u32::MAX as u64);
    assert_eq!(c.add(1, 0), u32::MAX as u64);
}

#[test]
fn a_window_of_no_length_counts_as_one_millisecond() {
    let mut c = SlidingWindowCounter::new(0);
    assert_eq!(c.add(3, 5), 3);
    assert_eq!(c.estimate(5), 3);
    assert_eq!(c.estimate(7), 0);
}

#[test]
fn times_before_the_epoch_have_windows_too() {
    let mut c = SlidingWindowCounter::new(1000);
    assert_eq!(c.add(4, -5000), 4);
    assert_eq!(c.add(5, -4001), 9);
}

#[test]
fn usage_only_ages_out() {
    let mut c = SlidingWindowCounter::new(1000);
    c.add(40, 300);
    c.add(60, 1_200);
    let mut before = c.estimate(1_200);
    for now_ms in 1_201..4_000 {
        let total = c.estimate(now_ms);
        assert!(total <= before);
        before = total;
    }
    assert_eq!(c.estimate(3_000), 0);
}

#[test]
fn window_indices_wrap_around() {
    // The last index of the line, then the first one of the next round.
    let last: i64 = 0xffff_ffff;
    let mut c = SlidingWindowCounter::new(10);
    c.add(1, 10 * (last - 5));
    assert_eq!(c.add(3, 10 * last), 3);
    assert_eq!(c.add(4, 10 * (last + 1)), 7);
    assert_eq!(c.add(5, 10 * last), 0);
    assert_eq!(c.estimate(10 * (last + 1)), 12);
}

#[test]
fn the_first_tokens_count_in_any_window() {
    let mut c = SlidingWindowCounter::new(1);
    assert_eq!(c.add(10, 4_294_967_295), 10);
    let mut c = SlidingWindowCounter::new(1);
    assert_eq!(c.add(10, i64::MIN), 10);
    assert_eq!(c.add(10, i64::MAX), 10);
    let mut c = SlidingWindowCounter::new(u64::MAX);
    assert_eq!(c.add(10, -1), 10);
    assert_eq!(c.add(10, 0), 20);
}

#[test]
fn tokens_that_are_very_late_displace_nothing() {
    let mut c = SlidingWindowCounter::new(1);
    c.add(5, 0x1_0000_0000);
    c.add(7, 0x7fff_ffff);
    c.add(7, 0);
    assert_eq!(c.estimate(0x1_0000_0000), 5);
}

#[test]
fn late_tokens_count_in_their_window() {
    let mut c = SlidingWindowCounter::new(1000);
    c.add(10, 900);
    c.add(20, 1_100);
    c.add(30, 950);
    assert_eq!(c.estimate(1_000), 60);
    assert_eq!(c.estimate(1_500), 40);
}

#[test]
fn packing_is_reversible() {
    for (index, count) in [(0, 0), (1, 2), (u32::MAX, 0), (0, u32::MAX), (u32::MAX, u32::MAX)] {
        assert_eq!(unpack(pack(index, count)), (index, count));
    }
    for word in [0, 1, 0xffff_ffff, 0x1_0000_0000, 0x0123_4567_89ab_cdef, u64::MAX] {
        let (index, count) = unpack(word);
        assert_eq!(pack(index, count), word);
    }
    assert_eq!(pack(1, 2), 0x1_0000_0002);
}

#[test]
fn indices_are_ordered_round_the_line() {
    assert!(is_ahead(0, u32::MAX));
    assert!(!is_ahead(u32::MAX, 0));
    assert!(is_ahead(5, 4));
    assert!(!is_ahead(4, 4));
    assert!(is_ahead(0x7fff_ffff, 0));
    assert!(!is_ahead(0x8000_0000, 0));
    assert!(!is_ahead(0, 0x8000_0000));
}
