use osjeff_core::heap::{adjust_request, align_up, fit_region, is_power_of_two};

#[test]
fn align_up_basic() {
    assert_eq!(align_up(0, 8), 0);
    assert_eq!(align_up(1, 8), 8);
    assert_eq!(align_up(8, 8), 8);
    assert_eq!(align_up(9, 8), 16);
    assert_eq!(align_up(100, 64), 128);
}

#[test]
fn power_of_two_check() {
    assert!(is_power_of_two(1));
    assert!(is_power_of_two(8));
    assert!(is_power_of_two(4096));
    assert!(!is_power_of_two(0));
    assert!(!is_power_of_two(3));
    assert!(!is_power_of_two(48));
}

#[test]
fn fit_exact() {
    // Region [0,100), request 100 aligned 1 -> fits, no excess.
    assert_eq!(fit_region(0, 100, 100, 1, 16), Some((0, 0)));
}

#[test]
fn fit_with_recoverable_excess() {
    // 100 - 40 = 60 leftover >= min_block(16) -> ok.
    assert_eq!(fit_region(0, 100, 40, 1, 16), Some((0, 60)));
}

#[test]
fn reject_excess_too_small_to_hold_node() {
    // leftover 10 < min_block 16 -> stranded -> reject.
    assert_eq!(fit_region(0, 50, 40, 1, 16), None);
}

#[test]
fn fit_respects_alignment_padding() {
    // Region starts at 5, align 8 -> alloc_start 8, needs 8+16=24 <= 5+40=45.
    let (start, excess) = fit_region(5, 40, 16, 8, 8).unwrap();
    assert_eq!(start, 8);
    assert_eq!(start % 8, 0);
    assert_eq!(excess, 45 - 24);
}

#[test]
fn reject_when_too_big() {
    assert_eq!(fit_region(0, 32, 64, 1, 16), None);
}

#[test]
fn reject_when_alignment_pushes_past_end() {
    // Region [10, 16): aligning to 64 -> 64, way past end.
    assert_eq!(fit_region(10, 6, 1, 64, 16), None);
}

#[test]
fn fit_overflow_is_safe() {
    assert_eq!(fit_region(usize::MAX - 4, 8, 16, 1, 16), None);
}

#[test]
fn adjust_request_enforces_node_minimums() {
    // Tiny request grows to at least node_size and node_align.
    let (size, align) = adjust_request(1, 1, 16, 8);
    assert_eq!(size, 16);
    assert_eq!(align, 8);
}

#[test]
fn adjust_request_keeps_larger_values() {
    let (size, align) = adjust_request(100, 64, 16, 8);
    assert_eq!(size, align_up(100, 8));
    assert_eq!(align, 64);
}

#[test]
fn align_up_at_the_top_of_the_address_space() {
    assert_eq!(osjeff_core::heap::align_up(usize::MAX - 7, 8), usize::MAX - 7);
    assert_eq!(osjeff_core::heap::fit_region(usize::MAX - 7, 0, 0, 8, 16), Some((usize::MAX - 7, 0)));
}
