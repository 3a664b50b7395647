use mvis::pacer::{pace, NANOS_PER_SECOND};

#[test]
fn fast_frame_sleeps_for_the_rest_of_the_budget() {
    // 50 frames per second leave 20 ms for a frame; 10 ms were used.
    assert_eq!(pace(10_000_000, Some(50)), 10_000_000);
}

#[test]
fn late_frame_does_not_sleep() {
    assert_eq!(pace(25_000_000, Some(50)), 0);
}

#[test]
fn frame_that_meets_its_budget_exactly_does_not_sleep() {
    assert_eq!(pace(20_000_000, Some(50)), 0);
}

#[test]
fn uncapped_loop_never_sleeps() {
    assert_eq!(pace(0, None), 0);
    assert_eq!(pace(10_000_000, None), 0);
    assert_eq!(pace(u64::MAX, None), 0);
}

#[test]
fn budget_is_rounded_down_to_whole_nanoseconds() {
    assert_eq!(pace(0, Some(3)), 333_333_333);
    assert_eq!(pace(333_333_332, Some(3)), 1);
    assert_eq!(pace(333_333_333, Some(3)), 0);
}

#[test]
fn one_frame_per_second_has_the_whole_second() {
    assert_eq!(pace(0, Some(1)), NANOS_PER_SECOND);
    assert_eq!(pace(1, Some(1)), NANOS_PER_SECOND - 1);
}

#[test]
fn rate_above_one_frame_per_nanosecond_leaves_no_budget() {
    assert_eq!(pace(0, Some(NANOS_PER_SECOND + 1)), 0);
    assert_eq!(pace(0, Some(u64::MAX)), 0);
}

#[test]
fn sleep_and_cost_fill_the_budget() {
    for cost in [0u64, 1, 999, 16_000_000, 16_666_665] {
        assert_eq!(pace(cost, Some(60)) + cost, 16_666_666);
    }
}
