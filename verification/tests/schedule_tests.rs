use elton::schedule::{effective_wait_micros, wait_micros};

#[test]
fn no_start_instant_means_no_wait() {
    assert_eq!(wait_micros(None, 1_000_000), 0);
}

#[test]
fn past_start_instant_means_no_wait() {
    assert_eq!(wait_micros(Some(500_000), 1_000_000), 0);
}

#[test]
fn start_instant_equal_to_now_means_no_wait() {
    assert_eq!(wait_micros(Some(1_000_000), 1_000_000), 0);
}

#[test]
fn future_start_instant_waits_the_exact_distance() {
    assert_eq!(wait_micros(Some(1_000_000), 400_000), 600_000);
}

#[test]
fn future_start_instant_before_negative_now() {
    assert_eq!(wait_micros(Some(10), -10), 20);
}

#[test]
fn effective_wait_without_instant_is_zero() {
    assert_eq!(effective_wait_micros(None), 0);
}

#[test]
fn effective_wait_for_epoch_start_is_zero() {
    // The epoch itself is long past, whatever the clock now reads.
    assert_eq!(effective_wait_micros(Some(0)), 0);
}

#[test]
fn effective_wait_for_far_future_is_positive() {
    assert!(effective_wait_micros(Some(i64::MAX)) > 0);
}
