use iris::clock::{nanos_or_zero, secs_or_zero};

#[test]
fn elapsed_time_is_counted() {
    assert_eq!(nanos_or_zero(Some((3, 7))), 3_000_000_007);
    assert_eq!(secs_or_zero(Some((3, 999_999_999))), 3);
    assert_eq!(nanos_or_zero(Some((u64::MAX, 1))), u64::MAX as u128 * 1_000_000_000 + 1);
}

#[test]
fn time_before_the_epoch_counts_as_zero() {
    assert_eq!(nanos_or_zero(None), 0);
    assert_eq!(secs_or_zero(None), 0);
}
