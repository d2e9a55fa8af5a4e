use daily_activity::listing::Timestamp;

#[test]
fn chrono_takes_timestamps_within_its_range() {
    assert!(chrono::DateTime::from_timestamp(-8_334_601_228_800, 0).is_some());
    assert!(chrono::DateTime::from_timestamp(-8_334_601_228_801, 0).is_none());
    assert!(chrono::DateTime::from_timestamp(8_210_266_876_799, 999_999_999).is_some());
    assert!(chrono::DateTime::from_timestamp(8_210_266_876_800, 0).is_none());
}

#[test]
fn chrono_takes_leap_second_nanoseconds_only_at_the_end_of_a_minute() {
    assert!(chrono::DateTime::from_timestamp(59, 1_500_000_000).is_some());
    assert!(chrono::DateTime::from_timestamp(58, 1_500_000_000).is_none());
    assert!(chrono::DateTime::from_timestamp(59, 2_000_000_000).is_none());
    assert!(chrono::DateTime::from_timestamp(-1, 1_000_000_000).is_some());
}

#[test]
fn timestamps_are_made_exactly_within_chrono_range() {
    assert!(Timestamp::new(-8_334_601_228_800, 0).is_some());
    assert!(Timestamp::new(-8_334_601_228_801, 0).is_none());
    assert!(Timestamp::new(8_210_266_876_799, 0).is_some());
    assert!(Timestamp::new(8_210_266_876_800, 0).is_none());
    assert!(Timestamp::new(58, 1_500_000_000).is_none());
}
