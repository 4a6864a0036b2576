use rapstat::timestamp::Timestamp;

#[test]
fn timestamps_in_chrono_range_only() {
    let t = Timestamp::from_parts(0, 0).unwrap();
    assert_eq!((t.secs(), t.nanos()), (0, 0));
    assert!(Timestamp::from_parts(i64::MAX, 0).is_none());
    assert!(Timestamp::from_parts(0, 2_000_000_000).is_none());
}

#[test]
fn timestamp_texts() {
    let t = Timestamp::from_parts(1_777_032_000, 0).unwrap();
    assert_eq!(t.to_rfc3339(), "2026-04-24T12:00:00+00:00");
    assert_eq!(t.to_minute_text(), "2026-04-24 12:00 UTC");
    assert_eq!(t.to_date_text(), "2026-04-24");
    let half = Timestamp::from_parts(0, 500_000_000).unwrap();
    assert_eq!(half.to_rfc3339(), "1970-01-01T00:00:00.500+00:00");
}

#[test]
fn timestamp_order_and_whole_days() {
    let a = Timestamp::from_parts(100, 5).unwrap();
    let b = Timestamp::from_parts(100, 6).unwrap();
    let c = Timestamp::from_parts(101, 0).unwrap();
    assert!(a.is_before(&b) && b.is_before(&c) && a.is_before(&c));
    assert!(!b.is_before(&a) && !a.is_before(&a));
    let day = 86_400;
    let x = Timestamp::from_parts(3 * day / 2, 0).unwrap();
    let zero = Timestamp::from_parts(0, 0).unwrap();
    assert_eq!(x.days_since(&zero), 1);
    assert_eq!(zero.days_since(&x), -1);
    assert_eq!(zero.days_since(&zero), 0);
}

#[test]
fn representable_instants_are_exactly_the_stated_range() {
    assert!(Timestamp::from_parts(8_210_266_876_799, 999_999_999).is_some());
    assert!(Timestamp::from_parts(8_210_266_876_800, 0).is_none());
    assert!(Timestamp::from_parts(-8_334_601_228_800, 0).is_some());
    assert!(Timestamp::from_parts(-8_334_601_228_801, 999_999_999).is_none());
    assert!(Timestamp::from_parts(59, 1_500_000_000).is_some());
    assert!(Timestamp::from_parts(-1, 1_000_000_000).is_some());
    assert!(Timestamp::from_parts(58, 1_000_000_000).is_none());
    assert!(Timestamp::from_parts(59, 2_000_000_000).is_none());
}

#[test]
fn whole_days_round_toward_zero() {
    let a = Timestamp::from_parts(86_400, 0).unwrap();
    let b = Timestamp::from_parts(0, 1).unwrap();
    assert_eq!(a.days_since(&b), 0);
    assert_eq!(b.days_since(&a), 0);
    let c = Timestamp::from_parts(-86_400 * 3, 0).unwrap();
    assert_eq!(c.days_since(&b), -3);
    assert_eq!(b.days_since(&c), 3);
}
