use chilled_crates::calendar::{civil_from_days, days_since_epoch, FOUR_DIGIT_DAYS};

#[test]
fn days_of_known_dates() {
    assert_eq!(days_since_epoch(1970, 1, 1), Some(0));
    assert_eq!(days_since_epoch(1969, 12, 31), Some(-1));
    assert_eq!(days_since_epoch(2000, 2, 29), Some(11_016));
    assert_eq!(days_since_epoch(2000, 3, 1), Some(11_017));
    assert_eq!(days_since_epoch(2026, 3, 20), Some(20_532));
    assert_eq!(days_since_epoch(0, 3, 1), Some(-719_468));
    assert_eq!(days_since_epoch(-1, 3, 1), Some(-719_834));
    assert_eq!(days_since_epoch(2026, 0, 1), None);
    assert_eq!(days_since_epoch(2026, 13, 1), None);
    assert_eq!(days_since_epoch(2026, 1, 0), None);
    assert_eq!(days_since_epoch(2026, 1, 32), None);
}

#[test]
fn dates_of_known_days() {
    assert_eq!(civil_from_days(0), (1970, 1, 1));
    assert_eq!(civil_from_days(11_016), (2000, 2, 29));
    assert_eq!(civil_from_days(20_532), (2026, 3, 20));
    assert_eq!(civil_from_days(FOUR_DIGIT_DAYS - 1), (9999, 12, 31));
}

#[test]
fn dates_and_days_are_inverse() {
    let mut day: u64 = 0;
    while day < FOUR_DIGIT_DAYS {
        let (y, m, d) = civil_from_days(day);
        assert_eq!(days_since_epoch(y as i32, m as u32, d as u32), Some(day as i64));
        day += 997;
    }
}
