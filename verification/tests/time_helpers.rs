use crucible::time_helpers::{add_months, add_years, datetime_to_unix, is_leap_year, unix_to_datetime};

// 2024-01-31 12:30:45 UTC
const JAN_31_2024: u64 = 1_706_704_245;
// 2024-02-29 12:30:45 UTC (leap day)
const FEB_29_2024: u64 = 1_709_209_845;
// 2023-01-31 00:00:00 UTC
const JAN_31_2023: u64 = 1_675_123_200;
// 2024-03-15 08:00:00 UTC
const MAR_15_2024: u64 = 1_710_489_600;

#[test]
fn unix_round_trip_preserves_datetime() {
    let cases = [
        (0, (1970, 1, 1, 0, 0, 0)),
        (JAN_31_2024, (2024, 1, 31, 12, 30, 45)),
        (FEB_29_2024, (2024, 2, 29, 12, 30, 45)),
        (MAR_15_2024, (2024, 3, 15, 8, 0, 0)),
    ];

    for (ts, (y, m, d, h, min, s)) in cases {
        assert_eq!(unix_to_datetime(ts), (y, m, d, h, min, s));
        assert_eq!(datetime_to_unix(y, m, d, h, min, s), ts);
    }
}

#[test]
fn add_months_zero_duration() {
    assert_eq!(add_months(JAN_31_2024, 0), JAN_31_2024);
    assert_eq!(add_months(FEB_29_2024, 0), FEB_29_2024);
}

#[test]
fn add_years_zero_duration() {
    assert_eq!(add_years(JAN_31_2024, 0), JAN_31_2024);
    assert_eq!(add_years(FEB_29_2024, 0), FEB_29_2024);
}

#[test]
fn add_months_clamps_end_of_month() {
    assert_eq!(
        add_months(JAN_31_2024, 1),
        datetime_to_unix(2024, 2, 29, 12, 30, 45)
    );
    assert_eq!(
        add_months(JAN_31_2023, 1),
        datetime_to_unix(2023, 2, 28, 0, 0, 0)
    );
    let mar_31_2024 = datetime_to_unix(2024, 3, 31, 10, 0, 0);
    assert_eq!(
        add_months(mar_31_2024, 1),
        datetime_to_unix(2024, 4, 30, 10, 0, 0)
    );
    let may_31_2024 = datetime_to_unix(2024, 5, 31, 0, 0, 0);
    assert_eq!(
        add_months(may_31_2024, 1),
        datetime_to_unix(2024, 6, 30, 0, 0, 0)
    );
    let aug_31_2024 = datetime_to_unix(2024, 8, 31, 0, 0, 0);
    assert_eq!(
        add_months(aug_31_2024, 1),
        datetime_to_unix(2024, 9, 30, 0, 0, 0)
    );
    let oct_31_2024 = datetime_to_unix(2024, 10, 31, 0, 0, 0);
    assert_eq!(
        add_months(oct_31_2024, 1),
        datetime_to_unix(2024, 11, 30, 0, 0, 0)
    );
}

#[test]
fn add_months_handles_multiple_and_large_months() {
    assert_eq!(
        add_months(MAR_15_2024, 12),
        datetime_to_unix(2025, 3, 15, 8, 0, 0)
    );
    assert_eq!(
        add_months(MAR_15_2024, 1200),
        datetime_to_unix(2124, 3, 15, 8, 0, 0)
    );
}

#[test]
fn add_years_preserves_date_and_handles_large_durations() {
    assert_eq!(
        add_years(MAR_15_2024, 1),
        datetime_to_unix(2025, 3, 15, 8, 0, 0)
    );
    assert_eq!(
        add_years(MAR_15_2024, 100),
        datetime_to_unix(2124, 3, 15, 8, 0, 0)
    );
}

#[test]
fn add_years_clamps_leap_day() {
    assert_eq!(
        add_years(FEB_29_2024, 1),
        datetime_to_unix(2025, 2, 28, 12, 30, 45)
    );
    assert_eq!(
        add_years(FEB_29_2024, 4),
        datetime_to_unix(2028, 2, 29, 12, 30, 45)
    );
}

#[test]
fn is_leap_year_rules() {
    assert!(is_leap_year(2000));
    assert!(is_leap_year(2024));
    assert!(!is_leap_year(1900));
    assert!(!is_leap_year(2100));
    assert!(!is_leap_year(2023));
}

#[test]
fn adding_months_never_goes_backwards() {
    for ts in [0_u64, JAN_31_2023, JAN_31_2024, FEB_29_2024, MAR_15_2024] {
        for months in [0_u32, 1, 11, 13, 25] {
            assert!(add_months(ts, months) >= ts);
        }
    }
}

#[test]
fn december_rolls_into_the_next_year() {
    let dec_31_2023 = datetime_to_unix(2023, 12, 31, 23, 59, 59);
    assert_eq!(
        unix_to_datetime(add_months(dec_31_2023, 2)),
        (2024, 2, 29, 23, 59, 59)
    );
}
