use mnamer::calendar::{civil_date_from_unix_days, utc_date};

#[test]
fn unix_day_conversion_matches_known_dates() {
    assert_eq!(civil_date_from_unix_days(0), (1970, 1, 1));
    assert_eq!(civil_date_from_unix_days(20_705), (2026, 9, 9));
}

#[test]
fn days_before_the_epoch_and_leap_days_have_dates() {
    assert_eq!(civil_date_from_unix_days(-1), (1969, 12, 31));
    assert_eq!(civil_date_from_unix_days(-719_468), (0, 3, 1));
    assert_eq!(civil_date_from_unix_days(-719_469), (0, 2, 29));
    assert_eq!(civil_date_from_unix_days(11_016), (2000, 2, 29));
    assert_eq!(civil_date_from_unix_days(11_017), (2000, 3, 1));
}

#[test]
fn a_second_of_unix_time_falls_on_a_utc_date() {
    assert_eq!(utc_date(0), "1970-01-01");
    assert_eq!(utc_date(86_399), "1970-01-01");
    assert_eq!(utc_date(86_400), "1970-01-02");
    assert_eq!(utc_date(20_705 * 86_400 + 5), "2026-09-09");
}
