use plumbline_core::civil::{
    add_days, civil_from_days, date_to_days, days_between, days_from_civil, days_to_date, stamp_from_epoch_secs,
};

#[test]
fn round_trips_and_boundaries() {
    assert_eq!(days_from_civil(1970, 1, 1), 0);
    assert_eq!(days_to_date(0), "1970-01-01");
    // Leap day and the month rollovers either side of it.
    assert_eq!(add_days("2024-02-28T00:00:00Z", 1), "2024-02-29");
    assert_eq!(add_days("2024-02-29T00:00:00Z", 1), "2024-03-01");
    assert_eq!(add_days("2025-02-28T00:00:00Z", 1), "2025-03-01");
    assert_eq!(add_days("2026-12-31T23:59:59Z", 1), "2027-01-01");
    for z in [-100_000i64, -1, 0, 1, 20_000, 100_000] {
        let (y, m, d) = civil_from_days(z);
        assert_eq!(days_from_civil(y, m, d), z, "round trip at {z}");
    }
}

#[test]
fn spans_days_in_both_directions() {
    assert_eq!(days_between("2026-01-01", "2026-01-01"), Some(0));
    assert_eq!(days_between("2026-01-01T09:00:00Z", "2026-12-31T01:00:00Z"), Some(364));
    assert_eq!(days_between("2026-12-31", "2026-01-01"), Some(-364));
    // A leap year is 366 days end to end.
    assert_eq!(days_between("2024-01-01", "2025-01-01"), Some(366));
    assert_eq!(days_between("nonsense", "2026-01-01"), None);
}

#[test]
fn parses_bare_dates_and_full_stamps_alike() {
    assert_eq!(date_to_days("2026-07-28"), date_to_days("2026-07-28T13:45:01Z"));
}

#[test]
fn formats_epoch_seconds_as_the_wire_stamp() {
    assert_eq!(stamp_from_epoch_secs(0), "1970-01-01T00:00:00Z");
    assert_eq!(stamp_from_epoch_secs(1), "1970-01-01T00:00:01Z");
    assert_eq!(stamp_from_epoch_secs(86_399), "1970-01-01T23:59:59Z");
    assert_eq!(stamp_from_epoch_secs(86_400), "1970-01-02T00:00:00Z");
    let secs = days_from_civil(2026, 7, 30) * 86_400 + 12 * 3600 + 34 * 60 + 56;
    assert_eq!(stamp_from_epoch_secs(secs), "2026-07-30T12:34:56Z");
    assert_eq!(stamp_from_epoch_secs(-1), "1969-12-31T23:59:59Z");
}

#[test]
fn the_stamp_it_writes_is_one_date_to_days_can_parse() {
    for secs in [0i64, 1_000_000, 1_785_000_000, -86_400] {
        let stamp = stamp_from_epoch_secs(secs);
        assert_eq!(date_to_days(&stamp), Some(secs.div_euclid(86_400)), "{stamp}");
    }
}

#[test]
fn date_math_handles_month_and_leap_boundaries() {
    assert_eq!(add_days("2026-01-31T00:00:00Z", 1), "2026-02-01");
    assert_eq!(add_days("2026-12-31T12:00:00Z", 1), "2027-01-01");
    assert_eq!(add_days("2024-02-28T00:00:00Z", 1), "2024-02-29"); // 2024 is leap
    assert_eq!(add_days("2026-02-28T00:00:00Z", 1), "2026-03-01"); // 2026 is not
}

#[test]
fn next_day_of_a_date_crosses_the_year() {
    assert_eq!(days_to_date(date_to_days("2023-12-31").unwrap() + 1), "2024-01-01");
    assert_eq!(date_to_days("garbage"), None);
}

#[test]
fn a_stamp_too_short_to_hold_a_date_is_unreadable() {
    assert_eq!(date_to_days("2024-1-01"), None);
    assert_eq!(date_to_days(""), None);
}
