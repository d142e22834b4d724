use lini::ledger::date::{
    civil_from_days, days_from_civil, days_in_month, parse, render, render_full,
};
use lini::ledger::format::DateUnit;

#[test]
fn civil_math_round_trips_known_dates() {
    assert_eq!(days_from_civil(1970, 1, 1), 0);
    assert_eq!(days_from_civil(2000, 3, 1), 11017);
    assert_eq!(civil_from_days(0), (1970, 1, 1));
    for z in [-1_000_000, -1, 0, 59, 365, 730_500, 1_000_000] {
        let (y, m, d) = civil_from_days(z);
        assert_eq!(days_from_civil(y, m, d), z);
    }
    // Leap rules: 2000 was a leap year, 1900 was not.
    assert_eq!(days_in_month(2000, 2), 29);
    assert_eq!(days_in_month(1900, 2), 28);
    assert_eq!(days_in_month(2024, 2), 29);
}

#[test]
fn parses_the_iso_forms() {
    assert_eq!(parse("1970-01-01"), Some(0));
    assert_eq!(parse("1970-01-02"), Some(86_400));
    assert_eq!(parse("1970-01-01T01:30"), Some(5_400));
    assert_eq!(parse("1970-01-01T00:00:30Z"), Some(30));
    // An offset keeps its instant: 02:00+02:00 is midnight UTC.
    assert_eq!(parse("1970-01-01T02:00+02:00"), Some(0));
    assert_eq!(parse("1969-12-31T23:00-01:00"), Some(0));
    assert_eq!(parse("2026-01-01"), Some(days_from_civil(2026, 1, 1) * 86_400));
}

#[test]
fn rejects_non_dates() {
    for bad in [
        "2026-13-01",
        "2026-02-30",
        "1900-02-29",
        "2026-1-01",
        "2026-01-01T25:00",
        "2026-01-01T09",
        "2026-01-01X",
        "2026-01-01T09:00+2:00",
        "hello",
        "20260101",
    ] {
        assert_eq!(parse(bad), None, "{bad}");
    }
}

#[test]
fn renders_the_full_instant() {
    assert_eq!(render_full(parse("2026-03-04").unwrap()), "Mar 4 2026");
    assert_eq!(
        render_full(parse("2026-03-04T09:30").unwrap()),
        "Mar 4 2026, 09:30"
    );
}

#[test]
fn renders_each_preset() {
    let t = parse("2026-03-04T09:30").unwrap();
    assert_eq!(render(t, DateUnit::Year), "2026");
    assert_eq!(render(t, DateUnit::Month), "Mar 2026");
    assert_eq!(render(t, DateUnit::Day), "Mar 4");
    assert_eq!(render(t, DateUnit::Hour), "09:30");
    assert_eq!(render(t, DateUnit::Minute), "09:30");
}

#[test]
fn civil_round_trip_spans_negative_and_far_years() {
    for z in [-800_000_000i64, -146_097, -719_468, -719_469, 2_932_896, 100_000_000] {
        let (y, m, d) = civil_from_days(z);
        assert!((1..=12).contains(&m));
        assert!(d >= 1 && d <= days_in_month(y, m));
        assert_eq!(days_from_civil(y, m, d), z);
    }
    assert_eq!(civil_from_days(-1), (1969, 12, 31));
    assert_eq!(civil_from_days(11_016), (2000, 2, 29));
}

#[test]
fn render_floors_negative_instants_into_the_previous_day() {
    assert_eq!(render(-1, DateUnit::Day), "Dec 31");
    assert_eq!(render(-1, DateUnit::Hour), "23:59");
    assert_eq!(render(-1, DateUnit::Year), "1969");
}

#[test]
fn civil_round_trip_reaches_the_ends_of_the_day_range() {
    for z in [i64::MIN, i64::MIN + 1, i64::MAX - 719_468, i64::MAX - 800_000] {
        let (y, m, d) = civil_from_days(z);
        assert!((1..=12).contains(&m));
        assert!(d >= 1 && d <= days_in_month(y, m));
        assert_eq!(days_from_civil(y, m, d), z);
    }
}

#[test]
fn month_numbers_outside_the_year_read_march_based() {
    assert_eq!(days_from_civil(2000, 0, 1), days_from_civil(1999, 12, 1));
    assert_eq!(days_from_civil(1999, 13, 1), days_from_civil(2000, 1, 1));
    assert_eq!(days_from_civil(1999, 14, 1), days_from_civil(2000, 2, 1));
}
