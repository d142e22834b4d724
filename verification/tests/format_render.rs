use lini::ledger::format::{fraction_parts, render, Format};
use lini::resolve::Num;

fn n(mant: i64, exp: u32) -> Num {
    Num::new(mant, exp)
}

#[test]
fn auto_matches_the_historic_tick_formatter() {
    assert_eq!(render(&Num::whole(42), Format::Auto), "42");
    assert_eq!(render(&n(25, 1), Format::Auto), "2.5");
    assert_eq!(render(&n(25001, 4), Format::Auto), "2.5001");
    // The historic trim keeps the sign on a rounded-to-zero fraction; `auto`
    // is pinned byte-identical to it (`no negative zero` is the other
    // families' rule).
    assert_eq!(render(&n(-1, 5), Format::Auto), "-0");
    assert_eq!(render(&Num::whole(-3), Format::Auto), "-3");
}

#[test]
fn decimal_keeps_trailing_zeros() {
    assert_eq!(render(&n(25, 1), Format::Decimal(2)), "2.50");
    assert_eq!(render(&n(2567, 3), Format::Decimal(2)), "2.57");
    assert_eq!(render(&Num::whole(3), Format::Decimal(0)), "3");
    assert_eq!(render(&n(-1, 3), Format::Decimal(2)), "0.00");
}

#[test]
fn significant_rounds_both_sides_of_the_point() {
    assert_eq!(render(&Num::whole(1234), Format::Significant(3)), "1230");
    assert_eq!(render(&n(12345, 6), Format::Significant(3)), "0.0123");
    assert_eq!(render(&n(15, 1), Format::Significant(3)), "1.50");
    assert_eq!(render(&n(9999, 1), Format::Significant(3)), "1000");
    assert_eq!(render(&Num::whole(0), Format::Significant(3)), "0");
    assert_eq!(render(&Num::whole(-1234), Format::Significant(2)), "-1200");
}

#[test]
fn scientific_and_engineering() {
    assert_eq!(render(&Num::whole(12345), Format::Scientific(2)), "1.23e4");
    assert_eq!(render(&n(123, 5), Format::Scientific(1)), "1.2e-3");
    assert_eq!(render(&n(999, 2), Format::Scientific(1)), "1.0e1");
    assert_eq!(render(&Num::whole(0), Format::Scientific(1)), "0.0e0");
    assert_eq!(render(&Num::whole(12345), Format::Engineering(1)), "12.3e3");
    assert_eq!(render(&n(123, 5), Format::Engineering(0)), "1e-3");
    assert_eq!(render(&n(99996, 2), Format::Engineering(1)), "1.0e3");
    assert_eq!(render(&Num::whole(-2500), Format::Engineering(1)), "-2.5e3");
}

#[test]
fn percent_scales_by_100() {
    assert_eq!(render(&n(755, 3), Format::Percent(1)), "75.5%");
    assert_eq!(render(&Num::whole(1), Format::Percent(0)), "100%");
    assert_eq!(render(&n(-1, 5), Format::Percent(1)), "0.0%");
}

#[test]
fn fraction_rounds_and_reduces() {
    assert_eq!(render(&n(1375, 3), Format::Fraction(8)), "1 3/8");
    assert_eq!(render(&n(75, 2), Format::Fraction(8)), "3/4");
    assert_eq!(render(&Num::whole(2), Format::Fraction(8)), "2");
    assert_eq!(render(&n(299, 2), Format::Fraction(4)), "3");
    assert_eq!(render(&n(-125, 2), Format::Fraction(4)), "-1 1/4");
    assert_eq!(render(&n(-1, 2), Format::Fraction(4)), "0");
    assert_eq!(fraction_parts(&n(1375, 3), 8), (false, 1, 3, 8));
}

#[test]
fn auto_is_the_minimal_reading() {
    assert_eq!(lini::ledger::format::numbers::auto(&n(1230, 3)), "1.23");
    assert_eq!(lini::ledger::format::numbers::auto(&n(123456, 5)), "1.2346");
    assert_eq!(lini::ledger::format::numbers::auto(&n(1000, 3)), "1");
}

#[test]
fn date_presets_read_as_auto() {
    assert_eq!(render(&n(25, 1), Format::Date(lini::ledger::format::DateUnit::Day)), "2.5");
}

#[test]
fn decimals_past_the_written_digits_pad_with_zeros() {
    assert_eq!(render(&n(5, 1), Format::Decimal(25)), "0.5000000000000000000000000");
    assert_eq!(render(&n(-5, 1), Format::Scientific(20)), "-5.00000000000000000000e-1");
}

#[test]
fn engineering_snaps_small_exponents_down() {
    assert_eq!(render(&n(5, 1), Format::Engineering(1)), "500.0e-3");
    assert_eq!(render(&n(5, 2), Format::Engineering(0)), "50e-3");
}

#[test]
fn half_way_decimals_round_to_even() {
    assert_eq!(render(&n(125, 3), Format::Decimal(2)), "0.12");
    assert_eq!(render(&n(135, 3), Format::Decimal(2)), "0.14");
}
