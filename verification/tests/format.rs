use lini::error::Span;
use lini::ledger::format::{numeric, one_shape_paint, parse, read_or, reject_date, DateUnit, Format};
use lini::resolve::{AttrMap, Num, ResolvedValue};

fn fmt(v: ResolvedValue) -> Result<Format, lini::error::Error> {
    parse(&v, Span::empty())
}

fn ident(s: &str) -> ResolvedValue {
    ResolvedValue::Ident(s.to_string())
}

fn pair(fam: &str, n: Num) -> ResolvedValue {
    ResolvedValue::Tuple(vec![ident(fam), ResolvedValue::Number(n)])
}

#[test]
fn parses_every_family() {
    assert_eq!(fmt(ident("auto")).unwrap(), Format::Auto);
    assert_eq!(fmt(pair("decimal", Num::whole(2))).unwrap(), Format::Decimal(2));
    assert_eq!(fmt(pair("significant", Num::whole(3))).unwrap(), Format::Significant(3));
    assert_eq!(fmt(pair("scientific", Num::whole(1))).unwrap(), Format::Scientific(1));
    assert_eq!(fmt(pair("engineering", Num::whole(0))).unwrap(), Format::Engineering(0));
    assert_eq!(fmt(pair("percent", Num::whole(1))).unwrap(), Format::Percent(1));
    assert_eq!(fmt(pair("fraction", Num::whole(8))).unwrap(), Format::Fraction(8));
    assert_eq!(fmt(ident("month")).unwrap(), Format::Date(DateUnit::Month));
}

#[test]
fn rejects_bad_values() {
    assert!(fmt(ident("decimals")).is_err());
    assert!(fmt(ResolvedValue::Number(Num::whole(2))).is_err());
    assert!(fmt(pair("decimal", Num::new(25, 1))).is_err());
    assert!(fmt(pair("decimal", Num::whole(13))).is_err());
    assert!(fmt(pair("significant", Num::whole(0))).is_err());
    assert!(fmt(pair("fraction", Num::whole(1))).is_err());
    assert!(fmt(pair("fraction", Num::new(5, 1))).is_err());
}

#[test]
fn cascade_reads_like_tooltip() {
    let mut attrs = AttrMap::new();
    assert_eq!(
        read_or(&attrs, Format::Decimal(1), Span::empty()).unwrap(),
        Format::Decimal(1)
    );
    attrs.insert("format", pair("percent", Num::whole(0)));
    assert_eq!(
        read_or(&attrs, Format::Decimal(1), Span::empty()).unwrap(),
        Format::Percent(0)
    );
    assert_eq!(numeric(Format::Date(DateUnit::Day)), Format::Auto);
    assert_eq!(numeric(Format::Percent(1)), Format::Percent(1));
}

#[test]
fn error_messages_name_the_family_and_range() {
    let e = fmt(pair("significant", Num::whole(0))).unwrap_err();
    assert_eq!(e.message, "'format: significant N' takes 1..12 digits");
    let e = fmt(pair("decimal", Num::whole(13))).unwrap_err();
    assert_eq!(e.message, "'format: decimal N' takes 0..12 decimals");
    let e = fmt(pair("fraction", Num::whole(2000))).unwrap_err();
    assert_eq!(e.message, "'format: fraction D' takes a whole denominator 2..1024");
    let e = fmt(ident("weekly")).unwrap_err();
    assert!(e.message.starts_with("'format' takes auto"));
}

#[test]
fn a_whole_number_written_with_places_still_reads() {
    // `2.0` is a whole two.
    assert_eq!(fmt(pair("decimal", Num::new(20, 1))).unwrap(), Format::Decimal(2));
    assert_eq!(fmt(pair("fraction", Num::new(-40, 1))).is_err(), true);
}

#[test]
fn date_presets_are_rejected_on_numeric_owners() {
    assert!(reject_date(Format::Date(DateUnit::Year), Span::empty()).is_err());
    assert!(reject_date(Format::Decimal(2), Span::empty()).is_ok());
    assert_eq!(
        one_shape_paint("line"),
        "a '|line|' is one shape with one paint — per-datum lists read on '|bars|' / '|dots|'"
    );
}
