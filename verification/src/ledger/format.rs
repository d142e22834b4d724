//! The `format:` engine — value **presentation**, never measurement. One
//! parse and one renderer shared by every consumer, so the same value can
//! never read two ways.

use crate::error::{Error, Span};
use crate::resolve::{AttrMap, Num, ResolvedValue, Val, entry_lookup};
use crate::text::{decimal, push_int, push_str};
pub mod numbers;

pub use numbers::{fraction_parts, render};

use vstd::prelude::*;

verus! {

/// A parsed `format:`, default `auto`.
#[derive(Clone, Copy, Debug, PartialEq, Eq, Structural)]
pub enum Format {
    /// Integers stay integers; decimals trim trailing zeros (≤ 4 places).
    Auto,
    /// Fixed decimals, trailing zeros kept.
    Decimal(u8),
    /// Significant digits (trailing zeros within them kept: `1.50`).
    Significant(u8),
    /// `m e p` exponential, the mantissa in `[1, 10)`.
    Scientific(u8),
    /// Exponential with the exponent snapped to a multiple of 3.
    Engineering(u8),
    /// Value × 100 with fixed decimals, a `%` appended.
    Percent(u8),
    /// Nearest multiple of `1/D`, reduced — the drafting fraction.
    Fraction(u32),
    /// A date preset — speaks only to time-axis ticks; inherited onto a
    /// numeric consumer it says nothing ([`numeric`]), authored on one
    /// directly it errors at that owner's build.
    Date(DateUnit),
}

impl Default for Format {
    fn default() -> (f: Format)
        ensures
            f == Format::Auto,
    {
        Format::Auto
    }
}

/// A date preset's granularity.
#[derive(Clone, Copy, Debug, PartialEq, Eq, Structural)]
pub enum DateUnit {
    Year,
    Month,
    Day,
    Hour,
    Minute,
}

/// The usage row, verbatim.
pub open spec fn usage() -> Seq<char> {
    "'format' takes auto, decimal N, significant N, scientific N, engineering N, percent N, fraction D, or a date preset"@
}

fn usage_text() -> (s: &'static str)
    ensures
        s@ == usage(),
{
    "'format' takes auto, decimal N, significant N, scientific N, engineering N, percent N, fraction D, or a date preset"
}

/// The message for an out-of-range digit count: `'format: decimal N' takes
/// 0..12 decimals`.
pub open spec fn digits_message(fam: Seq<char>, lo: int, what: Seq<char>) -> Seq<char> {
    "'format: "@ + fam + " N' takes "@ + decimal(lo) + "..12 "@ + what
}

/// The fraction family's message.
pub open spec fn fraction_message() -> Seq<char> {
    "'format: fraction D' takes a whole denominator 2..1024"@
}

/// A digit-count argument: a whole number in `lo..=12`.
pub open spec fn digit_count(n: Num, lo: int) -> Option<int> {
    match n.whole_value() {
        Some(w) => if lo <= w <= 12 {
            Some(w)
        } else {
            None
        },
        None => None,
    }
}

/// What a `format:` value reads as, or the message rejecting it.
pub open spec fn format_of(v: Val) -> Result<Format, Seq<char>> {
    match v {
        Val::Ident(s) => if s == "auto"@ {
            Ok(Format::Auto)
        } else if s == "year"@ {
            Ok(Format::Date(DateUnit::Year))
        } else if s == "month"@ {
            Ok(Format::Date(DateUnit::Month))
        } else if s == "day"@ {
            Ok(Format::Date(DateUnit::Day))
        } else if s == "hour"@ {
            Ok(Format::Date(DateUnit::Hour))
        } else if s == "minute"@ {
            Ok(Format::Date(DateUnit::Minute))
        } else {
            Err(usage())
        },
        Val::Tuple(items) => if items.len() == 2 && items[0] is Ident && items[1] is Number {
            let fam = items[0]->Ident_0;
            let n = items[1]->Number_0;
            if fam == "decimal"@ {
                match digit_count(n, 0) {
                    Some(d) => Ok(Format::Decimal(d as u8)),
                    None => Err(digits_message(fam, 0, "decimals"@)),
                }
            } else if fam == "significant"@ {
                match digit_count(n, 1) {
                    Some(d) => Ok(Format::Significant(d as u8)),
                    None => Err(digits_message(fam, 1, "digits"@)),
                }
            } else if fam == "scientific"@ {
                match digit_count(n, 0) {
                    Some(d) => Ok(Format::Scientific(d as u8)),
                    None => Err(digits_message(fam, 0, "decimals"@)),
                }
            } else if fam == "engineering"@ {
                match digit_count(n, 0) {
                    Some(d) => Ok(Format::Engineering(d as u8)),
                    None => Err(digits_message(fam, 0, "decimals"@)),
                }
            } else if fam == "percent"@ {
                match digit_count(n, 0) {
                    Some(d) => Ok(Format::Percent(d as u8)),
                    None => Err(digits_message(fam, 0, "decimals"@)),
                }
            } else if fam == "fraction"@ {
                match n.whole_value() {
                    Some(w) => if 2 <= w <= 1024 {
                        Ok(Format::Fraction(w as u32))
                    } else {
                        Err(fraction_message())
                    },
                    None => Err(fraction_message()),
                }
            } else {
                Err(usage())
            }
        } else {
            Err(usage())
        },
        _ => Err(usage()),
    }
}

/// Whether `r` is what [`format_of`] says of `v`, the error at `span`.
pub open spec fn parsed_as(r: Result<Format, Error>, v: Val, span: Span) -> bool {
    match r {
        Ok(f) => format_of(v) == Ok::<Format, Seq<char>>(f),
        Err(e) => format_of(v) == Err::<Format, Seq<char>>(e.message@) && e.span == span,
    }
}

/// A digit-count argument in `lo..=12`, or the family's message.
fn digits_arg(n: &Num, lo: u8, fam: &str, what: &str, span: Span) -> (r: Result<u8, Error>)
    requires
        lo <= 1,
    ensures
        match r {
            Ok(d) => digit_count(*n, lo as int) == Some(d as int),
            Err(e) => digit_count(*n, lo as int) is None && e.message@ == digits_message(
                fam@,
                lo as int,
                what@,
            ) && e.span == span,
        },
{
    match n.as_whole() {
        Some(w) => {
            if lo as i64 <= w && w <= 12 {
                return Ok(w as u8);
            }
        },
        None => {},
    }
    let mut msg = String::new();
    push_str(&mut msg, "'format: ");
    push_str(&mut msg, fam);
    push_str(&mut msg, " N' takes ");
    push_int(&mut msg, lo as i64);
    push_str(&mut msg, "..12 ");
    push_str(&mut msg, what);
    proof {
        assert(msg@ =~= digits_message(fam@, lo as int, what@));
    }
    Err(Error::with_message(span, msg))
}

/// Parse a `format:` value.
pub fn parse(v: &ResolvedValue, span: Span) -> (r: Result<Format, Error>)
    ensures
        parsed_as(r, v.deep(), span),
{
    match v {
        ResolvedValue::Ident(s) => {
            let s = s.as_str();
            if str_is(s, "auto") {
                Ok(Format::Auto)
            } else if str_is(s, "year") {
                Ok(Format::Date(DateUnit::Year))
            } else if str_is(s, "month") {
                Ok(Format::Date(DateUnit::Month))
            } else if str_is(s, "day") {
                Ok(Format::Date(DateUnit::Day))
            } else if str_is(s, "hour") {
                Ok(Format::Date(DateUnit::Hour))
            } else if str_is(s, "minute") {
                Ok(Format::Date(DateUnit::Minute))
            } else {
                Err(Error::at(span, usage_text()))
            }
        },
        ResolvedValue::Tuple(items) => {
            proof {
                crate::resolve::lemma_deep_seq(items@);
            }
            if items.len() == 2 {
                match (&items[0], &items[1]) {
                    (ResolvedValue::Ident(fam), ResolvedValue::Number(n)) => {
                        let f = fam.as_str();
                        if str_is(f, "decimal") {
                            match digits_arg(n, 0, f, "decimals", span) {
                                Ok(d) => Ok(Format::Decimal(d)),
                                Err(e) => Err(e),
                            }
                        } else if str_is(f, "significant") {
                            match digits_arg(n, 1, f, "digits", span) {
                                Ok(d) => Ok(Format::Significant(d)),
                                Err(e) => Err(e),
                            }
                        } else if str_is(f, "scientific") {
                            match digits_arg(n, 0, f, "decimals", span) {
                                Ok(d) => Ok(Format::Scientific(d)),
                                Err(e) => Err(e),
                            }
                        } else if str_is(f, "engineering") {
                            match digits_arg(n, 0, f, "decimals", span) {
                                Ok(d) => Ok(Format::Engineering(d)),
                                Err(e) => Err(e),
                            }
                        } else if str_is(f, "percent") {
                            match digits_arg(n, 0, f, "decimals", span) {
                                Ok(d) => Ok(Format::Percent(d)),
                                Err(e) => Err(e),
                            }
                        } else if str_is(f, "fraction") {
                            match n.as_whole() {
                                Some(w) => if 2 <= w && w <= 1024 {
                                    Ok(Format::Fraction(w as u32))
                                } else {
                                    Err(Error::at(span, "'format: fraction D' takes a whole denominator 2..1024"))
                                },
                                None => Err(Error::at(span, "'format: fraction D' takes a whole denominator 2..1024")),
                            }
                        } else {
                            Err(Error::at(span, usage_text()))
                        }
                    },
                    _ => Err(Error::at(span, usage_text())),
                }
            } else {
                Err(Error::at(span, usage_text()))
            }
        },
        _ => Err(Error::at(span, usage_text())),
    }
}

fn str_is(a: &str, b: &str) -> (r: bool)
    ensures
        r == (a@ == b@),
{
    crate::text::str_eq(a, b)
}

/// Read a node's `format:`, falling back to `default` — the cascade in one
/// read.
pub fn read_or(attrs: &AttrMap, default: Format, span: Span) -> (r: Result<Format, Error>)
    ensures
        match entry_lookup(attrs.entries@, "format"@) {
            None => r == Ok::<Format, Error>(default),
            Some(v) => parsed_as(r, v.deep(), span),
        },
{
    match attrs.get("format") {
        None => Ok(default),
        Some(v) => parse(v, span),
    }
}

/// The numeric reading of a **cascaded** format: a date preset speaks only
/// to time ticks — flowing onto a numeric consumer it says nothing (`Auto`).
pub fn numeric(f: Format) -> (r: Format)
    ensures
        r == (if f is Date { Format::Auto } else { f }),
{
    match f {
        Format::Date(_) => Format::Auto,
        _ => f,
    }
}

/// The date-preset gate: a date preset speaks only to a time axis, so
/// authored on a numeric consumer it errors.
pub fn reject_date(f: Format, span: Span) -> (r: Result<(), Error>)
    ensures
        r is Err <==> f is Date,
        r matches Err(e) ==> e.message@ == "a date preset reads a time axis"@ && e.span == span,
{
    match f {
        Format::Date(_) => Err(Error::at(span, "a date preset reads a time axis")),
        _ => Ok(()),
    }
}

/// The message when a one-shape series (`|line|` / `|area|`) carries a
/// per-datum paint list.
pub fn one_shape_paint(shape: &str) -> (s: String)
    ensures
        s@ == "a '|"@ + shape@ + "|' is one shape with one paint — per-datum lists read on '|bars|' / '|dots|'"@,
{
    let mut s = String::new();
    push_str(&mut s, "a '|");
    push_str(&mut s, shape);
    push_str(&mut s, "|' is one shape with one paint — per-datum lists read on '|bars|' / '|dots|'");
    proof {
        assert(s@ =~= "a '|"@ + shape@ + "|' is one shape with one paint — per-datum lists read on '|bars|' / '|dots|'"@);
    }
    s
}

/// The lowercase name of a date unit, as a preset word spells it.
pub open spec fn unit_name(u: DateUnit) -> Seq<char> {
    match u {
        DateUnit::Year => "year"@,
        DateUnit::Month => "month"@,
        DateUnit::Day => "day"@,
        DateUnit::Hour => "hour"@,
        DateUnit::Minute => "minute"@,
    }
}

/// Each date preset word reads as the unit it names, and a preset word
/// reads as a date unit only when it is that unit's name: the five presets
/// map one to one onto the five units.
pub proof fn law_date_presets_name_their_units(u: DateUnit, w: Seq<char>)
    ensures
        format_of(Val::Ident(unit_name(u))) == Ok::<Format, Seq<char>>(Format::Date(u)),
        format_of(Val::Ident(w)) == Ok::<Format, Seq<char>>(Format::Date(u)) ==> w == unit_name(u),
{
    reveal_strlit("auto");
    reveal_strlit("year");
    reveal_strlit("month");
    reveal_strlit("day");
    reveal_strlit("hour");
    reveal_strlit("minute");
    let y = "year"@;
    let mo = "month"@;
    let d = "day"@;
    let h = "hour"@;
    let mi = "minute"@;
    let a = "auto"@;
    assert(y != a && mo != a && d != a && h != a && mi != a) by {
        assert(y[0] != a[0] && mo[0] != a[0] && d[0] != a[0] && h[0] != a[0] && mi[0] != a[0]);
    }
    assert(mo != y && d != y && h != y && mi != y) by {
        assert(mo[0] != y[0] && d[0] != y[0] && h[0] != y[0] && mi[0] != y[0]);
    }
    assert(d != mo && h != mo && mi != mo) by {
        assert(d[0] != mo[0] && h[0] != mo[0] && mi[1] != mo[1]);
    }
    assert(h != d && mi != d) by {
        assert(h[0] != d[0] && mi[0] != d[0]);
    }
    assert(mi != h) by {
        assert(mi[0] != h[0]);
    }
    match u {
        DateUnit::Year => {},
        DateUnit::Month => {},
        DateUnit::Day => {},
        DateUnit::Hour => {},
        DateUnit::Minute => {},
    }
}

/// A `format:` pair `family N` for a number `N`.
pub open spec fn family_pair(family: Seq<char>, n: Num) -> Val {
    Val::Tuple(seq![Val::Ident(family), Val::Number(n)])
}

/// Each numeric family reads its count into its own format: `decimal`,
/// `scientific`, `engineering` and `percent` take a whole `0..=12`,
/// `significant` a whole `1..=12`, `fraction` a whole denominator
/// `2..=1024`, read as the whole `w` it is; any other count is refused.
/// `auto` reads as `Auto`.
pub proof fn law_format_families(n: Num, w: int)
    ensures
        format_of(Val::Ident("auto"@)) == Ok::<Format, Seq<char>>(Format::Auto),
        format_of(family_pair("decimal"@, n)) is Ok <==> (n.whole_value() is Some && 0 <= n.whole_value()->0 <= 12),
        format_of(family_pair("scientific"@, n)) is Ok <==> (n.whole_value() is Some && 0 <= n.whole_value()->0 <= 12),
        format_of(family_pair("engineering"@, n)) is Ok <==> (n.whole_value() is Some && 0 <= n.whole_value()->0 <= 12),
        format_of(family_pair("percent"@, n)) is Ok <==> (n.whole_value() is Some && 0 <= n.whole_value()->0 <= 12),
        format_of(family_pair("significant"@, n)) is Ok <==> (n.whole_value() is Some && 1 <= n.whole_value()->0 <= 12),
        format_of(family_pair("fraction"@, n)) is Ok <==> (n.whole_value() is Some && 2 <= n.whole_value()->0 <= 1024),
        n.whole_value() == Some(w) && 0 <= w <= 12 ==> {
            &&& format_of(family_pair("decimal"@, n)) == Ok::<Format, Seq<char>>(Format::Decimal(w as u8))
            &&& format_of(family_pair("scientific"@, n)) == Ok::<Format, Seq<char>>(Format::Scientific(w as u8))
            &&& format_of(family_pair("engineering"@, n)) == Ok::<Format, Seq<char>>(Format::Engineering(w as u8))
            &&& format_of(family_pair("percent"@, n)) == Ok::<Format, Seq<char>>(Format::Percent(w as u8))
        },
        n.whole_value() == Some(w) && 1 <= w <= 12 ==> format_of(family_pair("significant"@, n)) == Ok::<
            Format,
            Seq<char>,
        >(Format::Significant(w as u8)),
        n.whole_value() == Some(w) && 2 <= w <= 1024 ==> format_of(family_pair("fraction"@, n)) == Ok::<
            Format,
            Seq<char>,
        >(Format::Fraction(w as u32)),
{
    reveal_strlit("auto");
    reveal_strlit("decimal");
    reveal_strlit("significant");
    reveal_strlit("scientific");
    reveal_strlit("engineering");
    reveal_strlit("percent");
    reveal_strlit("fraction");
    let de = "decimal"@;
    let si = "significant"@;
    let sc = "scientific"@;
    let en = "engineering"@;
    let pe = "percent"@;
    let fr = "fraction"@;
    assert(si != de && sc != de && en != de && pe != de && fr != de) by {
        assert(si[0] != de[0] && sc[0] != de[0] && en[0] != de[0] && pe[0] != de[0] && fr[0] != de[0]);
    }
    assert(sc != si && en != si && pe != si && fr != si) by {
        assert(sc[1] != si[1] && en[0] != si[0] && pe[0] != si[0] && fr[0] != si[0]);
    }
    assert(en != sc && pe != sc && fr != sc) by {
        assert(en[0] != sc[0] && pe[0] != sc[0] && fr[0] != sc[0]);
    }
    assert(pe != en && fr != en) by {
        assert(pe[0] != en[0] && fr[0] != en[0]);
    }
    assert(fr != pe) by {
        assert(fr[0] != pe[0]);
    }
}

} // verus!
