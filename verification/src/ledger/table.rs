//! The property table without the deferral column — one row per property:
//! owners, value shape, default ref, inheritance, gate — with the same
//! classifiers over it.

pub use super::properties::{DefaultRef, Gate, Inherit, Kind, Owner, Shape};
use crate::text::str_eq;
use vstd::prelude::*;

verus! {

/// One property row. `text` marks the subset valid on a bare text leaf's own
/// `{ }`; `baked` the baked-spacing text props that compile into glyph /
/// line positions and are never live CSS.
#[derive(Debug)]
pub struct Property {
    pub name: &'static str,
    pub owners: Vec<Owner>,
    pub shape: Shape,
    pub default: DefaultRef,
    pub inherit: Inherit,
    pub text: bool,
    pub baked: bool,
    pub gate: Gate,
}

/// A property row as the contracts read it.
#[verifier::ext_equal]
pub struct PropertyRow {
    pub name: &'static str,
    pub owners: Seq<Owner>,
    pub shape: Shape,
    pub default: DefaultRef,
    pub inherit: Inherit,
    pub text: bool,
    pub baked: bool,
    pub gate: Gate,
}

impl View for Property {
    type V = PropertyRow;

    open spec fn view(&self) -> PropertyRow {
        PropertyRow {
            name: self.name,
            owners: self.owners@,
            shape: self.shape,
            default: self.default,
            inherit: self.inherit,
            text: self.text,
            baked: self.baked,
            gate: self.gate,
        }
    }
}

/// The number of rows in the table.
pub open spec fn ledger_len() -> nat {
    94
}

/// Row `i` of the table; every index past the last reads the last row.
pub open spec fn ledger_row(i: int) -> PropertyRow {
    if i == 0 {
        PropertyRow { name: "fill", owners: seq![Owner::Universal], shape: Shape::One(Kind::Paint), default: DefaultRef::Bundles, inherit: Inherit::No, text: true, baked: false, gate: Gate::Lenient }
    } else if i == 1 {
        PropertyRow { name: "opacity", owners: seq![Owner::Universal], shape: Shape::One(Kind::Number), default: DefaultRef::Engine, inherit: Inherit::No, text: true, baked: false, gate: Gate::Lenient }
    } else if i == 2 {
        PropertyRow { name: "stroke", owners: seq![Owner::Universal], shape: Shape::One(Kind::Paint), default: DefaultRef::Bundles, inherit: Inherit::No, text: false, baked: false, gate: Gate::Lenient }
    } else if i == 3 {
        PropertyRow { name: "stroke-width", owners: seq![Owner::Universal], shape: Shape::One(Kind::Number), default: DefaultRef::Bundles, inherit: Inherit::No, text: false, baked: false, gate: Gate::Lenient }
    } else if i == 4 {
        PropertyRow { name: "stroke-style", owners: seq![Owner::Universal], shape: Shape::One(Kind::Ident), default: DefaultRef::Bundles, inherit: Inherit::No, text: false, baked: false, gate: Gate::Lenient }
    } else if i == 5 {
        PropertyRow { name: "radius", owners: seq![Owner::Universal], shape: Shape::One(Kind::Number), default: DefaultRef::Bundles, inherit: Inherit::No, text: false, baked: false, gate: Gate::Lenient }
    } else if i == 6 {
        PropertyRow { name: "shadow", owners: seq![Owner::Universal], shape: Shape::One(Kind::Any), default: DefaultRef::Absent, inherit: Inherit::No, text: false, baked: false, gate: Gate::Lenient }
    } else if i == 7 {
        PropertyRow { name: "gap-fill", owners: seq![Owner::Layout("flow"), Owner::Layout("grid"), Owner::Layout("sequence")], shape: Shape::One(Kind::Paint), default: DefaultRef::Bundles, inherit: Inherit::No, text: false, baked: false, gate: Gate::Lenient }
    } else if i == 8 {
        PropertyRow { name: "font-family", owners: seq![Owner::Universal], shape: Shape::One(Kind::Any), default: DefaultRef::Engine, inherit: Inherit::Text, text: true, baked: false, gate: Gate::Lenient }
    } else if i == 9 {
        PropertyRow { name: "font-size", owners: seq![Owner::Universal], shape: Shape::One(Kind::Number), default: DefaultRef::Bundles, inherit: Inherit::Text, text: true, baked: true, gate: Gate::Lenient }
    } else if i == 10 {
        PropertyRow { name: "font-weight", owners: seq![Owner::Universal], shape: Shape::One(Kind::Ident), default: DefaultRef::Bundles, inherit: Inherit::Text, text: true, baked: false, gate: Gate::Lenient }
    } else if i == 11 {
        PropertyRow { name: "font-style", owners: seq![Owner::Universal], shape: Shape::One(Kind::Ident), default: DefaultRef::Engine, inherit: Inherit::Text, text: true, baked: false, gate: Gate::Lenient }
    } else if i == 12 {
        PropertyRow { name: "text-transform", owners: seq![Owner::Universal], shape: Shape::One(Kind::Ident), default: DefaultRef::Engine, inherit: Inherit::Text, text: true, baked: false, gate: Gate::Lenient }
    } else if i == 13 {
        PropertyRow { name: "text-decoration", owners: seq![Owner::Universal], shape: Shape::One(Kind::Ident), default: DefaultRef::Engine, inherit: Inherit::Text, text: true, baked: false, gate: Gate::Lenient }
    } else if i == 14 {
        PropertyRow { name: "text-shadow", owners: seq![Owner::Universal], shape: Shape::One(Kind::Any), default: DefaultRef::Absent, inherit: Inherit::Text, text: true, baked: false, gate: Gate::Lenient }
    } else if i == 15 {
        PropertyRow { name: "letter-spacing", owners: seq![Owner::Universal], shape: Shape::One(Kind::Number), default: DefaultRef::Engine, inherit: Inherit::Text, text: true, baked: true, gate: Gate::Lenient }
    } else if i == 16 {
        PropertyRow { name: "line-spacing", owners: seq![Owner::Universal], shape: Shape::One(Kind::Number), default: DefaultRef::Engine, inherit: Inherit::Text, text: true, baked: true, gate: Gate::Lenient }
    } else if i == 17 {
        PropertyRow { name: "color", owners: seq![Owner::Universal], shape: Shape::One(Kind::Colour), default: DefaultRef::Engine, inherit: Inherit::Text, text: true, baked: false, gate: Gate::Lenient }
    } else if i == 18 {
        PropertyRow { name: "width", owners: seq![Owner::Universal], shape: Shape::One(Kind::Any), default: DefaultRef::Engine, inherit: Inherit::No, text: false, baked: false, gate: Gate::Lenient }
    } else if i == 19 {
        PropertyRow { name: "height", owners: seq![Owner::Universal], shape: Shape::One(Kind::Any), default: DefaultRef::Engine, inherit: Inherit::No, text: false, baked: false, gate: Gate::Lenient }
    } else if i == 20 {
        PropertyRow { name: "padding", owners: seq![Owner::Universal], shape: Shape::One(Kind::Number), default: DefaultRef::Bundles, inherit: Inherit::No, text: false, baked: false, gate: Gate::Lenient }
    } else if i == 21 {
        PropertyRow { name: "pin", owners: seq![Owner::Universal], shape: Shape::One(Kind::Ident), default: DefaultRef::Engine, inherit: Inherit::No, text: false, baked: false, gate: Gate::Lenient }
    } else if i == 22 {
        PropertyRow { name: "translate", owners: seq![Owner::Universal], shape: Shape::One(Kind::Number), default: DefaultRef::Absent, inherit: Inherit::No, text: true, baked: false, gate: Gate::Lenient }
    } else if i == 23 {
        PropertyRow { name: "rotate", owners: seq![Owner::Universal], shape: Shape::One(Kind::Number), default: DefaultRef::Engine, inherit: Inherit::No, text: true, baked: false, gate: Gate::Lenient }
    } else if i == 24 {
        PropertyRow { name: "layer", owners: seq![Owner::Universal], shape: Shape::One(Kind::Number), default: DefaultRef::Engine, inherit: Inherit::No, text: true, baked: false, gate: Gate::Lenient }
    } else if i == 25 {
        PropertyRow { name: "scale", owners: seq![Owner::Universal, Owner::Type("axis")], shape: Shape::One(Kind::Any), default: DefaultRef::Bundles, inherit: Inherit::Engine, text: false, baked: false, gate: Gate::Lenient }
    } else if i == 26 {
        PropertyRow { name: "pattern", owners: seq![Owner::Universal], shape: Shape::Pattern, default: DefaultRef::Absent, inherit: Inherit::No, text: false, baked: false, gate: Gate::Lenient }
    } else if i == 27 {
        PropertyRow { name: "href", owners: seq![Owner::Universal, Owner::Link], shape: Shape::One(Kind::Str), default: DefaultRef::Absent, inherit: Inherit::No, text: false, baked: false, gate: Gate::Lenient }
    } else if i == 28 {
        PropertyRow { name: "hint", owners: seq![Owner::Universal], shape: Shape::One(Kind::Str), default: DefaultRef::Absent, inherit: Inherit::No, text: false, baked: false, gate: Gate::Lenient }
    } else if i == 29 {
        PropertyRow { name: "points", owners: seq![Owner::Type("line"), Owner::Type("poly")], shape: Shape::List(Kind::Number), default: DefaultRef::Absent, inherit: Inherit::No, text: false, baked: false, gate: Gate::Lenient }
    } else if i == 30 {
        PropertyRow { name: "samples", owners: seq![Owner::Type("line"), Owner::Type("poly"), Owner::Type("chart")], shape: Shape::One(Kind::Number), default: DefaultRef::Engine, inherit: Inherit::No, text: false, baked: false, gate: Gate::Lenient }
    } else if i == 31 {
        PropertyRow { name: "path", owners: seq![Owner::Type("path")], shape: Shape::One(Kind::Str), default: DefaultRef::Absent, inherit: Inherit::No, text: false, baked: false, gate: Gate::Lenient }
    } else if i == 32 {
        PropertyRow { name: "src", owners: seq![Owner::Type("image")], shape: Shape::One(Kind::Str), default: DefaultRef::Absent, inherit: Inherit::No, text: false, baked: false, gate: Gate::Lenient }
    } else if i == 33 {
        PropertyRow { name: "symbol", owners: seq![Owner::Type("icon")], shape: Shape::One(Kind::Ident), default: DefaultRef::Absent, inherit: Inherit::No, text: false, baked: false, gate: Gate::Lenient }
    } else if i == 34 {
        PropertyRow { name: "fit", owners: seq![Owner::Type("icon"), Owner::Type("image")], shape: Shape::One(Kind::Ident), default: DefaultRef::Bundles, inherit: Inherit::No, text: false, baked: false, gate: Gate::Lenient }
    } else if i == 35 {
        PropertyRow { name: "skew", owners: seq![Owner::Type("slant")], shape: Shape::One(Kind::Number), default: DefaultRef::Bundles, inherit: Inherit::No, text: false, baked: false, gate: Gate::Lenient }
    } else if i == 36 {
        PropertyRow { name: "stack", owners: seq![Owner::Role("closed")], shape: Shape::One(Kind::Number), default: DefaultRef::Absent, inherit: Inherit::No, text: false, baked: false, gate: Gate::Lenient }
    } else if i == 37 {
        PropertyRow { name: "marker", owners: seq![Owner::Type("line"), Owner::Type("mark"), Owner::Role("series"), Owner::Link], shape: Shape::One(Kind::Marker), default: DefaultRef::Engine, inherit: Inherit::No, text: false, baked: false, gate: Gate::Lenient }
    } else if i == 38 {
        PropertyRow { name: "marker-start", owners: seq![Owner::Type("line"), Owner::Type("mark"), Owner::Role("series"), Owner::Link], shape: Shape::One(Kind::Marker), default: DefaultRef::Engine, inherit: Inherit::No, text: false, baked: false, gate: Gate::Lenient }
    } else if i == 39 {
        PropertyRow { name: "marker-end", owners: seq![Owner::Type("line"), Owner::Type("mark"), Owner::Role("series"), Owner::Link], shape: Shape::One(Kind::Marker), default: DefaultRef::Engine, inherit: Inherit::No, text: false, baked: false, gate: Gate::Lenient }
    } else if i == 40 {
        PropertyRow { name: "draw", owners: seq![Owner::Type("sketch")], shape: Shape::Pen, default: DefaultRef::Absent, inherit: Inherit::No, text: false, baked: false, gate: Gate::Lenient }
    } else if i == 41 {
        PropertyRow { name: "mirror", owners: seq![Owner::Type("sketch")], shape: Shape::One(Kind::Any), default: DefaultRef::Absent, inherit: Inherit::No, text: false, baked: false, gate: Gate::Lenient }
    } else if i == 42 {
        PropertyRow { name: "revolve", owners: seq![Owner::Type("sketch")], shape: Shape::One(Kind::Ident), default: DefaultRef::Absent, inherit: Inherit::No, text: false, baked: false, gate: Gate::Lenient }
    } else if i == 43 {
        PropertyRow { name: "thread", owners: seq![Owner::Type("sketch"), Owner::Type("hole")], shape: Shape::List(Kind::Any), default: DefaultRef::Absent, inherit: Inherit::No, text: false, baked: false, gate: Gate::Lenient }
    } else if i == 44 {
        PropertyRow { name: "sheet", owners: seq![Owner::Type("page")], shape: Shape::One(Kind::Any), default: DefaultRef::Engine, inherit: Inherit::No, text: false, baked: false, gate: Gate::Lenient }
    } else if i == 45 {
        PropertyRow { name: "break", owners: seq![Owner::Type("sketch")], shape: Shape::List(Kind::Any), default: DefaultRef::Absent, inherit: Inherit::No, text: false, baked: false, gate: Gate::Lenient }
    } else if i == 46 {
        PropertyRow { name: "layout", owners: seq![Owner::Universal], shape: Shape::One(Kind::Ident), default: DefaultRef::Bundles, inherit: Inherit::No, text: false, baked: false, gate: Gate::Lenient }
    } else if i == 47 {
        PropertyRow { name: "direction", owners: seq![Owner::Layout("flow"), Owner::Layout("chart")], shape: Shape::One(Kind::Ident), default: DefaultRef::Engine, inherit: Inherit::No, text: false, baked: false, gate: Gate::Lenient }
    } else if i == 48 {
        PropertyRow { name: "gap", owners: seq![Owner::Layout("flow"), Owner::Layout("grid"), Owner::Layout("sequence"), Owner::Layout("chart"), Owner::Layout("pie"), Owner::Role("dimension"), Owner::Role("mate")], shape: Shape::One(Kind::Number), default: DefaultRef::Bundles, inherit: Inherit::No, text: false, baked: false, gate: Gate::Lenient }
    } else if i == 49 {
        PropertyRow { name: "align", owners: seq![Owner::Layout("flow"), Owner::Layout("grid")], shape: Shape::List(Kind::Ident), default: DefaultRef::Bundles, inherit: Inherit::No, text: false, baked: false, gate: Gate::Lenient }
    } else if i == 50 {
        PropertyRow { name: "justify", owners: seq![Owner::Layout("flow"), Owner::Layout("grid")], shape: Shape::List(Kind::Ident), default: DefaultRef::Bundles, inherit: Inherit::No, text: false, baked: false, gate: Gate::Lenient }
    } else if i == 51 {
        PropertyRow { name: "columns", owners: seq![Owner::Layout("grid")], shape: Shape::List(Kind::Track), default: DefaultRef::Bundles, inherit: Inherit::No, text: false, baked: false, gate: Gate::Lenient }
    } else if i == 52 {
        PropertyRow { name: "rows", owners: seq![Owner::Layout("grid")], shape: Shape::List(Kind::Track), default: DefaultRef::Absent, inherit: Inherit::No, text: false, baked: false, gate: Gate::Lenient }
    } else if i == 53 {
        PropertyRow { name: "cell", owners: seq![Owner::Layout("grid")], shape: Shape::One(Kind::Number), default: DefaultRef::Absent, inherit: Inherit::No, text: false, baked: false, gate: Gate::Lenient }
    } else if i == 54 {
        PropertyRow { name: "span", owners: seq![Owner::Layout("grid"), Owner::Type("band")], shape: Shape::One(Kind::Number), default: DefaultRef::Absent, inherit: Inherit::No, text: false, baked: false, gate: Gate::Lenient }
    } else if i == 55 {
        PropertyRow { name: "data", owners: seq![Owner::Role("series")], shape: Shape::List(Kind::Number), default: DefaultRef::Absent, inherit: Inherit::No, text: false, baked: false, gate: Gate::Lenient }
    } else if i == 56 {
        PropertyRow { name: "fn", owners: seq![Owner::Role("series")], shape: Shape::List(Kind::Any), default: DefaultRef::Absent, inherit: Inherit::No, text: false, baked: false, gate: Gate::Lenient }
    } else if i == 57 {
        PropertyRow { name: "labels", owners: seq![Owner::Role("series")], shape: Shape::List(Kind::Str), default: DefaultRef::Absent, inherit: Inherit::No, text: false, baked: false, gate: Gate::Lenient }
    } else if i == 58 {
        PropertyRow { name: "curve", owners: seq![Owner::Type("line"), Owner::Type("area")], shape: Shape::One(Kind::Ident), default: DefaultRef::Engine, inherit: Inherit::No, text: false, baked: false, gate: Gate::Lenient }
    } else if i == 59 {
        PropertyRow { name: "baseline", owners: seq![Owner::Type("area")], shape: Shape::One(Kind::Number), default: DefaultRef::Engine, inherit: Inherit::No, text: false, baked: false, gate: Gate::Lenient }
    } else if i == 60 {
        PropertyRow { name: "axis", owners: seq![Owner::Role("series"), Owner::Type("mark"), Owner::Type("band")], shape: Shape::One(Kind::Ident), default: DefaultRef::Absent, inherit: Inherit::No, text: false, baked: false, gate: Gate::Lenient }
    } else if i == 61 {
        PropertyRow { name: "bars", owners: seq![Owner::Type("chart")], shape: Shape::One(Kind::Ident), default: DefaultRef::Engine, inherit: Inherit::No, text: false, baked: false, gate: Gate::Lenient }
    } else if i == 62 {
        PropertyRow { name: "categories", owners: seq![Owner::Type("chart")], shape: Shape::List(Kind::Str), default: DefaultRef::Engine, inherit: Inherit::No, text: false, baked: false, gate: Gate::Lenient }
    } else if i == 63 {
        PropertyRow { name: "hole", owners: seq![Owner::Type("pie")], shape: Shape::One(Kind::Number), default: DefaultRef::Engine, inherit: Inherit::No, text: false, baked: false, gate: Gate::Lenient }
    } else if i == 64 {
        PropertyRow { name: "legend", owners: seq![Owner::Type("chart"), Owner::Type("pie")], shape: Shape::One(Kind::Any), default: DefaultRef::Engine, inherit: Inherit::No, text: false, baked: false, gate: Gate::Lenient }
    } else if i == 65 {
        PropertyRow { name: "tooltip", owners: seq![Owner::Type("chart"), Owner::Type("pie"), Owner::Role("series")], shape: Shape::One(Kind::Any), default: DefaultRef::Engine, inherit: Inherit::No, text: false, baked: false, gate: Gate::Lenient }
    } else if i == 66 {
        PropertyRow { name: "value", owners: seq![Owner::Type("slice"), Owner::Type("bubble")], shape: Shape::One(Kind::Number), default: DefaultRef::Absent, inherit: Inherit::No, text: false, baked: false, gate: Gate::Lenient }
    } else if i == 67 {
        PropertyRow { name: "at", owners: seq![Owner::Type("mark"), Owner::Type("bubble"), Owner::Type("plane")], shape: Shape::One(Kind::Any), default: DefaultRef::Absent, inherit: Inherit::No, text: false, baked: false, gate: Gate::Lenient }
    } else if i == 68 {
        PropertyRow { name: "side", owners: seq![Owner::Type("axis"), Owner::Role("dimension")], shape: Shape::One(Kind::Ident), default: DefaultRef::Engine, inherit: Inherit::No, text: false, baked: false, gate: Gate::Lenient }
    } else if i == 69 {
        PropertyRow { name: "range", owners: seq![Owner::Type("axis")], shape: Shape::One(Kind::Number), default: DefaultRef::Absent, inherit: Inherit::No, text: false, baked: false, gate: Gate::Lenient }
    } else if i == 70 {
        PropertyRow { name: "step", owners: seq![Owner::Type("axis")], shape: Shape::One(Kind::Number), default: DefaultRef::Absent, inherit: Inherit::No, text: false, baked: false, gate: Gate::Lenient }
    } else if i == 71 {
        PropertyRow { name: "ticks", owners: seq![Owner::Type("axis")], shape: Shape::List(Kind::Number), default: DefaultRef::Absent, inherit: Inherit::No, text: false, baked: false, gate: Gate::Lenient }
    } else if i == 72 {
        PropertyRow { name: "unit", owners: seq![Owner::Type("drawing"), Owner::Type("axis")], shape: Shape::One(Kind::Any), default: DefaultRef::Absent, inherit: Inherit::No, text: false, baked: false, gate: Gate::Lenient }
    } else if i == 73 {
        PropertyRow { name: "gridlines", owners: seq![Owner::Type("axis")], shape: Shape::One(Kind::Any), default: DefaultRef::Engine, inherit: Inherit::No, text: false, baked: false, gate: Gate::Lenient }
    } else if i == 74 {
        PropertyRow { name: "place", owners: seq![Owner::Type("note")], shape: Shape::One(Kind::Any), default: DefaultRef::Absent, inherit: Inherit::No, text: false, baked: false, gate: Gate::Hard }
    } else if i == 75 {
        PropertyRow { name: "activation", owners: seq![Owner::Layout("sequence")], shape: Shape::One(Kind::Ident), default: DefaultRef::Engine, inherit: Inherit::No, text: false, baked: false, gate: Gate::Hard }
    } else if i == 76 {
        PropertyRow { name: "tol", owners: seq![Owner::Role("dimension")], shape: Shape::One(Kind::Any), default: DefaultRef::Absent, inherit: Inherit::No, text: false, baked: false, gate: Gate::Hard }
    } else if i == 77 {
        PropertyRow { name: "facing", owners: seq![Owner::Type("plane")], shape: Shape::One(Kind::Ident), default: DefaultRef::Engine, inherit: Inherit::No, text: false, baked: false, gate: Gate::Lenient }
    } else if i == 78 {
        PropertyRow { name: "of", owners: seq![Owner::Type("drawing")], shape: Shape::One(Kind::Ident), default: DefaultRef::Absent, inherit: Inherit::No, text: false, baked: false, gate: Gate::Lenient }
    } else if i == 79 {
        PropertyRow { name: "title", owners: seq![Owner::Role("title-block")], shape: Shape::One(Kind::Str), default: DefaultRef::Absent, inherit: Inherit::No, text: false, baked: false, gate: Gate::Lenient }
    } else if i == 80 {
        PropertyRow { name: "drawing-number", owners: seq![Owner::Role("title-block")], shape: Shape::One(Kind::Str), default: DefaultRef::Absent, inherit: Inherit::No, text: false, baked: false, gate: Gate::Lenient }
    } else if i == 81 {
        PropertyRow { name: "revision", owners: seq![Owner::Role("title-block")], shape: Shape::One(Kind::Str), default: DefaultRef::Absent, inherit: Inherit::No, text: false, baked: false, gate: Gate::Lenient }
    } else if i == 82 {
        PropertyRow { name: "sheet-number", owners: seq![Owner::Role("title-block")], shape: Shape::One(Kind::Str), default: DefaultRef::Absent, inherit: Inherit::No, text: false, baked: false, gate: Gate::Lenient }
    } else if i == 83 {
        PropertyRow { name: "date", owners: seq![Owner::Role("title-block")], shape: Shape::One(Kind::Str), default: DefaultRef::Absent, inherit: Inherit::No, text: false, baked: false, gate: Gate::Lenient }
    } else if i == 84 {
        PropertyRow { name: "author", owners: seq![Owner::Role("title-block")], shape: Shape::One(Kind::Str), default: DefaultRef::Absent, inherit: Inherit::No, text: false, baked: false, gate: Gate::Lenient }
    } else if i == 85 {
        PropertyRow { name: "approved", owners: seq![Owner::Role("title-block")], shape: Shape::One(Kind::Str), default: DefaultRef::Absent, inherit: Inherit::No, text: false, baked: false, gate: Gate::Lenient }
    } else if i == 86 {
        PropertyRow { name: "department", owners: seq![Owner::Role("title-block")], shape: Shape::One(Kind::Str), default: DefaultRef::Absent, inherit: Inherit::No, text: false, baked: false, gate: Gate::Lenient }
    } else if i == 87 {
        PropertyRow { name: "reference", owners: seq![Owner::Role("title-block")], shape: Shape::One(Kind::Str), default: DefaultRef::Absent, inherit: Inherit::No, text: false, baked: false, gate: Gate::Lenient }
    } else if i == 88 {
        PropertyRow { name: "document-type", owners: seq![Owner::Role("title-block")], shape: Shape::One(Kind::Str), default: DefaultRef::Absent, inherit: Inherit::No, text: false, baked: false, gate: Gate::Lenient }
    } else if i == 89 {
        PropertyRow { name: "status", owners: seq![Owner::Role("title-block")], shape: Shape::One(Kind::Str), default: DefaultRef::Absent, inherit: Inherit::No, text: false, baked: false, gate: Gate::Lenient }
    } else if i == 90 {
        PropertyRow { name: "density", owners: seq![Owner::Root], shape: Shape::One(Kind::Number), default: DefaultRef::Engine, inherit: Inherit::No, text: false, baked: false, gate: Gate::Lenient }
    } else if i == 91 {
        PropertyRow { name: "clearance", owners: seq![Owner::Link, Owner::Root], shape: Shape::One(Kind::Number), default: DefaultRef::Bundles, inherit: Inherit::ScopeLink, text: false, baked: false, gate: Gate::Lenient }
    } else if i == 92 {
        PropertyRow { name: "routing", owners: seq![Owner::Link, Owner::Root], shape: Shape::One(Kind::Ident), default: DefaultRef::Engine, inherit: Inherit::ScopeLink, text: false, baked: false, gate: Gate::Lenient }
    } else {
        PropertyRow { name: "along", owners: seq![Owner::Link], shape: Shape::List(Kind::Number), default: DefaultRef::Engine, inherit: Inherit::No, text: false, baked: false, gate: Gate::Lenient }
    }
}

/// Every property, grouped by topic. Row order fixes the derived
/// iterators ([`inherited_text`], [`scope_link_props`]).
pub open spec fn ledger() -> Seq<PropertyRow> {
    Seq::new(ledger_len(), |i: int| ledger_row(i))
}

/// Row `i` of the table.
fn row(i: usize) -> (p: Property)
    requires
        i < ledger_len(),
    ensures
        p@ =~= ledger_row(i as int),
{
    match i {
        0 => Property { name: "fill", owners: vec![Owner::Universal], shape: Shape::One(Kind::Paint), default: DefaultRef::Bundles, inherit: Inherit::No, text: true, baked: false, gate: Gate::Lenient },
        1 => Property { name: "opacity", owners: vec![Owner::Universal], shape: Shape::One(Kind::Number), default: DefaultRef::Engine, inherit: Inherit::No, text: true, baked: false, gate: Gate::Lenient },
        2 => Property { name: "stroke", owners: vec![Owner::Universal], shape: Shape::One(Kind::Paint), default: DefaultRef::Bundles, inherit: Inherit::No, text: false, baked: false, gate: Gate::Lenient },
        3 => Property { name: "stroke-width", owners: vec![Owner::Universal], shape: Shape::One(Kind::Number), default: DefaultRef::Bundles, inherit: Inherit::No, text: false, baked: false, gate: Gate::Lenient },
        4 => Property { name: "stroke-style", owners: vec![Owner::Universal], shape: Shape::One(Kind::Ident), default: DefaultRef::Bundles, inherit: Inherit::No, text: false, baked: false, gate: Gate::Lenient },
        5 => Property { name: "radius", owners: vec![Owner::Universal], shape: Shape::One(Kind::Number), default: DefaultRef::Bundles, inherit: Inherit::No, text: false, baked: false, gate: Gate::Lenient },
        6 => Property { name: "shadow", owners: vec![Owner::Universal], shape: Shape::One(Kind::Any), default: DefaultRef::Absent, inherit: Inherit::No, text: false, baked: false, gate: Gate::Lenient },
        7 => Property { name: "gap-fill", owners: vec![Owner::Layout("flow"), Owner::Layout("grid"), Owner::Layout("sequence")], shape: Shape::One(Kind::Paint), default: DefaultRef::Bundles, inherit: Inherit::No, text: false, baked: false, gate: Gate::Lenient },
        8 => Property { name: "font-family", owners: vec![Owner::Universal], shape: Shape::One(Kind::Any), default: DefaultRef::Engine, inherit: Inherit::Text, text: true, baked: false, gate: Gate::Lenient },
        9 => Property { name: "font-size", owners: vec![Owner::Universal], shape: Shape::One(Kind::Number), default: DefaultRef::Bundles, inherit: Inherit::Text, text: true, baked: true, gate: Gate::Lenient },
        10 => Property { name: "font-weight", owners: vec![Owner::Universal], shape: Shape::One(Kind::Ident), default: DefaultRef::Bundles, inherit: Inherit::Text, text: true, baked: false, gate: Gate::Lenient },
        11 => Property { name: "font-style", owners: vec![Owner::Universal], shape: Shape::One(Kind::Ident), default: DefaultRef::Engine, inherit: Inherit::Text, text: true, baked: false, gate: Gate::Lenient },
        12 => Property { name: "text-transform", owners: vec![Owner::Universal], shape: Shape::One(Kind::Ident), default: DefaultRef::Engine, inherit: Inherit::Text, text: true, baked: false, gate: Gate::Lenient },
        13 => Property { name: "text-decoration", owners: vec![Owner::Universal], shape: Shape::One(Kind::Ident), default: DefaultRef::Engine, inherit: Inherit::Text, text: true, baked: false, gate: Gate::Lenient },
        14 => Property { name: "text-shadow", owners: vec![Owner::Universal], shape: Shape::One(Kind::Any), default: DefaultRef::Absent, inherit: Inherit::Text, text: true, baked: false, gate: Gate::Lenient },
        15 => Property { name: "letter-spacing", owners: vec![Owner::Universal], shape: Shape::One(Kind::Number), default: DefaultRef::Engine, inherit: Inherit::Text, text: true, baked: true, gate: Gate::Lenient },
        16 => Property { name: "line-spacing", owners: vec![Owner::Universal], shape: Shape::One(Kind::Number), default: DefaultRef::Engine, inherit: Inherit::Text, text: true, baked: true, gate: Gate::Lenient },
        17 => Property { name: "color", owners: vec![Owner::Universal], shape: Shape::One(Kind::Colour), default: DefaultRef::Engine, inherit: Inherit::Text, text: true, baked: false, gate: Gate::Lenient },
        18 => Property { name: "width", owners: vec![Owner::Universal], shape: Shape::One(Kind::Any), default: DefaultRef::Engine, inherit: Inherit::No, text: false, baked: false, gate: Gate::Lenient },
        19 => Property { name: "height", owners: vec![Owner::Universal], shape: Shape::One(Kind::Any), default: DefaultRef::Engine, inherit: Inherit::No, text: false, baked: false, gate: Gate::Lenient },
        20 => Property { name: "padding", owners: vec![Owner::Universal], shape: Shape::One(Kind::Number), default: DefaultRef::Bundles, inherit: Inherit::No, text: false, baked: false, gate: Gate::Lenient },
        21 => Property { name: "pin", owners: vec![Owner::Universal], shape: Shape::One(Kind::Ident), default: DefaultRef::Engine, inherit: Inherit::No, text: false, baked: false, gate: Gate::Lenient },
        22 => Property { name: "translate", owners: vec![Owner::Universal], shape: Shape::One(Kind::Number), default: DefaultRef::Absent, inherit: Inherit::No, text: true, baked: false, gate: Gate::Lenient },
        23 => Property { name: "rotate", owners: vec![Owner::Universal], shape: Shape::One(Kind::Number), default: DefaultRef::Engine, inherit: Inherit::No, text: true, baked: false, gate: Gate::Lenient },
        24 => Property { name: "layer", owners: vec![Owner::Universal], shape: Shape::One(Kind::Number), default: DefaultRef::Engine, inherit: Inherit::No, text: true, baked: false, gate: Gate::Lenient },
        25 => Property { name: "scale", owners: vec![Owner::Universal, Owner::Type("axis")], shape: Shape::One(Kind::Any), default: DefaultRef::Bundles, inherit: Inherit::Engine, text: false, baked: false, gate: Gate::Lenient },
        26 => Property { name: "pattern", owners: vec![Owner::Universal], shape: Shape::Pattern, default: DefaultRef::Absent, inherit: Inherit::No, text: false, baked: false, gate: Gate::Lenient },
        27 => Property { name: "href", owners: vec![Owner::Universal, Owner::Link], shape: Shape::One(Kind::Str), default: DefaultRef::Absent, inherit: Inherit::No, text: false, baked: false, gate: Gate::Lenient },
        28 => Property { name: "hint", owners: vec![Owner::Universal], shape: Shape::One(Kind::Str), default: DefaultRef::Absent, inherit: Inherit::No, text: false, baked: false, gate: Gate::Lenient },
        29 => Property { name: "points", owners: vec![Owner::Type("line"), Owner::Type("poly")], shape: Shape::List(Kind::Number), default: DefaultRef::Absent, inherit: Inherit::No, text: false, baked: false, gate: Gate::Lenient },
        30 => Property { name: "samples", owners: vec![Owner::Type("line"), Owner::Type("poly"), Owner::Type("chart")], shape: Shape::One(Kind::Number), default: DefaultRef::Engine, inherit: Inherit::No, text: false, baked: false, gate: Gate::Lenient },
        31 => Property { name: "path", owners: vec![Owner::Type("path")], shape: Shape::One(Kind::Str), default: DefaultRef::Absent, inherit: Inherit::No, text: false, baked: false, gate: Gate::Lenient },
        32 => Property { name: "src", owners: vec![Owner::Type("image")], shape: Shape::One(Kind::Str), default: DefaultRef::Absent, inherit: Inherit::No, text: false, baked: false, gate: Gate::Lenient },
        33 => Property { name: "symbol", owners: vec![Owner::Type("icon")], shape: Shape::One(Kind::Ident), default: DefaultRef::Absent, inherit: Inherit::No, text: false, baked: false, gate: Gate::Lenient },
        34 => Property { name: "fit", owners: vec![Owner::Type("icon"), Owner::Type("image")], shape: Shape::One(Kind::Ident), default: DefaultRef::Bundles, inherit: Inherit::No, text: false, baked: false, gate: Gate::Lenient },
        35 => Property { name: "skew", owners: vec![Owner::Type("slant")], shape: Shape::One(Kind::Number), default: DefaultRef::Bundles, inherit: Inherit::No, text: false, baked: false, gate: Gate::Lenient },
        36 => Property { name: "stack", owners: vec![Owner::Role("closed")], shape: Shape::One(Kind::Number), default: DefaultRef::Absent, inherit: Inherit::No, text: false, baked: false, gate: Gate::Lenient },
        37 => Property { name: "marker", owners: vec![Owner::Type("line"), Owner::Type("mark"), Owner::Role("series"), Owner::Link], shape: Shape::One(Kind::Marker), default: DefaultRef::Engine, inherit: Inherit::No, text: false, baked: false, gate: Gate::Lenient },
        38 => Property { name: "marker-start", owners: vec![Owner::Type("line"), Owner::Type("mark"), Owner::Role("series"), Owner::Link], shape: Shape::One(Kind::Marker), default: DefaultRef::Engine, inherit: Inherit::No, text: false, baked: false, gate: Gate::Lenient },
        39 => Property { name: "marker-end", owners: vec![Owner::Type("line"), Owner::Type("mark"), Owner::Role("series"), Owner::Link], shape: Shape::One(Kind::Marker), default: DefaultRef::Engine, inherit: Inherit::No, text: false, baked: false, gate: Gate::Lenient },
        40 => Property { name: "draw", owners: vec![Owner::Type("sketch")], shape: Shape::Pen, default: DefaultRef::Absent, inherit: Inherit::No, text: false, baked: false, gate: Gate::Lenient },
        41 => Property { name: "mirror", owners: vec![Owner::Type("sketch")], shape: Shape::One(Kind::Any), default: DefaultRef::Absent, inherit: Inherit::No, text: false, baked: false, gate: Gate::Lenient },
        42 => Property { name: "revolve", owners: vec![Owner::Type("sketch")], shape: Shape::One(Kind::Ident), default: DefaultRef::Absent, inherit: Inherit::No, text: false, baked: false, gate: Gate::Lenient },
        43 => Property { name: "thread", owners: vec![Owner::Type("sketch"), Owner::Type("hole")], shape: Shape::List(Kind::Any), default: DefaultRef::Absent, inherit: Inherit::No, text: false, baked: false, gate: Gate::Lenient },
        44 => Property { name: "sheet", owners: vec![Owner::Type("page")], shape: Shape::One(Kind::Any), default: DefaultRef::Engine, inherit: Inherit::No, text: false, baked: false, gate: Gate::Lenient },
        45 => Property { name: "break", owners: vec![Owner::Type("sketch")], shape: Shape::List(Kind::Any), default: DefaultRef::Absent, inherit: Inherit::No, text: false, baked: false, gate: Gate::Lenient },
        46 => Property { name: "layout", owners: vec![Owner::Universal], shape: Shape::One(Kind::Ident), default: DefaultRef::Bundles, inherit: Inherit::No, text: false, baked: false, gate: Gate::Lenient },
        47 => Property { name: "direction", owners: vec![Owner::Layout("flow"), Owner::Layout("chart")], shape: Shape::One(Kind::Ident), default: DefaultRef::Engine, inherit: Inherit::No, text: false, baked: false, gate: Gate::Lenient },
        48 => Property { name: "gap", owners: vec![Owner::Layout("flow"), Owner::Layout("grid"), Owner::Layout("sequence"), Owner::Layout("chart"), Owner::Layout("pie"), Owner::Role("dimension"), Owner::Role("mate")], shape: Shape::One(Kind::Number), default: DefaultRef::Bundles, inherit: Inherit::No, text: false, baked: false, gate: Gate::Lenient },
        49 => Property { name: "align", owners: vec![Owner::Layout("flow"), Owner::Layout("grid")], shape: Shape::List(Kind::Ident), default: DefaultRef::Bundles, inherit: Inherit::No, text: false, baked: false, gate: Gate::Lenient },
        50 => Property { name: "justify", owners: vec![Owner::Layout("flow"), Owner::Layout("grid")], shape: Shape::List(Kind::Ident), default: DefaultRef::Bundles, inherit: Inherit::No, text: false, baked: false, gate: Gate::Lenient },
        51 => Property { name: "columns", owners: vec![Owner::Layout("grid")], shape: Shape::List(Kind::Track), default: DefaultRef::Bundles, inherit: Inherit::No, text: false, baked: false, gate: Gate::Lenient },
        52 => Property { name: "rows", owners: vec![Owner::Layout("grid")], shape: Shape::List(Kind::Track), default: DefaultRef::Absent, inherit: Inherit::No, text: false, baked: false, gate: Gate::Lenient },
        53 => Property { name: "cell", owners: vec![Owner::Layout("grid")], shape: Shape::One(Kind::Number), default: DefaultRef::Absent, inherit: Inherit::No, text: false, baked: false, gate: Gate::Lenient },
        54 => Property { name: "span", owners: vec![Owner::Layout("grid"), Owner::Type("band")], shape: Shape::One(Kind::Number), default: DefaultRef::Absent, inherit: Inherit::No, text: false, baked: false, gate: Gate::Lenient },
        55 => Property { name: "data", owners: vec![Owner::Role("series")], shape: Shape::List(Kind::Number), default: DefaultRef::Absent, inherit: Inherit::No, text: false, baked: false, gate: Gate::Lenient },
        56 => Property { name: "fn", owners: vec![Owner::Role("series")], shape: Shape::List(Kind::Any), default: DefaultRef::Absent, inherit: Inherit::No, text: false, baked: false, gate: Gate::Lenient },
        57 => Property { name: "labels", owners: vec![Owner::Role("series")], shape: Shape::List(Kind::Str), default: DefaultRef::Absent, inherit: Inherit::No, text: false, baked: false, gate: Gate::Lenient },
        58 => Property { name: "curve", owners: vec![Owner::Type("line"), Owner::Type("area")], shape: Shape::One(Kind::Ident), default: DefaultRef::Engine, inherit: Inherit::No, text: false, baked: false, gate: Gate::Lenient },
        59 => Property { name: "baseline", owners: vec![Owner::Type("area")], shape: Shape::One(Kind::Number), default: DefaultRef::Engine, inherit: Inherit::No, text: false, baked: false, gate: Gate::Lenient },
        60 => Property { name: "axis", owners: vec![Owner::Role("series"), Owner::Type("mark"), Owner::Type("band")], shape: Shape::One(Kind::Ident), default: DefaultRef::Absent, inherit: Inherit::No, text: false, baked: false, gate: Gate::Lenient },
        61 => Property { name: "bars", owners: vec![Owner::Type("chart")], shape: Shape::One(Kind::Ident), default: DefaultRef::Engine, inherit: Inherit::No, text: false, baked: false, gate: Gate::Lenient },
        62 => Property { name: "categories", owners: vec![Owner::Type("chart")], shape: Shape::List(Kind::Str), default: DefaultRef::Engine, inherit: Inherit::No, text: false, baked: false, gate: Gate::Lenient },
        63 => Property { name: "hole", owners: vec![Owner::Type("pie")], shape: Shape::One(Kind::Number), default: DefaultRef::Engine, inherit: Inherit::No, text: false, baked: false, gate: Gate::Lenient },
        64 => Property { name: "legend", owners: vec![Owner::Type("chart"), Owner::Type("pie")], shape: Shape::One(Kind::Any), default: DefaultRef::Engine, inherit: Inherit::No, text: false, baked: false, gate: Gate::Lenient },
        65 => Property { name: "tooltip", owners: vec![Owner::Type("chart"), Owner::Type("pie"), Owner::Role("series")], shape: Shape::One(Kind::Any), default: DefaultRef::Engine, inherit: Inherit::No, text: false, baked: false, gate: Gate::Lenient },
        66 => Property { name: "value", owners: vec![Owner::Type("slice"), Owner::Type("bubble")], shape: Shape::One(Kind::Number), default: DefaultRef::Absent, inherit: Inherit::No, text: false, baked: false, gate: Gate::Lenient },
        67 => Property { name: "at", owners: vec![Owner::Type("mark"), Owner::Type("bubble"), Owner::Type("plane")], shape: Shape::One(Kind::Any), default: DefaultRef::Absent, inherit: Inherit::No, text: false, baked: false, gate: Gate::Lenient },
        68 => Property { name: "side", owners: vec![Owner::Type("axis"), Owner::Role("dimension")], shape: Shape::One(Kind::Ident), default: DefaultRef::Engine, inherit: Inherit::No, text: false, baked: false, gate: Gate::Lenient },
        69 => Property { name: "range", owners: vec![Owner::Type("axis")], shape: Shape::One(Kind::Number), default: DefaultRef::Absent, inherit: Inherit::No, text: false, baked: false, gate: Gate::Lenient },
        70 => Property { name: "step", owners: vec![Owner::Type("axis")], shape: Shape::One(Kind::Number), default: DefaultRef::Absent, inherit: Inherit::No, text: false, baked: false, gate: Gate::Lenient },
        71 => Property { name: "ticks", owners: vec![Owner::Type("axis")], shape: Shape::List(Kind::Number), default: DefaultRef::Absent, inherit: Inherit::No, text: false, baked: false, gate: Gate::Lenient },
        72 => Property { name: "unit", owners: vec![Owner::Type("drawing"), Owner::Type("axis")], shape: Shape::One(Kind::Any), default: DefaultRef::Absent, inherit: Inherit::No, text: false, baked: false, gate: Gate::Lenient },
        73 => Property { name: "gridlines", owners: vec![Owner::Type("axis")], shape: Shape::One(Kind::Any), default: DefaultRef::Engine, inherit: Inherit::No, text: false, baked: false, gate: Gate::Lenient },
        74 => Property { name: "place", owners: vec![Owner::Type("note")], shape: Shape::One(Kind::Any), default: DefaultRef::Absent, inherit: Inherit::No, text: false, baked: false, gate: Gate::Hard },
        75 => Property { name: "activation", owners: vec![Owner::Layout("sequence")], shape: Shape::One(Kind::Ident), default: DefaultRef::Engine, inherit: Inherit::No, text: false, baked: false, gate: Gate::Hard },
        76 => Property { name: "tol", owners: vec![Owner::Role("dimension")], shape: Shape::One(Kind::Any), default: DefaultRef::Absent, inherit: Inherit::No, text: false, baked: false, gate: Gate::Hard },
        77 => Property { name: "facing", owners: vec![Owner::Type("plane")], shape: Shape::One(Kind::Ident), default: DefaultRef::Engine, inherit: Inherit::No, text: false, baked: false, gate: Gate::Lenient },
        78 => Property { name: "of", owners: vec![Owner::Type("drawing")], shape: Shape::One(Kind::Ident), default: DefaultRef::Absent, inherit: Inherit::No, text: false, baked: false, gate: Gate::Lenient },
        79 => Property { name: "title", owners: vec![Owner::Role("title-block")], shape: Shape::One(Kind::Str), default: DefaultRef::Absent, inherit: Inherit::No, text: false, baked: false, gate: Gate::Lenient },
        80 => Property { name: "drawing-number", owners: vec![Owner::Role("title-block")], shape: Shape::One(Kind::Str), default: DefaultRef::Absent, inherit: Inherit::No, text: false, baked: false, gate: Gate::Lenient },
        81 => Property { name: "revision", owners: vec![Owner::Role("title-block")], shape: Shape::One(Kind::Str), default: DefaultRef::Absent, inherit: Inherit::No, text: false, baked: false, gate: Gate::Lenient },
        82 => Property { name: "sheet-number", owners: vec![Owner::Role("title-block")], shape: Shape::One(Kind::Str), default: DefaultRef::Absent, inherit: Inherit::No, text: false, baked: false, gate: Gate::Lenient },
        83 => Property { name: "date", owners: vec![Owner::Role("title-block")], shape: Shape::One(Kind::Str), default: DefaultRef::Absent, inherit: Inherit::No, text: false, baked: false, gate: Gate::Lenient },
        84 => Property { name: "author", owners: vec![Owner::Role("title-block")], shape: Shape::One(Kind::Str), default: DefaultRef::Absent, inherit: Inherit::No, text: false, baked: false, gate: Gate::Lenient },
        85 => Property { name: "approved", owners: vec![Owner::Role("title-block")], shape: Shape::One(Kind::Str), default: DefaultRef::Absent, inherit: Inherit::No, text: false, baked: false, gate: Gate::Lenient },
        86 => Property { name: "department", owners: vec![Owner::Role("title-block")], shape: Shape::One(Kind::Str), default: DefaultRef::Absent, inherit: Inherit::No, text: false, baked: false, gate: Gate::Lenient },
        87 => Property { name: "reference", owners: vec![Owner::Role("title-block")], shape: Shape::One(Kind::Str), default: DefaultRef::Absent, inherit: Inherit::No, text: false, baked: false, gate: Gate::Lenient },
        88 => Property { name: "document-type", owners: vec![Owner::Role("title-block")], shape: Shape::One(Kind::Str), default: DefaultRef::Absent, inherit: Inherit::No, text: false, baked: false, gate: Gate::Lenient },
        89 => Property { name: "status", owners: vec![Owner::Role("title-block")], shape: Shape::One(Kind::Str), default: DefaultRef::Absent, inherit: Inherit::No, text: false, baked: false, gate: Gate::Lenient },
        90 => Property { name: "density", owners: vec![Owner::Root], shape: Shape::One(Kind::Number), default: DefaultRef::Engine, inherit: Inherit::No, text: false, baked: false, gate: Gate::Lenient },
        91 => Property { name: "clearance", owners: vec![Owner::Link, Owner::Root], shape: Shape::One(Kind::Number), default: DefaultRef::Bundles, inherit: Inherit::ScopeLink, text: false, baked: false, gate: Gate::Lenient },
        92 => Property { name: "routing", owners: vec![Owner::Link, Owner::Root], shape: Shape::One(Kind::Ident), default: DefaultRef::Engine, inherit: Inherit::ScopeLink, text: false, baked: false, gate: Gate::Lenient },
        _ => Property { name: "along", owners: vec![Owner::Link], shape: Shape::List(Kind::Number), default: DefaultRef::Engine, inherit: Inherit::No, text: false, baked: false, gate: Gate::Lenient },
    }
}

/// The table, one [`Property`] per [`ledger`] row, in row order.
pub fn properties() -> (t: Vec<Property>)
    ensures
        t@.len() == ledger().len(),
        forall|k: int| 0 <= k < ledger().len() ==> (#[trigger] t@[k])@ == ledger()[k],
{
    let mut t: Vec<Property> = Vec::new();
    let mut i: usize = 0;
    while i < 94
        invariant
            i <= 94,
            t@.len() == i,
            forall|k: int| 0 <= k < i ==> (#[trigger] t@[k])@ == ledger()[k],
        decreases 94 - i,
    {
        t.push(row(i));
        i = i + 1;
    }
    t
}

/// The row for `name`: the first row that carries it.
pub open spec fn lookup(name: Seq<char>) -> Option<PropertyRow> {
    if exists|i: int| 0 <= i < ledger().len() && (#[trigger] ledger()[i]).name@ == name {
        Some(
            ledger()[choose|i: int|
                0 <= i < ledger().len() && (#[trigger] ledger()[i]).name@ == name && forall|j: int|
                    0 <= j < i ==> (#[trigger] ledger()[j]).name@ != name],
        )
    } else {
        None
    }
}

/// The value builders: calls that stay a typed value (a colour, gradient,
/// track repeat, or hatch) for render / layout; every other call is compute
/// and folds to a number.
pub open spec fn builder_calls() -> Seq<Seq<char>> {
    seq![
        "oklch"@,
        "gradient"@,
        "linear-gradient"@,
        "radial-gradient"@,
        "rgb"@,
        "rgba"@,
        "hsl"@,
        "hsla"@,
        "repeat"@,
        "hatch"@,
    ]
}

/// The property's row, if the name is known.
pub fn get(name: &str) -> (r: Option<Property>)
    ensures
        match r {
            Some(p) => lookup(name@) == Some(p@),
            None => lookup(name@) is None,
        },
{
    let mut table = properties();
    let n = table.len();
    let mut i: usize = 0;
    while i < n
        invariant
            n == table@.len(),
            n == ledger().len(),
            i <= n,
            forall|k: int| 0 <= k < n ==> (#[trigger] table@[k])@ == ledger()[k],
            forall|j: int| 0 <= j < i ==> (#[trigger] ledger()[j]).name@ != name@,
        decreases n - i,
    {
        if str_eq(table[i].name, name) {
            proof {
                let k = choose|k: int|
                    0 <= k < ledger().len() && (#[trigger] ledger()[k]).name@ == name@ && forall|j: int|
                        0 <= j < k ==> (#[trigger] ledger()[j]).name@ != name@;
                assert(ledger()[i as int].name@ == name@);
                if k < i {
                    assert(ledger()[k].name@ != name@);
                } else if k > i {
                    assert(ledger()[i as int].name@ != name@);
                }
            }
            return Some(table.swap_remove(i));
        }
        i = i + 1;
    }
    None
}

/// Whether a call name is a value builder (vs a compute call).
pub fn is_builder_call(name: &str) -> (r: bool)
    ensures
        r == builder_calls().contains(name@),
{
    let calls = ["oklch", "gradient", "linear-gradient", "radial-gradient", "rgb", "rgba", "hsl", "hsla", "repeat", "hatch"];
    let mut i: usize = 0;
    while i < 10
        invariant
            i <= 10,
            forall|k: int| 0 <= k < 10 ==> (#[trigger] calls@[k])@ == builder_calls()[k],
            forall|j: int| 0 <= j < i ==> builder_calls()[j] != name@,
        decreases 10 - i,
    {
        if str_eq(calls[i], name) {
            proof {
                assert(builder_calls()[i as int] == name@);
            }
            return true;
        }
        i = i + 1;
    }
    false
}

/// Whether the property's value is literal **text** and must be quoted.
pub fn is_string_valued(name: &str) -> (r: bool)
    ensures
        r == (lookup(name@) matches Some(p) && (p.shape matches Shape::One(Kind::Str) || p.shape matches Shape::List(Kind::Str))),
{
    match get(name) {
        Some(p) => match p.shape {
            Shape::One(Kind::Str) | Shape::List(Kind::Str) => true,
            _ => false,
        },
        None => false,
    }
}

/// Whether the name is a marker prop — extracted into the markers, not the
/// attr map.
pub fn is_marker(name: &str) -> (r: bool)
    ensures
        r == (lookup(name@) matches Some(p) && p.shape matches Shape::One(Kind::Marker)),
{
    match get(name) {
        Some(p) => match p.shape {
            Shape::One(Kind::Marker) => true,
            _ => false,
        },
        None => false,
    }
}

/// Whether the property is valid on a bare text leaf's own `{ }`.
pub fn is_text_valid(name: &str) -> (r: bool)
    ensures
        r == (lookup(name@) matches Some(p) && p.text),
{
    match get(name) {
        Some(p) => p.text,
        None => false,
    }
}

/// Whether the property is a baked-spacing text prop — layout, never live
/// CSS.
pub fn is_baked_text(name: &str) -> (r: bool)
    ensures
        r == (lookup(name@) matches Some(p) && p.baked),
{
    match get(name) {
        Some(p) => p.baked,
        None => false,
    }
}

/// The names of the rows on one inheritance channel, in row order.
pub open spec fn channel_names(ch: Inherit) -> Seq<&'static str> {
    ledger().filter(|p: PropertyRow| p.inherit == ch).map_values(|p: PropertyRow| p.name)
}

/// The names of the table's rows on `ch`, in row order.
fn names_on(ch: Inherit) -> (r: Vec<&'static str>)
    ensures
        r@ == channel_names(ch),
{
    let table = properties();
    let n = table.len();
    let mut out: Vec<&'static str> = Vec::new();
    let mut i: usize = 0;
    while i < n
        invariant
            n == table@.len(),
            n == ledger().len(),
            i <= n,
            forall|k: int| 0 <= k < n ==> (#[trigger] table@[k])@ == ledger()[k],
            out@ == ledger().take(i as int).filter(|p: PropertyRow| p.inherit == ch).map_values(
                |p: PropertyRow| p.name,
            ),
        decreases n - i,
    {
        proof {
            reveal_with_fuel(Seq::<_>::filter, 1);
            assert(ledger().take(i + 1).drop_last() =~= ledger().take(i as int));
        }
        if table[i].inherit == ch {
            out.push(table[i].name);
        }
        i = i + 1;
        proof {
            let f = |p: PropertyRow| p.inherit == ch;
            let g = |p: PropertyRow| p.name;
            assert(out@ =~= ledger().take(i as int).filter(f).map_values(g));
        }
    }
    proof {
        assert(ledger().take(n as int) =~= ledger());
    }
    out
}

/// The text properties that cascade to descendant text, in channel order.
pub fn inherited_text() -> (r: Vec<&'static str>)
    ensures
        r@ == channel_names(Inherit::Text),
{
    names_on(Inherit::Text)
}

/// The scene-config properties a link takes from its scope.
pub fn scope_link_props() -> (r: Vec<&'static str>)
    ensures
        r@ == channel_names(Inherit::ScopeLink),
{
    names_on(Inherit::ScopeLink)
}

} // verus!
