//! One row per property: who owns it, its value shape, where its default
//! lives, how it inherits, and how out-of-scope use is gated. The resolve
//! classifiers read this table; validation, schema generation, and the
//! generated reference tables read it too.

use crate::text::str_eq;
use vstd::prelude::*;

verus! {

/// Where a property is honoured. A name may have several owners; homonyms
/// list each.
#[derive(Debug, Clone, Copy)]
pub enum Owner {
    /// Every drawn node, in every layout.
    Universal,
    /// The root's scene config (the stylesheet block).
    Root,
    /// A link's own property.
    Link,
    /// Read on this type (a primitive or template).
    Type(&'static str),
    /// Interpreted by this layout engine
    /// (`flow` | `grid` | `sequence` | `chart` | `pie` | `drawing`).
    Layout(&'static str),
    /// A layout role that is not one type: `series`, `dimension`, `mate`,
    /// `closed`, `title-block`.
    Role(&'static str),
}

/// A value's shape: how its comma-groups read, and what each scalar is.
#[derive(Debug, Clone, Copy)]
pub enum Shape {
    /// One comma-group — a scalar or a space-separated tuple.
    One(Kind),
    /// A comma-separated list of groups.
    List(Kind),
    /// A `draw:` pen run — structured calls + `:segment` points.
    Pen,
    /// One `grid(…)` / `radial(…)` replication call.
    Pattern,
}

/// The scalar kind inside a [`Shape`].
#[derive(Debug, Clone, Copy, PartialEq, Eq, Structural)]
pub enum Kind {
    Number,
    /// A keyword identifier.
    Ident,
    /// Quoted text — free text, a URL, an SVG path; a bare word errors.
    Str,
    /// A flat colour (or `--var`) — no gradient.
    Colour,
    /// A paint: colour · `none` · gradient.
    Paint,
    /// A marker glyph name — rides the markers, not the attr map.
    Marker,
    /// A grid track: `auto` · number · `repeat(…)`.
    Track,
    /// Positional / mixed forms validated by the property's own reader.
    Any,
}

/// Where a property's default lives — a reference, not the value.
#[derive(Debug, Clone, Copy)]
pub enum DefaultRef {
    /// Defaultless — unset until authored (`points`, `symbol`, `data`, …).
    Absent,
    /// Stated in the built-in default bundles.
    Bundles,
    /// A code constant or fallback.
    Engine,
}

/// How a property flows down the tree.
#[derive(Debug, Clone, Copy, PartialEq, Eq, Structural)]
pub enum Inherit {
    No,
    /// The resolve text channel — nearest ancestor wins.
    Text,
    /// Scene config a link takes from its scope.
    ScopeLink,
    /// Nearest-wins inside a layout engine, not resolve.
    Engine,
}

/// Out-of-scope treatment: inert by default; a handful hard-error.
#[derive(Debug, Clone, Copy)]
pub enum Gate {
    Lenient,
    Hard,
}

/// One property row. `text` marks the subset valid on a bare text leaf's own
/// `{ }`; `baked` the baked-spacing text props that compile into glyph /
/// line positions and are never live CSS; `deferred` a row
/// honoured only in part — its full reader is deferred, so the generated
/// schema surfaces it as a deferred flag.
#[derive(Debug)]
pub struct Property {
    pub name: &'static str,
    pub owners: Vec<Owner>,
    pub shape: Shape,
    pub default: DefaultRef,
    pub inherit: Inherit,
    pub text: bool,
    pub baked: bool,
    pub gate: Gate,
    pub deferred: bool,
}

/// A property row as the contracts read it.
#[verifier::ext_equal]
pub struct PropertyRow {
    pub name: &'static str,
    pub owners: Seq<Owner>,
    pub shape: Shape,
    pub default: DefaultRef,
    pub inherit: Inherit,
    pub text: bool,
    pub baked: bool,
    pub gate: Gate,
    pub deferred: bool,
}

impl View for Property {
    type V = PropertyRow;

    open spec fn view(&self) -> PropertyRow {
        PropertyRow {
            name: self.name,
            owners: self.owners@,
            shape: self.shape,
            default: self.default,
            inherit: self.inherit,
            text: self.text,
            baked: self.baked,
            gate: self.gate,
            deferred: self.deferred,
        }
    }
}

/// A node owner: `Universal`, a type, or a role other than the link-side
/// `dimension` and `mate`.
pub open spec fn is_node_owner(o: Owner) -> bool {
    match o {
        Owner::Universal | Owner::Type(_) => true,
        Owner::Role(r) => r@ != "dimension"@ && r@ != "mate"@,
        _ => false,
    }
}

impl Property {
    /// Whether the row carries a **node** owner (a type/role a node can be,
    /// or `Universal`) beyond any link/scene-config role. Validation reads
    /// the owners for the former, so a scope-link property is not
    /// blanket-accepted on every node by its inherit channel.
    pub fn has_node_owner(&self) -> (r: bool)
        ensures
            r == exists|i: int| 0 <= i < self.owners@.len() && is_node_owner(#[trigger] self.owners@[i]),
    {
        let n = self.owners.len();
        let mut i: usize = 0;
        while i < n
            invariant
                n == self.owners@.len(),
                i <= n,
                forall|j: int| 0 <= j < i ==> !is_node_owner(#[trigger] self.owners@[j]),
            decreases n - i,
        {
            let hit = match self.owners[i] {
                Owner::Universal | Owner::Type(_) => true,
                Owner::Role(r) => !str_eq(r, "dimension") && !str_eq(r, "mate"),
                _ => false,
            };
            if hit {
                return true;
            }
            i = i + 1;
        }
        false
    }
}

/// The number of rows in the table.
pub open spec fn ledger_len() -> nat {
    103
}

/// Row `i` of the table; every index past the last reads the last row.
pub open spec fn ledger_row(i: int) -> PropertyRow {
    if i == 0 {
        PropertyRow { name: "fill", owners: seq![Owner::Universal], shape: Shape::One(Kind::Paint), default: DefaultRef::Bundles, inherit: Inherit::No, text: true, baked: false, gate: Gate::Lenient, deferred: false }
    } else if i == 1 {
        PropertyRow { name: "opacity", owners: seq![Owner::Universal], shape: Shape::One(Kind::Number), default: DefaultRef::Engine, inherit: Inherit::No, text: true, baked: false, gate: Gate::Lenient, deferred: false }
    } else if i == 2 {
        PropertyRow { name: "stroke", owners: seq![Owner::Universal], shape: Shape::One(Kind::Paint), default: DefaultRef::Bundles, inherit: Inherit::No, text: false, baked: false, gate: Gate::Lenient, deferred: false }
    } else if i == 3 {
        PropertyRow { name: "stroke-width", owners: seq![Owner::Universal], shape: Shape::One(Kind::Number), default: DefaultRef::Bundles, inherit: Inherit::No, text: false, baked: false, gate: Gate::Lenient, deferred: false }
    } else if i == 4 {
        PropertyRow { name: "stroke-style", owners: seq![Owner::Universal], shape: Shape::One(Kind::Ident), default: DefaultRef::Bundles, inherit: Inherit::No, text: false, baked: false, gate: Gate::Lenient, deferred: false }
    } else if i == 5 {
        PropertyRow { name: "radius", owners: seq![Owner::Universal], shape: Shape::One(Kind::Number), default: DefaultRef::Bundles, inherit: Inherit::No, text: false, baked: false, gate: Gate::Lenient, deferred: false }
    } else if i == 6 {
        PropertyRow { name: "shadow", owners: seq![Owner::Universal], shape: Shape::One(Kind::Any), default: DefaultRef::Absent, inherit: Inherit::No, text: false, baked: false, gate: Gate::Lenient, deferred: false }
    } else if i == 7 {
        PropertyRow { name: "gap-fill", owners: seq![Owner::Layout("flow"), Owner::Layout("grid"), Owner::Layout("sequence")], shape: Shape::One(Kind::Paint), default: DefaultRef::Bundles, inherit: Inherit::No, text: false, baked: false, gate: Gate::Lenient, deferred: false }
    } else if i == 8 {
        PropertyRow { name: "font-family", owners: seq![Owner::Universal], shape: Shape::One(Kind::Any), default: DefaultRef::Engine, inherit: Inherit::Text, text: true, baked: false, gate: Gate::Lenient, deferred: false }
    } else if i == 9 {
        PropertyRow { name: "font-size", owners: seq![Owner::Universal], shape: Shape::One(Kind::Number), default: DefaultRef::Bundles, inherit: Inherit::Text, text: true, baked: true, gate: Gate::Lenient, deferred: false }
    } else if i == 10 {
        PropertyRow { name: "font-weight", owners: seq![Owner::Universal], shape: Shape::One(Kind::Any), default: DefaultRef::Bundles, inherit: Inherit::Text, text: true, baked: false, gate: Gate::Lenient, deferred: false }
    } else if i == 11 {
        PropertyRow { name: "font-style", owners: seq![Owner::Universal], shape: Shape::One(Kind::Ident), default: DefaultRef::Engine, inherit: Inherit::Text, text: true, baked: false, gate: Gate::Lenient, deferred: false }
    } else if i == 12 {
        PropertyRow { name: "text-transform", owners: seq![Owner::Universal], shape: Shape::One(Kind::Ident), default: DefaultRef::Engine, inherit: Inherit::Text, text: true, baked: false, gate: Gate::Lenient, deferred: false }
    } else if i == 13 {
        PropertyRow { name: "text-decoration", owners: seq![Owner::Universal], shape: Shape::One(Kind::Ident), default: DefaultRef::Engine, inherit: Inherit::Text, text: true, baked: false, gate: Gate::Lenient, deferred: false }
    } else if i == 14 {
        PropertyRow { name: "text-shadow", owners: seq![Owner::Universal], shape: Shape::One(Kind::Any), default: DefaultRef::Absent, inherit: Inherit::Text, text: true, baked: false, gate: Gate::Lenient, deferred: false }
    } else if i == 15 {
        PropertyRow { name: "letter-spacing", owners: seq![Owner::Universal], shape: Shape::One(Kind::Number), default: DefaultRef::Engine, inherit: Inherit::Text, text: true, baked: true, gate: Gate::Lenient, deferred: false }
    } else if i == 16 {
        PropertyRow { name: "line-spacing", owners: seq![Owner::Universal], shape: Shape::One(Kind::Number), default: DefaultRef::Engine, inherit: Inherit::Text, text: true, baked: true, gate: Gate::Lenient, deferred: false }
    } else if i == 17 {
        PropertyRow { name: "color", owners: seq![Owner::Universal], shape: Shape::One(Kind::Colour), default: DefaultRef::Engine, inherit: Inherit::Text, text: true, baked: false, gate: Gate::Lenient, deferred: false }
    } else if i == 18 {
        PropertyRow { name: "width", owners: seq![Owner::Universal], shape: Shape::One(Kind::Any), default: DefaultRef::Engine, inherit: Inherit::No, text: false, baked: false, gate: Gate::Lenient, deferred: false }
    } else if i == 19 {
        PropertyRow { name: "height", owners: seq![Owner::Universal], shape: Shape::One(Kind::Any), default: DefaultRef::Engine, inherit: Inherit::No, text: false, baked: false, gate: Gate::Lenient, deferred: false }
    } else if i == 20 {
        PropertyRow { name: "padding", owners: seq![Owner::Universal], shape: Shape::One(Kind::Number), default: DefaultRef::Bundles, inherit: Inherit::No, text: false, baked: false, gate: Gate::Lenient, deferred: false }
    } else if i == 21 {
        PropertyRow { name: "max-width", owners: seq![Owner::Universal], shape: Shape::One(Kind::Number), default: DefaultRef::Absent, inherit: Inherit::No, text: false, baked: false, gate: Gate::Lenient, deferred: false }
    } else if i == 22 {
        PropertyRow { name: "text-wrap", owners: seq![Owner::Universal], shape: Shape::One(Kind::Ident), default: DefaultRef::Absent, inherit: Inherit::No, text: false, baked: false, gate: Gate::Lenient, deferred: false }
    } else if i == 23 {
        PropertyRow { name: "pin", owners: seq![Owner::Universal], shape: Shape::One(Kind::Ident), default: DefaultRef::Engine, inherit: Inherit::No, text: false, baked: false, gate: Gate::Lenient, deferred: false }
    } else if i == 24 {
        PropertyRow { name: "translate", owners: seq![Owner::Universal], shape: Shape::One(Kind::Number), default: DefaultRef::Absent, inherit: Inherit::No, text: true, baked: false, gate: Gate::Lenient, deferred: false }
    } else if i == 25 {
        PropertyRow { name: "rotate", owners: seq![Owner::Universal], shape: Shape::One(Kind::Number), default: DefaultRef::Engine, inherit: Inherit::No, text: true, baked: false, gate: Gate::Lenient, deferred: false }
    } else if i == 26 {
        PropertyRow { name: "layer", owners: seq![Owner::Universal], shape: Shape::One(Kind::Number), default: DefaultRef::Engine, inherit: Inherit::No, text: true, baked: false, gate: Gate::Lenient, deferred: false }
    } else if i == 27 {
        PropertyRow { name: "scale", owners: seq![Owner::Universal, Owner::Type("axis")], shape: Shape::One(Kind::Any), default: DefaultRef::Bundles, inherit: Inherit::Engine, text: false, baked: false, gate: Gate::Lenient, deferred: false }
    } else if i == 28 {
        PropertyRow { name: "pattern", owners: seq![Owner::Universal], shape: Shape::Pattern, default: DefaultRef::Absent, inherit: Inherit::No, text: false, baked: false, gate: Gate::Lenient, deferred: false }
    } else if i == 29 {
        PropertyRow { name: "href", owners: seq![Owner::Universal, Owner::Link], shape: Shape::One(Kind::Str), default: DefaultRef::Absent, inherit: Inherit::No, text: false, baked: false, gate: Gate::Lenient, deferred: false }
    } else if i == 30 {
        PropertyRow { name: "hint", owners: seq![Owner::Universal], shape: Shape::One(Kind::Str), default: DefaultRef::Absent, inherit: Inherit::No, text: false, baked: false, gate: Gate::Lenient, deferred: false }
    } else if i == 31 {
        PropertyRow { name: "points", owners: seq![Owner::Type("line"), Owner::Type("poly")], shape: Shape::List(Kind::Number), default: DefaultRef::Absent, inherit: Inherit::No, text: false, baked: false, gate: Gate::Lenient, deferred: false }
    } else if i == 32 {
        PropertyRow { name: "samples", owners: seq![Owner::Type("line"), Owner::Type("poly"), Owner::Type("chart")], shape: Shape::One(Kind::Number), default: DefaultRef::Engine, inherit: Inherit::No, text: false, baked: false, gate: Gate::Lenient, deferred: false }
    } else if i == 33 {
        PropertyRow { name: "path", owners: seq![Owner::Type("path")], shape: Shape::One(Kind::Str), default: DefaultRef::Absent, inherit: Inherit::No, text: false, baked: false, gate: Gate::Lenient, deferred: false }
    } else if i == 34 {
        PropertyRow { name: "src", owners: seq![Owner::Type("image")], shape: Shape::One(Kind::Str), default: DefaultRef::Absent, inherit: Inherit::No, text: false, baked: false, gate: Gate::Lenient, deferred: false }
    } else if i == 35 {
        PropertyRow { name: "symbol", owners: seq![Owner::Type("icon"), Owner::Type("surface-finish")], shape: Shape::One(Kind::Ident), default: DefaultRef::Absent, inherit: Inherit::No, text: false, baked: false, gate: Gate::Lenient, deferred: false }
    } else if i == 36 {
        PropertyRow { name: "fit", owners: seq![Owner::Type("icon"), Owner::Type("image")], shape: Shape::One(Kind::Ident), default: DefaultRef::Bundles, inherit: Inherit::No, text: false, baked: false, gate: Gate::Lenient, deferred: false }
    } else if i == 37 {
        PropertyRow { name: "skew", owners: seq![Owner::Type("slant")], shape: Shape::One(Kind::Number), default: DefaultRef::Bundles, inherit: Inherit::No, text: false, baked: false, gate: Gate::Lenient, deferred: false }
    } else if i == 38 {
        PropertyRow { name: "stack", owners: seq![Owner::Role("closed")], shape: Shape::One(Kind::Number), default: DefaultRef::Absent, inherit: Inherit::No, text: false, baked: false, gate: Gate::Lenient, deferred: false }
    } else if i == 39 {
        PropertyRow { name: "marker", owners: seq![Owner::Type("line"), Owner::Type("mark"), Owner::Role("series"), Owner::Link], shape: Shape::One(Kind::Marker), default: DefaultRef::Engine, inherit: Inherit::No, text: false, baked: false, gate: Gate::Lenient, deferred: false }
    } else if i == 40 {
        PropertyRow { name: "marker-start", owners: seq![Owner::Type("line"), Owner::Type("mark"), Owner::Role("series"), Owner::Link], shape: Shape::One(Kind::Marker), default: DefaultRef::Engine, inherit: Inherit::No, text: false, baked: false, gate: Gate::Lenient, deferred: false }
    } else if i == 41 {
        PropertyRow { name: "marker-end", owners: seq![Owner::Type("line"), Owner::Type("mark"), Owner::Role("series"), Owner::Link], shape: Shape::One(Kind::Marker), default: DefaultRef::Engine, inherit: Inherit::No, text: false, baked: false, gate: Gate::Lenient, deferred: false }
    } else if i == 42 {
        PropertyRow { name: "draw", owners: seq![Owner::Type("sketch")], shape: Shape::Pen, default: DefaultRef::Absent, inherit: Inherit::No, text: false, baked: false, gate: Gate::Lenient, deferred: false }
    } else if i == 43 {
        PropertyRow { name: "mirror", owners: seq![Owner::Type("sketch")], shape: Shape::One(Kind::Any), default: DefaultRef::Absent, inherit: Inherit::No, text: false, baked: false, gate: Gate::Lenient, deferred: false }
    } else if i == 44 {
        PropertyRow { name: "revolve", owners: seq![Owner::Type("sketch")], shape: Shape::One(Kind::Ident), default: DefaultRef::Absent, inherit: Inherit::No, text: false, baked: false, gate: Gate::Lenient, deferred: false }
    } else if i == 45 {
        PropertyRow { name: "thread", owners: seq![Owner::Type("sketch"), Owner::Type("hole")], shape: Shape::List(Kind::Any), default: DefaultRef::Absent, inherit: Inherit::No, text: false, baked: false, gate: Gate::Lenient, deferred: false }
    } else if i == 46 {
        PropertyRow { name: "sheet", owners: seq![Owner::Type("page")], shape: Shape::One(Kind::Any), default: DefaultRef::Engine, inherit: Inherit::No, text: false, baked: false, gate: Gate::Lenient, deferred: false }
    } else if i == 47 {
        PropertyRow { name: "break", owners: seq![Owner::Type("sketch")], shape: Shape::List(Kind::Any), default: DefaultRef::Absent, inherit: Inherit::No, text: false, baked: false, gate: Gate::Lenient, deferred: false }
    } else if i == 48 {
        PropertyRow { name: "layout", owners: seq![Owner::Universal], shape: Shape::One(Kind::Ident), default: DefaultRef::Bundles, inherit: Inherit::No, text: false, baked: false, gate: Gate::Lenient, deferred: false }
    } else if i == 49 {
        PropertyRow { name: "direction", owners: seq![Owner::Layout("flow"), Owner::Layout("chart"), Owner::Layout("tree")], shape: Shape::One(Kind::Ident), default: DefaultRef::Engine, inherit: Inherit::No, text: false, baked: false, gate: Gate::Lenient, deferred: false }
    } else if i == 50 {
        PropertyRow { name: "gap", owners: seq![Owner::Layout("flow"), Owner::Layout("grid"), Owner::Layout("sequence"), Owner::Layout("chart"), Owner::Layout("pie"), Owner::Layout("tree"), Owner::Role("mate")], shape: Shape::One(Kind::Number), default: DefaultRef::Bundles, inherit: Inherit::No, text: false, baked: false, gate: Gate::Lenient, deferred: false }
    } else if i == 51 {
        PropertyRow { name: "align", owners: seq![Owner::Layout("flow"), Owner::Layout("grid")], shape: Shape::List(Kind::Ident), default: DefaultRef::Bundles, inherit: Inherit::No, text: false, baked: false, gate: Gate::Lenient, deferred: false }
    } else if i == 52 {
        PropertyRow { name: "justify", owners: seq![Owner::Layout("flow"), Owner::Layout("grid")], shape: Shape::List(Kind::Ident), default: DefaultRef::Bundles, inherit: Inherit::No, text: false, baked: false, gate: Gate::Lenient, deferred: false }
    } else if i == 53 {
        PropertyRow { name: "columns", owners: seq![Owner::Layout("grid")], shape: Shape::List(Kind::Track), default: DefaultRef::Bundles, inherit: Inherit::No, text: false, baked: false, gate: Gate::Lenient, deferred: false }
    } else if i == 54 {
        PropertyRow { name: "rows", owners: seq![Owner::Layout("grid")], shape: Shape::List(Kind::Track), default: DefaultRef::Absent, inherit: Inherit::No, text: false, baked: false, gate: Gate::Lenient, deferred: false }
    } else if i == 55 {
        PropertyRow { name: "cell", owners: seq![Owner::Layout("grid")], shape: Shape::One(Kind::Number), default: DefaultRef::Absent, inherit: Inherit::No, text: false, baked: false, gate: Gate::Hard, deferred: false }
    } else if i == 56 {
        PropertyRow { name: "span", owners: seq![Owner::Layout("grid"), Owner::Type("band")], shape: Shape::One(Kind::Number), default: DefaultRef::Absent, inherit: Inherit::No, text: false, baked: false, gate: Gate::Hard, deferred: false }
    } else if i == 57 {
        PropertyRow { name: "data", owners: seq![Owner::Role("series")], shape: Shape::List(Kind::Number), default: DefaultRef::Absent, inherit: Inherit::No, text: false, baked: false, gate: Gate::Lenient, deferred: false }
    } else if i == 58 {
        PropertyRow { name: "fn", owners: seq![Owner::Role("series")], shape: Shape::List(Kind::Any), default: DefaultRef::Absent, inherit: Inherit::No, text: false, baked: false, gate: Gate::Lenient, deferred: false }
    } else if i == 59 {
        PropertyRow { name: "labels", owners: seq![Owner::Role("series")], shape: Shape::List(Kind::Str), default: DefaultRef::Absent, inherit: Inherit::No, text: false, baked: false, gate: Gate::Lenient, deferred: false }
    } else if i == 60 {
        PropertyRow { name: "curve", owners: seq![Owner::Type("line"), Owner::Type("area")], shape: Shape::One(Kind::Ident), default: DefaultRef::Engine, inherit: Inherit::No, text: false, baked: false, gate: Gate::Lenient, deferred: false }
    } else if i == 61 {
        PropertyRow { name: "baseline", owners: seq![Owner::Type("area")], shape: Shape::One(Kind::Number), default: DefaultRef::Engine, inherit: Inherit::No, text: false, baked: false, gate: Gate::Lenient, deferred: false }
    } else if i == 62 {
        PropertyRow { name: "axis", owners: seq![Owner::Role("series"), Owner::Type("mark"), Owner::Type("band")], shape: Shape::One(Kind::Ident), default: DefaultRef::Absent, inherit: Inherit::No, text: false, baked: false, gate: Gate::Lenient, deferred: false }
    } else if i == 63 {
        PropertyRow { name: "bars", owners: seq![Owner::Type("chart")], shape: Shape::One(Kind::Ident), default: DefaultRef::Engine, inherit: Inherit::No, text: false, baked: false, gate: Gate::Lenient, deferred: false }
    } else if i == 64 {
        PropertyRow { name: "categories", owners: seq![Owner::Type("chart")], shape: Shape::List(Kind::Str), default: DefaultRef::Engine, inherit: Inherit::No, text: false, baked: false, gate: Gate::Lenient, deferred: false }
    } else if i == 65 {
        PropertyRow { name: "hole", owners: seq![Owner::Type("pie")], shape: Shape::One(Kind::Number), default: DefaultRef::Engine, inherit: Inherit::No, text: false, baked: false, gate: Gate::Lenient, deferred: false }
    } else if i == 66 {
        PropertyRow { name: "legend", owners: seq![Owner::Type("chart"), Owner::Type("pie")], shape: Shape::One(Kind::Any), default: DefaultRef::Engine, inherit: Inherit::No, text: false, baked: false, gate: Gate::Lenient, deferred: true }
    } else if i == 67 {
        PropertyRow { name: "tooltip", owners: seq![Owner::Type("chart"), Owner::Type("pie"), Owner::Role("series")], shape: Shape::One(Kind::Any), default: DefaultRef::Engine, inherit: Inherit::No, text: false, baked: false, gate: Gate::Lenient, deferred: false }
    } else if i == 68 {
        PropertyRow { name: "value", owners: seq![Owner::Type("slice"), Owner::Type("bubble")], shape: Shape::One(Kind::Number), default: DefaultRef::Absent, inherit: Inherit::No, text: false, baked: false, gate: Gate::Lenient, deferred: false }
    } else if i == 69 {
        PropertyRow { name: "at", owners: seq![Owner::Type("mark"), Owner::Type("bubble"), Owner::Type("plane")], shape: Shape::One(Kind::Any), default: DefaultRef::Absent, inherit: Inherit::No, text: false, baked: false, gate: Gate::Lenient, deferred: false }
    } else if i == 70 {
        PropertyRow { name: "side", owners: seq![Owner::Type("axis"), Owner::Type("topic"), Owner::Role("dimension")], shape: Shape::One(Kind::Ident), default: DefaultRef::Engine, inherit: Inherit::No, text: false, baked: false, gate: Gate::Lenient, deferred: false }
    } else if i == 71 {
        PropertyRow { name: "range", owners: seq![Owner::Type("axis")], shape: Shape::One(Kind::Number), default: DefaultRef::Absent, inherit: Inherit::No, text: false, baked: false, gate: Gate::Lenient, deferred: false }
    } else if i == 72 {
        PropertyRow { name: "step", owners: seq![Owner::Type("axis")], shape: Shape::One(Kind::Number), default: DefaultRef::Absent, inherit: Inherit::No, text: false, baked: false, gate: Gate::Lenient, deferred: false }
    } else if i == 73 {
        PropertyRow { name: "ticks", owners: seq![Owner::Type("axis")], shape: Shape::List(Kind::Number), default: DefaultRef::Absent, inherit: Inherit::No, text: false, baked: false, gate: Gate::Lenient, deferred: false }
    } else if i == 74 {
        PropertyRow { name: "unit", owners: seq![Owner::Type("drawing"), Owner::Type("axis")], shape: Shape::One(Kind::Any), default: DefaultRef::Absent, inherit: Inherit::No, text: false, baked: false, gate: Gate::Lenient, deferred: false }
    } else if i == 75 {
        PropertyRow { name: "gridlines", owners: seq![Owner::Type("axis")], shape: Shape::One(Kind::Any), default: DefaultRef::Engine, inherit: Inherit::No, text: false, baked: false, gate: Gate::Lenient, deferred: false }
    } else if i == 76 {
        PropertyRow { name: "format", owners: seq![Owner::Type("chart"), Owner::Type("pie"), Owner::Type("axis"), Owner::Role("series"), Owner::Type("drawing"), Owner::Role("dimension")], shape: Shape::One(Kind::Any), default: DefaultRef::Engine, inherit: Inherit::ScopeLink, text: false, baked: false, gate: Gate::Lenient, deferred: false }
    } else if i == 77 {
        PropertyRow { name: "place", owners: seq![Owner::Type("note")], shape: Shape::One(Kind::Any), default: DefaultRef::Absent, inherit: Inherit::No, text: false, baked: false, gate: Gate::Hard, deferred: false }
    } else if i == 78 {
        PropertyRow { name: "activation", owners: seq![Owner::Layout("sequence")], shape: Shape::One(Kind::Ident), default: DefaultRef::Engine, inherit: Inherit::No, text: false, baked: false, gate: Gate::Hard, deferred: false }
    } else if i == 79 {
        PropertyRow { name: "tol", owners: seq![Owner::Role("dimension"), Owner::Type("feature-control"), Owner::Type("control")], shape: Shape::One(Kind::Any), default: DefaultRef::Absent, inherit: Inherit::No, text: false, baked: false, gate: Gate::Hard, deferred: false }
    } else if i == 80 {
        PropertyRow { name: "characteristic", owners: seq![Owner::Type("feature-control"), Owner::Type("control")], shape: Shape::One(Kind::Ident), default: DefaultRef::Absent, inherit: Inherit::No, text: false, baked: false, gate: Gate::Lenient, deferred: false }
    } else if i == 81 {
        PropertyRow { name: "zone", owners: seq![Owner::Type("feature-control"), Owner::Type("control")], shape: Shape::One(Kind::Ident), default: DefaultRef::Absent, inherit: Inherit::No, text: false, baked: false, gate: Gate::Lenient, deferred: false }
    } else if i == 82 {
        PropertyRow { name: "material", owners: seq![Owner::Type("feature-control"), Owner::Type("control")], shape: Shape::One(Kind::Ident), default: DefaultRef::Absent, inherit: Inherit::No, text: false, baked: false, gate: Gate::Lenient, deferred: false }
    } else if i == 83 {
        PropertyRow { name: "datums", owners: seq![Owner::Type("feature-control"), Owner::Type("control")], shape: Shape::List(Kind::Any), default: DefaultRef::Absent, inherit: Inherit::No, text: false, baked: false, gate: Gate::Lenient, deferred: false }
    } else if i == 84 {
        PropertyRow { name: "modifiers", owners: seq![Owner::Type("feature-control"), Owner::Type("control")], shape: Shape::List(Kind::Any), default: DefaultRef::Absent, inherit: Inherit::No, text: false, baked: false, gate: Gate::Lenient, deferred: false }
    } else if i == 85 {
        PropertyRow { name: "project", owners: seq![Owner::Role("dimension")], shape: Shape::One(Kind::Ident), default: DefaultRef::Absent, inherit: Inherit::No, text: false, baked: false, gate: Gate::Hard, deferred: false }
    } else if i == 86 {
        PropertyRow { name: "facing", owners: seq![Owner::Type("plane")], shape: Shape::One(Kind::Ident), default: DefaultRef::Engine, inherit: Inherit::No, text: false, baked: false, gate: Gate::Lenient, deferred: false }
    } else if i == 87 {
        PropertyRow { name: "of", owners: seq![Owner::Type("drawing")], shape: Shape::One(Kind::Ident), default: DefaultRef::Absent, inherit: Inherit::No, text: false, baked: false, gate: Gate::Lenient, deferred: false }
    } else if i == 88 {
        PropertyRow { name: "title", owners: seq![Owner::Role("title-block")], shape: Shape::One(Kind::Str), default: DefaultRef::Absent, inherit: Inherit::No, text: false, baked: false, gate: Gate::Lenient, deferred: false }
    } else if i == 89 {
        PropertyRow { name: "drawing-number", owners: seq![Owner::Role("title-block")], shape: Shape::One(Kind::Str), default: DefaultRef::Absent, inherit: Inherit::No, text: false, baked: false, gate: Gate::Lenient, deferred: false }
    } else if i == 90 {
        PropertyRow { name: "revision", owners: seq![Owner::Role("title-block")], shape: Shape::One(Kind::Str), default: DefaultRef::Absent, inherit: Inherit::No, text: false, baked: false, gate: Gate::Lenient, deferred: false }
    } else if i == 91 {
        PropertyRow { name: "sheet-number", owners: seq![Owner::Role("title-block")], shape: Shape::One(Kind::Str), default: DefaultRef::Absent, inherit: Inherit::No, text: false, baked: false, gate: Gate::Lenient, deferred: false }
    } else if i == 92 {
        PropertyRow { name: "date", owners: seq![Owner::Role("title-block")], shape: Shape::One(Kind::Str), default: DefaultRef::Absent, inherit: Inherit::No, text: false, baked: false, gate: Gate::Lenient, deferred: false }
    } else if i == 93 {
        PropertyRow { name: "author", owners: seq![Owner::Role("title-block")], shape: Shape::One(Kind::Str), default: DefaultRef::Absent, inherit: Inherit::No, text: false, baked: false, gate: Gate::Lenient, deferred: false }
    } else if i == 94 {
        PropertyRow { name: "approved", owners: seq![Owner::Role("title-block")], shape: Shape::One(Kind::Str), default: DefaultRef::Absent, inherit: Inherit::No, text: false, baked: false, gate: Gate::Lenient, deferred: false }
    } else if i == 95 {
        PropertyRow { name: "department", owners: seq![Owner::Role("title-block")], shape: Shape::One(Kind::Str), default: DefaultRef::Absent, inherit: Inherit::No, text: false, baked: false, gate: Gate::Lenient, deferred: false }
    } else if i == 96 {
        PropertyRow { name: "reference", owners: seq![Owner::Role("title-block")], shape: Shape::One(Kind::Str), default: DefaultRef::Absent, inherit: Inherit::No, text: false, baked: false, gate: Gate::Lenient, deferred: false }
    } else if i == 97 {
        PropertyRow { name: "document-type", owners: seq![Owner::Role("title-block")], shape: Shape::One(Kind::Str), default: DefaultRef::Absent, inherit: Inherit::No, text: false, baked: false, gate: Gate::Lenient, deferred: false }
    } else if i == 98 {
        PropertyRow { name: "status", owners: seq![Owner::Role("title-block")], shape: Shape::One(Kind::Str), default: DefaultRef::Absent, inherit: Inherit::No, text: false, baked: false, gate: Gate::Lenient, deferred: false }
    } else if i == 99 {
        PropertyRow { name: "density", owners: seq![Owner::Root], shape: Shape::One(Kind::Number), default: DefaultRef::Engine, inherit: Inherit::No, text: false, baked: false, gate: Gate::Lenient, deferred: false }
    } else if i == 100 {
        PropertyRow { name: "clearance", owners: seq![Owner::Link, Owner::Root, Owner::Role("dimension")], shape: Shape::One(Kind::Number), default: DefaultRef::Bundles, inherit: Inherit::ScopeLink, text: false, baked: false, gate: Gate::Lenient, deferred: false }
    } else if i == 101 {
        PropertyRow { name: "routing", owners: seq![Owner::Link, Owner::Root], shape: Shape::One(Kind::Ident), default: DefaultRef::Engine, inherit: Inherit::ScopeLink, text: false, baked: false, gate: Gate::Lenient, deferred: false }
    } else {
        PropertyRow { name: "along", owners: seq![Owner::Link], shape: Shape::List(Kind::Number), default: DefaultRef::Engine, inherit: Inherit::No, text: false, baked: false, gate: Gate::Lenient, deferred: false }
    }
}

/// Every property, grouped by topic. Row order fixes the derived
/// iterators ([`inherited_text`], [`scope_link_props`]).
pub open spec fn ledger() -> Seq<PropertyRow> {
    Seq::new(ledger_len(), |i: int| ledger_row(i))
}

/// Row `i` of the table.
fn row(i: usize) -> (p: Property)
    requires
        i < ledger_len(),
    ensures
        p@ =~= ledger_row(i as int),
{
    match i {
        0 => Property { name: "fill", owners: vec![Owner::Universal], shape: Shape::One(Kind::Paint), default: DefaultRef::Bundles, inherit: Inherit::No, text: true, baked: false, gate: Gate::Lenient, deferred: false },
        1 => Property { name: "opacity", owners: vec![Owner::Universal], shape: Shape::One(Kind::Number), default: DefaultRef::Engine, inherit: Inherit::No, text: true, baked: false, gate: Gate::Lenient, deferred: false },
        2 => Property { name: "stroke", owners: vec![Owner::Universal], shape: Shape::One(Kind::Paint), default: DefaultRef::Bundles, inherit: Inherit::No, text: false, baked: false, gate: Gate::Lenient, deferred: false },
        3 => Property { name: "stroke-width", owners: vec![Owner::Universal], shape: Shape::One(Kind::Number), default: DefaultRef::Bundles, inherit: Inherit::No, text: false, baked: false, gate: Gate::Lenient, deferred: false },
        4 => Property { name: "stroke-style", owners: vec![Owner::Universal], shape: Shape::One(Kind::Ident), default: DefaultRef::Bundles, inherit: Inherit::No, text: false, baked: false, gate: Gate::Lenient, deferred: false },
        5 => Property { name: "radius", owners: vec![Owner::Universal], shape: Shape::One(Kind::Number), default: DefaultRef::Bundles, inherit: Inherit::No, text: false, baked: false, gate: Gate::Lenient, deferred: false },
        6 => Property { name: "shadow", owners: vec![Owner::Universal], shape: Shape::One(Kind::Any), default: DefaultRef::Absent, inherit: Inherit::No, text: false, baked: false, gate: Gate::Lenient, deferred: false },
        7 => Property { name: "gap-fill", owners: vec![Owner::Layout("flow"), Owner::Layout("grid"), Owner::Layout("sequence")], shape: Shape::One(Kind::Paint), default: DefaultRef::Bundles, inherit: Inherit::No, text: false, baked: false, gate: Gate::Lenient, deferred: false },
        8 => Property { name: "font-family", owners: vec![Owner::Universal], shape: Shape::One(Kind::Any), default: DefaultRef::Engine, inherit: Inherit::Text, text: true, baked: false, gate: Gate::Lenient, deferred: false },
        9 => Property { name: "font-size", owners: vec![Owner::Universal], shape: Shape::One(Kind::Number), default: DefaultRef::Bundles, inherit: Inherit::Text, text: true, baked: true, gate: Gate::Lenient, deferred: false },
        10 => Property { name: "font-weight", owners: vec![Owner::Universal], shape: Shape::One(Kind::Any), default: DefaultRef::Bundles, inherit: Inherit::Text, text: true, baked: false, gate: Gate::Lenient, deferred: false },
        11 => Property { name: "font-style", owners: vec![Owner::Universal], shape: Shape::One(Kind::Ident), default: DefaultRef::Engine, inherit: Inherit::Text, text: true, baked: false, gate: Gate::Lenient, deferred: false },
        12 => Property { name: "text-transform", owners: vec![Owner::Universal], shape: Shape::One(Kind::Ident), default: DefaultRef::Engine, inherit: Inherit::Text, text: true, baked: false, gate: Gate::Lenient, deferred: false },
        13 => Property { name: "text-decoration", owners: vec![Owner::Universal], shape: Shape::One(Kind::Ident), default: DefaultRef::Engine, inherit: Inherit::Text, text: true, baked: false, gate: Gate::Lenient, deferred: false },
        14 => Property { name: "text-shadow", owners: vec![Owner::Universal], shape: Shape::One(Kind::Any), default: DefaultRef::Absent, inherit: Inherit::Text, text: true, baked: false, gate: Gate::Lenient, deferred: false },
        15 => Property { name: "letter-spacing", owners: vec![Owner::Universal], shape: Shape::One(Kind::Number), default: DefaultRef::Engine, inherit: Inherit::Text, text: true, baked: true, gate: Gate::Lenient, deferred: false },
        16 => Property { name: "line-spacing", owners: vec![Owner::Universal], shape: Shape::One(Kind::Number), default: DefaultRef::Engine, inherit: Inherit::Text, text: true, baked: true, gate: Gate::Lenient, deferred: false },
        17 => Property { name: "color", owners: vec![Owner::Universal], shape: Shape::One(Kind::Colour), default: DefaultRef::Engine, inherit: Inherit::Text, text: true, baked: false, gate: Gate::Lenient, deferred: false },
        18 => Property { name: "width", owners: vec![Owner::Universal], shape: Shape::One(Kind::Any), default: DefaultRef::Engine, inherit: Inherit::No, text: false, baked: false, gate: Gate::Lenient, deferred: false },
        19 => Property { name: "height", owners: vec![Owner::Universal], shape: Shape::One(Kind::Any), default: DefaultRef::Engine, inherit: Inherit::No, text: false, baked: false, gate: Gate::Lenient, deferred: false },
        20 => Property { name: "padding", owners: vec![Owner::Universal], shape: Shape::One(Kind::Number), default: DefaultRef::Bundles, inherit: Inherit::No, text: false, baked: false, gate: Gate::Lenient, deferred: false },
        21 => Property { name: "max-width", owners: vec![Owner::Universal], shape: Shape::One(Kind::Number), default: DefaultRef::Absent, inherit: Inherit::No, text: false, baked: false, gate: Gate::Lenient, deferred: false },
        22 => Property { name: "text-wrap", owners: vec![Owner::Universal], shape: Shape::One(Kind::Ident), default: DefaultRef::Absent, inherit: Inherit::No, text: false, baked: false, gate: Gate::Lenient, deferred: false },
        23 => Property { name: "pin", owners: vec![Owner::Universal], shape: Shape::One(Kind::Ident), default: DefaultRef::Engine, inherit: Inherit::No, text: false, baked: false, gate: Gate::Lenient, deferred: false },
        24 => Property { name: "translate", owners: vec![Owner::Universal], shape: Shape::One(Kind::Number), default: DefaultRef::Absent, inherit: Inherit::No, text: true, baked: false, gate: Gate::Lenient, deferred: false },
        25 => Property { name: "rotate", owners: vec![Owner::Universal], shape: Shape::One(Kind::Number), default: DefaultRef::Engine, inherit: Inherit::No, text: true, baked: false, gate: Gate::Lenient, deferred: false },
        26 => Property { name: "layer", owners: vec![Owner::Universal], shape: Shape::One(Kind::Number), default: DefaultRef::Engine, inherit: Inherit::No, text: true, baked: false, gate: Gate::Lenient, deferred: false },
        27 => Property { name: "scale", owners: vec![Owner::Universal, Owner::Type("axis")], shape: Shape::One(Kind::Any), default: DefaultRef::Bundles, inherit: Inherit::Engine, text: false, baked: false, gate: Gate::Lenient, deferred: false },
        28 => Property { name: "pattern", owners: vec![Owner::Universal], shape: Shape::Pattern, default: DefaultRef::Absent, inherit: Inherit::No, text: false, baked: false, gate: Gate::Lenient, deferred: false },
        29 => Property { name: "href", owners: vec![Owner::Universal, Owner::Link], shape: Shape::One(Kind::Str), default: DefaultRef::Absent, inherit: Inherit::No, text: false, baked: false, gate: Gate::Lenient, deferred: false },
        30 => Property { name: "hint", owners: vec![Owner::Universal], shape: Shape::One(Kind::Str), default: DefaultRef::Absent, inherit: Inherit::No, text: false, baked: false, gate: Gate::Lenient, deferred: false },
        31 => Property { name: "points", owners: vec![Owner::Type("line"), Owner::Type("poly")], shape: Shape::List(Kind::Number), default: DefaultRef::Absent, inherit: Inherit::No, text: false, baked: false, gate: Gate::Lenient, deferred: false },
        32 => Property { name: "samples", owners: vec![Owner::Type("line"), Owner::Type("poly"), Owner::Type("chart")], shape: Shape::One(Kind::Number), default: DefaultRef::Engine, inherit: Inherit::No, text: false, baked: false, gate: Gate::Lenient, deferred: false },
        33 => Property { name: "path", owners: vec![Owner::Type("path")], shape: Shape::One(Kind::Str), default: DefaultRef::Absent, inherit: Inherit::No, text: false, baked: false, gate: Gate::Lenient, deferred: false },
        34 => Property { name: "src", owners: vec![Owner::Type("image")], shape: Shape::One(Kind::Str), default: DefaultRef::Absent, inherit: Inherit::No, text: false, baked: false, gate: Gate::Lenient, deferred: false },
        35 => Property { name: "symbol", owners: vec![Owner::Type("icon"), Owner::Type("surface-finish")], shape: Shape::One(Kind::Ident), default: DefaultRef::Absent, inherit: Inherit::No, text: false, baked: false, gate: Gate::Lenient, deferred: false },
        36 => Property { name: "fit", owners: vec![Owner::Type("icon"), Owner::Type("image")], shape: Shape::One(Kind::Ident), default: DefaultRef::Bundles, inherit: Inherit::No, text: false, baked: false, gate: Gate::Lenient, deferred: false },
        37 => Property { name: "skew", owners: vec![Owner::Type("slant")], shape: Shape::One(Kind::Number), default: DefaultRef::Bundles, inherit: Inherit::No, text: false, baked: false, gate: Gate::Lenient, deferred: false },
        38 => Property { name: "stack", owners: vec![Owner::Role("closed")], shape: Shape::One(Kind::Number), default: DefaultRef::Absent, inherit: Inherit::No, text: false, baked: false, gate: Gate::Lenient, deferred: false },
        39 => Property { name: "marker", owners: vec![Owner::Type("line"), Owner::Type("mark"), Owner::Role("series"), Owner::Link], shape: Shape::One(Kind::Marker), default: DefaultRef::Engine, inherit: Inherit::No, text: false, baked: false, gate: Gate::Lenient, deferred: false },
        40 => Property { name: "marker-start", owners: vec![Owner::Type("line"), Owner::Type("mark"), Owner::Role("series"), Owner::Link], shape: Shape::One(Kind::Marker), default: DefaultRef::Engine, inherit: Inherit::No, text: false, baked: false, gate: Gate::Lenient, deferred: false },
        41 => Property { name: "marker-end", owners: vec![Owner::Type("line"), Owner::Type("mark"), Owner::Role("series"), Owner::Link], shape: Shape::One(Kind::Marker), default: DefaultRef::Engine, inherit: Inherit::No, text: false, baked: false, gate: Gate::Lenient, deferred: false },
        42 => Property { name: "draw", owners: vec![Owner::Type("sketch")], shape: Shape::Pen, default: DefaultRef::Absent, inherit: Inherit::No, text: false, baked: false, gate: Gate::Lenient, deferred: false },
        43 => Property { name: "mirror", owners: vec![Owner::Type("sketch")], shape: Shape::One(Kind::Any), default: DefaultRef::Absent, inherit: Inherit::No, text: false, baked: false, gate: Gate::Lenient, deferred: false },
        44 => Property { name: "revolve", owners: vec![Owner::Type("sketch")], shape: Shape::One(Kind::Ident), default: DefaultRef::Absent, inherit: Inherit::No, text: false, baked: false, gate: Gate::Lenient, deferred: false },
        45 => Property { name: "thread", owners: vec![Owner::Type("sketch"), Owner::Type("hole")], shape: Shape::List(Kind::Any), default: DefaultRef::Absent, inherit: Inherit::No, text: false, baked: false, gate: Gate::Lenient, deferred: false },
        46 => Property { name: "sheet", owners: vec![Owner::Type("page")], shape: Shape::One(Kind::Any), default: DefaultRef::Engine, inherit: Inherit::No, text: false, baked: false, gate: Gate::Lenient, deferred: false },
        47 => Property { name: "break", owners: vec![Owner::Type("sketch")], shape: Shape::List(Kind::Any), default: DefaultRef::Absent, inherit: Inherit::No, text: false, baked: false, gate: Gate::Lenient, deferred: false },
        48 => Property { name: "layout", owners: vec![Owner::Universal], shape: Shape::One(Kind::Ident), default: DefaultRef::Bundles, inherit: Inherit::No, text: false, baked: false, gate: Gate::Lenient, deferred: false },
        49 => Property { name: "direction", owners: vec![Owner::Layout("flow"), Owner::Layout("chart"), Owner::Layout("tree")], shape: Shape::One(Kind::Ident), default: DefaultRef::Engine, inherit: Inherit::No, text: false, baked: false, gate: Gate::Lenient, deferred: false },
        50 => Property { name: "gap", owners: vec![Owner::Layout("flow"), Owner::Layout("grid"), Owner::Layout("sequence"), Owner::Layout("chart"), Owner::Layout("pie"), Owner::Layout("tree"), Owner::Role("mate")], shape: Shape::One(Kind::Number), default: DefaultRef::Bundles, inherit: Inherit::No, text: false, baked: false, gate: Gate::Lenient, deferred: false },
        51 => Property { name: "align", owners: vec![Owner::Layout("flow"), Owner::Layout("grid")], shape: Shape::List(Kind::Ident), default: DefaultRef::Bundles, inherit: Inherit::No, text: false, baked: false, gate: Gate::Lenient, deferred: false },
        52 => Property { name: "justify", owners: vec![Owner::Layout("flow"), Owner::Layout("grid")], shape: Shape::List(Kind::Ident), default: DefaultRef::Bundles, inherit: Inherit::No, text: false, baked: false, gate: Gate::Lenient, deferred: false },
        53 => Property { name: "columns", owners: vec![Owner::Layout("grid")], shape: Shape::List(Kind::Track), default: DefaultRef::Bundles, inherit: Inherit::No, text: false, baked: false, gate: Gate::Lenient, deferred: false },
        54 => Property { name: "rows", owners: vec![Owner::Layout("grid")], shape: Shape::List(Kind::Track), default: DefaultRef::Absent, inherit: Inherit::No, text: false, baked: false, gate: Gate::Lenient, deferred: false },
        55 => Property { name: "cell", owners: vec![Owner::Layout("grid")], shape: Shape::One(Kind::Number), default: DefaultRef::Absent, inherit: Inherit::No, text: false, baked: false, gate: Gate::Hard, deferred: false },
        56 => Property { name: "span", owners: vec![Owner::Layout("grid"), Owner::Type("band")], shape: Shape::One(Kind::Number), default: DefaultRef::Absent, inherit: Inherit::No, text: false, baked: false, gate: Gate::Hard, deferred: false },
        57 => Property { name: "data", owners: vec![Owner::Role("series")], shape: Shape::List(Kind::Number), default: DefaultRef::Absent, inherit: Inherit::No, text: false, baked: false, gate: Gate::Lenient, deferred: false },
        58 => Property { name: "fn", owners: vec![Owner::Role("series")], shape: Shape::List(Kind::Any), default: DefaultRef::Absent, inherit: Inherit::No, text: false, baked: false, gate: Gate::Lenient, deferred: false },
        59 => Property { name: "labels", owners: vec![Owner::Role("series")], shape: Shape::List(Kind::Str), default: DefaultRef::Absent, inherit: Inherit::No, text: false, baked: false, gate: Gate::Lenient, deferred: false },
        60 => Property { name: "curve", owners: vec![Owner::Type("line"), Owner::Type("area")], shape: Shape::One(Kind::Ident), default: DefaultRef::Engine, inherit: Inherit::No, text: false, baked: false, gate: Gate::Lenient, deferred: false },
        61 => Property { name: "baseline", owners: vec![Owner::Type("area")], shape: Shape::One(Kind::Number), default: DefaultRef::Engine, inherit: Inherit::No, text: false, baked: false, gate: Gate::Lenient, deferred: false },
        62 => Property { name: "axis", owners: vec![Owner::Role("series"), Owner::Type("mark"), Owner::Type("band")], shape: Shape::One(Kind::Ident), default: DefaultRef::Absent, inherit: Inherit::No, text: false, baked: false, gate: Gate::Lenient, deferred: false },
        63 => Property { name: "bars", owners: vec![Owner::Type("chart")], shape: Shape::One(Kind::Ident), default: DefaultRef::Engine, inherit: Inherit::No, text: false, baked: false, gate: Gate::Lenient, deferred: false },
        64 => Property { name: "categories", owners: vec![Owner::Type("chart")], shape: Shape::List(Kind::Str), default: DefaultRef::Engine, inherit: Inherit::No, text: false, baked: false, gate: Gate::Lenient, deferred: false },
        65 => Property { name: "hole", owners: vec![Owner::Type("pie")], shape: Shape::One(Kind::Number), default: DefaultRef::Engine, inherit: Inherit::No, text: false, baked: false, gate: Gate::Lenient, deferred: false },
        66 => Property { name: "legend", owners: vec![Owner::Type("chart"), Owner::Type("pie")], shape: Shape::One(Kind::Any), default: DefaultRef::Engine, inherit: Inherit::No, text: false, baked: false, gate: Gate::Lenient, deferred: true },
        67 => Property { name: "tooltip", owners: vec![Owner::Type("chart"), Owner::Type("pie"), Owner::Role("series")], shape: Shape::One(Kind::Any), default: DefaultRef::Engine, inherit: Inherit::No, text: false, baked: false, gate: Gate::Lenient, deferred: false },
        68 => Property { name: "value", owners: vec![Owner::Type("slice"), Owner::Type("bubble")], shape: Shape::One(Kind::Number), default: DefaultRef::Absent, inherit: Inherit::No, text: false, baked: false, gate: Gate::Lenient, deferred: false },
        69 => Property { name: "at", owners: vec![Owner::Type("mark"), Owner::Type("bubble"), Owner::Type("plane")], shape: Shape::One(Kind::Any), default: DefaultRef::Absent, inherit: Inherit::No, text: false, baked: false, gate: Gate::Lenient, deferred: false },
        70 => Property { name: "side", owners: vec![Owner::Type("axis"), Owner::Type("topic"), Owner::Role("dimension")], shape: Shape::One(Kind::Ident), default: DefaultRef::Engine, inherit: Inherit::No, text: false, baked: false, gate: Gate::Lenient, deferred: false },
        71 => Property { name: "range", owners: vec![Owner::Type("axis")], shape: Shape::One(Kind::Number), default: DefaultRef::Absent, inherit: Inherit::No, text: false, baked: false, gate: Gate::Lenient, deferred: false },
        72 => Property { name: "step", owners: vec![Owner::Type("axis")], shape: Shape::One(Kind::Number), default: DefaultRef::Absent, inherit: Inherit::No, text: false, baked: false, gate: Gate::Lenient, deferred: false },
        73 => Property { name: "ticks", owners: vec![Owner::Type("axis")], shape: Shape::List(Kind::Number), default: DefaultRef::Absent, inherit: Inherit::No, text: false, baked: false, gate: Gate::Lenient, deferred: false },
        74 => Property { name: "unit", owners: vec![Owner::Type("drawing"), Owner::Type("axis")], shape: Shape::One(Kind::Any), default: DefaultRef::Absent, inherit: Inherit::No, text: false, baked: false, gate: Gate::Lenient, deferred: false },
        75 => Property { name: "gridlines", owners: vec![Owner::Type("axis")], shape: Shape::One(Kind::Any), default: DefaultRef::Engine, inherit: Inherit::No, text: false, baked: false, gate: Gate::Lenient, deferred: false },
        76 => Property { name: "format", owners: vec![Owner::Type("chart"), Owner::Type("pie"), Owner::Type("axis"), Owner::Role("series"), Owner::Type("drawing"), Owner::Role("dimension")], shape: Shape::One(Kind::Any), default: DefaultRef::Engine, inherit: Inherit::ScopeLink, text: false, baked: false, gate: Gate::Lenient, deferred: false },
        77 => Property { name: "place", owners: vec![Owner::Type("note")], shape: Shape::One(Kind::Any), default: DefaultRef::Absent, inherit: Inherit::No, text: false, baked: false, gate: Gate::Hard, deferred: false },
        78 => Property { name: "activation", owners: vec![Owner::Layout("sequence")], shape: Shape::One(Kind::Ident), default: DefaultRef::Engine, inherit: Inherit::No, text: false, baked: false, gate: Gate::Hard, deferred: false },
        79 => Property { name: "tol", owners: vec![Owner::Role("dimension"), Owner::Type("feature-control"), Owner::Type("control")], shape: Shape::One(Kind::Any), default: DefaultRef::Absent, inherit: Inherit::No, text: false, baked: false, gate: Gate::Hard, deferred: false },
        80 => Property { name: "characteristic", owners: vec![Owner::Type("feature-control"), Owner::Type("control")], shape: Shape::One(Kind::Ident), default: DefaultRef::Absent, inherit: Inherit::No, text: false, baked: false, gate: Gate::Lenient, deferred: false },
        81 => Property { name: "zone", owners: vec![Owner::Type("feature-control"), Owner::Type("control")], shape: Shape::One(Kind::Ident), default: DefaultRef::Absent, inherit: Inherit::No, text: false, baked: false, gate: Gate::Lenient, deferred: false },
        82 => Property { name: "material", owners: vec![Owner::Type("feature-control"), Owner::Type("control")], shape: Shape::One(Kind::Ident), default: DefaultRef::Absent, inherit: Inherit::No, text: false, baked: false, gate: Gate::Lenient, deferred: false },
        83 => Property { name: "datums", owners: vec![Owner::Type("feature-control"), Owner::Type("control")], shape: Shape::List(Kind::Any), default: DefaultRef::Absent, inherit: Inherit::No, text: false, baked: false, gate: Gate::Lenient, deferred: false },
        84 => Property { name: "modifiers", owners: vec![Owner::Type("feature-control"), Owner::Type("control")], shape: Shape::List(Kind::Any), default: DefaultRef::Absent, inherit: Inherit::No, text: false, baked: false, gate: Gate::Lenient, deferred: false },
        85 => Property { name: "project", owners: vec![Owner::Role("dimension")], shape: Shape::One(Kind::Ident), default: DefaultRef::Absent, inherit: Inherit::No, text: false, baked: false, gate: Gate::Hard, deferred: false },
        86 => Property { name: "facing", owners: vec![Owner::Type("plane")], shape: Shape::One(Kind::Ident), default: DefaultRef::Engine, inherit: Inherit::No, text: false, baked: false, gate: Gate::Lenient, deferred: false },
        87 => Property { name: "of", owners: vec![Owner::Type("drawing")], shape: Shape::One(Kind::Ident), default: DefaultRef::Absent, inherit: Inherit::No, text: false, baked: false, gate: Gate::Lenient, deferred: false },
        88 => Property { name: "title", owners: vec![Owner::Role("title-block")], shape: Shape::One(Kind::Str), default: DefaultRef::Absent, inherit: Inherit::No, text: false, baked: false, gate: Gate::Lenient, deferred: false },
        89 => Property { name: "drawing-number", owners: vec![Owner::Role("title-block")], shape: Shape::One(Kind::Str), default: DefaultRef::Absent, inherit: Inherit::No, text: false, baked: false, gate: Gate::Lenient, deferred: false },
        90 => Property { name: "revision", owners: vec![Owner::Role("title-block")], shape: Shape::One(Kind::Str), default: DefaultRef::Absent, inherit: Inherit::No, text: false, baked: false, gate: Gate::Lenient, deferred: false },
        91 => Property { name: "sheet-number", owners: vec![Owner::Role("title-block")], shape: Shape::One(Kind::Str), default: DefaultRef::Absent, inherit: Inherit::No, text: false, baked: false, gate: Gate::Lenient, deferred: false },
        92 => Property { name: "date", owners: vec![Owner::Role("title-block")], shape: Shape::One(Kind::Str), default: DefaultRef::Absent, inherit: Inherit::No, text: false, baked: false, gate: Gate::Lenient, deferred: false },
        93 => Property { name: "author", owners: vec![Owner::Role("title-block")], shape: Shape::One(Kind::Str), default: DefaultRef::Absent, inherit: Inherit::No, text: false, baked: false, gate: Gate::Lenient, deferred: false },
        94 => Property { name: "approved", owners: vec![Owner::Role("title-block")], shape: Shape::One(Kind::Str), default: DefaultRef::Absent, inherit: Inherit::No, text: false, baked: false, gate: Gate::Lenient, deferred: false },
        95 => Property { name: "department", owners: vec![Owner::Role("title-block")], shape: Shape::One(Kind::Str), default: DefaultRef::Absent, inherit: Inherit::No, text: false, baked: false, gate: Gate::Lenient, deferred: false },
        96 => Property { name: "reference", owners: vec![Owner::Role("title-block")], shape: Shape::One(Kind::Str), default: DefaultRef::Absent, inherit: Inherit::No, text: false, baked: false, gate: Gate::Lenient, deferred: false },
        97 => Property { name: "document-type", owners: vec![Owner::Role("title-block")], shape: Shape::One(Kind::Str), default: DefaultRef::Absent, inherit: Inherit::No, text: false, baked: false, gate: Gate::Lenient, deferred: false },
        98 => Property { name: "status", owners: vec![Owner::Role("title-block")], shape: Shape::One(Kind::Str), default: DefaultRef::Absent, inherit: Inherit::No, text: false, baked: false, gate: Gate::Lenient, deferred: false },
        99 => Property { name: "density", owners: vec![Owner::Root], shape: Shape::One(Kind::Number), default: DefaultRef::Engine, inherit: Inherit::No, text: false, baked: false, gate: Gate::Lenient, deferred: false },
        100 => Property { name: "clearance", owners: vec![Owner::Link, Owner::Root, Owner::Role("dimension")], shape: Shape::One(Kind::Number), default: DefaultRef::Bundles, inherit: Inherit::ScopeLink, text: false, baked: false, gate: Gate::Lenient, deferred: false },
        101 => Property { name: "routing", owners: vec![Owner::Link, Owner::Root], shape: Shape::One(Kind::Ident), default: DefaultRef::Engine, inherit: Inherit::ScopeLink, text: false, baked: false, gate: Gate::Lenient, deferred: false },
        _ => Property { name: "along", owners: vec![Owner::Link], shape: Shape::List(Kind::Number), default: DefaultRef::Engine, inherit: Inherit::No, text: false, baked: false, gate: Gate::Lenient, deferred: false },
    }
}

/// The table, one [`Property`] per [`ledger`] row, in row order.
pub fn properties() -> (t: Vec<Property>)
    ensures
        t@.len() == ledger().len(),
        forall|k: int| 0 <= k < ledger().len() ==> (#[trigger] t@[k])@ == ledger()[k],
{
    let mut t: Vec<Property> = Vec::new();
    let mut i: usize = 0;
    while i < 103
        invariant
            i <= 103,
            t@.len() == i,
            forall|k: int| 0 <= k < i ==> (#[trigger] t@[k])@ == ledger()[k],
        decreases 103 - i,
    {
        t.push(row(i));
        i = i + 1;
    }
    t
}

/// The row for `name`: the first row that carries it.
pub open spec fn lookup(name: Seq<char>) -> Option<PropertyRow> {
    if exists|i: int| 0 <= i < ledger().len() && (#[trigger] ledger()[i]).name@ == name {
        Some(
            ledger()[choose|i: int|
                0 <= i < ledger().len() && (#[trigger] ledger()[i]).name@ == name && forall|j: int|
                    0 <= j < i ==> (#[trigger] ledger()[j]).name@ != name],
        )
    } else {
        None
    }
}

/// The value builders: calls that stay a typed value (a colour, gradient,
/// track repeat, or hatch) for render / layout; every other call is compute
/// and folds to a number.
pub open spec fn builder_calls() -> Seq<Seq<char>> {
    seq![
        "oklch"@,
        "gradient"@,
        "linear-gradient"@,
        "radial-gradient"@,
        "rgb"@,
        "rgba"@,
        "hsl"@,
        "hsla"@,
        "repeat"@,
        "hatch"@,
    ]
}

/// The property's row, if the name is known.
pub fn get(name: &str) -> (r: Option<Property>)
    ensures
        match r {
            Some(p) => lookup(name@) == Some(p@),
            None => lookup(name@) is None,
        },
{
    let mut table = properties();
    let n = table.len();
    let mut i: usize = 0;
    while i < n
        invariant
            n == table@.len(),
            n == ledger().len(),
            i <= n,
            forall|k: int| 0 <= k < n ==> (#[trigger] table@[k])@ == ledger()[k],
            forall|j: int| 0 <= j < i ==> (#[trigger] ledger()[j]).name@ != name@,
        decreases n - i,
    {
        if str_eq(table[i].name, name) {
            proof {
                let k = choose|k: int|
                    0 <= k < ledger().len() && (#[trigger] ledger()[k]).name@ == name@ && forall|j: int|
                        0 <= j < k ==> (#[trigger] ledger()[j]).name@ != name@;
                assert(ledger()[i as int].name@ == name@);
                if k < i {
                    assert(ledger()[k].name@ != name@);
                } else if k > i {
                    assert(ledger()[i as int].name@ != name@);
                }
            }
            return Some(table.swap_remove(i));
        }
        i = i + 1;
    }
    None
}

/// Whether a call name is a value builder (vs a compute call).
pub fn is_builder_call(name: &str) -> (r: bool)
    ensures
        r == builder_calls().contains(name@),
{
    let calls = ["oklch", "gradient", "linear-gradient", "radial-gradient", "rgb", "rgba", "hsl", "hsla", "repeat", "hatch"];
    let mut i: usize = 0;
    while i < 10
        invariant
            i <= 10,
            forall|k: int| 0 <= k < 10 ==> (#[trigger] calls@[k])@ == builder_calls()[k],
            forall|j: int| 0 <= j < i ==> builder_calls()[j] != name@,
        decreases 10 - i,
    {
        if str_eq(calls[i], name) {
            proof {
                assert(builder_calls()[i as int] == name@);
            }
            return true;
        }
        i = i + 1;
    }
    false
}

/// Whether the property's value is literal **text** and must be quoted.
pub fn is_string_valued(name: &str) -> (r: bool)
    ensures
        r == (lookup(name@) matches Some(p) && (p.shape matches Shape::One(Kind::Str) || p.shape matches Shape::List(Kind::Str))),
{
    match get(name) {
        Some(p) => match p.shape {
            Shape::One(Kind::Str) | Shape::List(Kind::Str) => true,
            _ => false,
        },
        None => false,
    }
}

/// Whether the name is a marker prop — extracted into the markers, not the
/// attr map.
pub fn is_marker(name: &str) -> (r: bool)
    ensures
        r == (lookup(name@) matches Some(p) && p.shape matches Shape::One(Kind::Marker)),
{
    match get(name) {
        Some(p) => match p.shape {
            Shape::One(Kind::Marker) => true,
            _ => false,
        },
        None => false,
    }
}

/// Whether the property is valid on a bare text leaf's own `{ }`.
pub fn is_text_valid(name: &str) -> (r: bool)
    ensures
        r == (lookup(name@) matches Some(p) && p.text),
{
    match get(name) {
        Some(p) => p.text,
        None => false,
    }
}

/// Whether the property is a baked-spacing text prop — layout, never live
/// CSS.
pub fn is_baked_text(name: &str) -> (r: bool)
    ensures
        r == (lookup(name@) matches Some(p) && p.baked),
{
    match get(name) {
        Some(p) => p.baked,
        None => false,
    }
}

/// The names of the rows on one inheritance channel, in row order.
pub open spec fn channel_names(ch: Inherit) -> Seq<&'static str> {
    ledger().filter(|p: PropertyRow| p.inherit == ch).map_values(|p: PropertyRow| p.name)
}

/// The names of the table's rows on `ch`, in row order.
fn names_on(ch: Inherit) -> (r: Vec<&'static str>)
    ensures
        r@ == channel_names(ch),
{
    let table = properties();
    let n = table.len();
    let mut out: Vec<&'static str> = Vec::new();
    let mut i: usize = 0;
    while i < n
        invariant
            n == table@.len(),
            n == ledger().len(),
            i <= n,
            forall|k: int| 0 <= k < n ==> (#[trigger] table@[k])@ == ledger()[k],
            out@ == ledger().take(i as int).filter(|p: PropertyRow| p.inherit == ch).map_values(
                |p: PropertyRow| p.name,
            ),
        decreases n - i,
    {
        proof {
            reveal_with_fuel(Seq::<_>::filter, 1);
            assert(ledger().take(i + 1).drop_last() =~= ledger().take(i as int));
        }
        if table[i].inherit == ch {
            out.push(table[i].name);
        }
        i = i + 1;
        proof {
            let f = |p: PropertyRow| p.inherit == ch;
            let g = |p: PropertyRow| p.name;
            assert(out@ =~= ledger().take(i as int).filter(f).map_values(g));
        }
    }
    proof {
        assert(ledger().take(n as int) =~= ledger());
    }
    out
}

/// The text properties that cascade to descendant text, in channel order.
pub fn inherited_text() -> (r: Vec<&'static str>)
    ensures
        r@ == channel_names(Inherit::Text),
{
    names_on(Inherit::Text)
}

/// The scene-config properties a link takes from its scope.
pub fn scope_link_props() -> (r: Vec<&'static str>)
    ensures
        r@ == channel_names(Inherit::ScopeLink),
{
    names_on(Inherit::ScopeLink)
}

} // verus!
