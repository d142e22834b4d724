//! The output stylesheet's structural rules: paint defaults stated once as
//! class rules — paint rides CSS, geometry bakes. This is the paint subset an
//! attribute map contributes to a rule; the rule families built from the
//! sheet live in `families`.

pub mod families;

use super::rules::{dash_decl, dash_value, paint_prop, paint_prop_at, paint_prop_count};
use super::values::{css_text, css_value};
use crate::resolve::{entry_lookup, AttrMap, VarTable};
use crate::text::push_str;
use crate::Options;
use vstd::prelude::*;

verus! {

/// Whether every paint prop `attrs` sets can be formatted.
pub open spec fn paints_formattable(attrs: &AttrMap, vars: &VarTable, opts: &Options) -> bool {
    forall|i: int|
        0 <= i < paint_prop_count() ==> (#[trigger] entry_lookup(attrs.entries@, paint_prop(i)@) matches Some(v)
            ==> css_text(paint_prop(i)@, v.deep(), vars, opts) is Some)
}

/// The CSS declarations for paint props `0..i` that `attrs` sets.
pub open spec fn paint_decls(attrs: &AttrMap, vars: &VarTable, opts: &Options, i: int) -> Seq<(Seq<char>, Seq<char>)>
    decreases i,
{
    if i <= 0 {
        Seq::empty()
    } else {
        let before = paint_decls(attrs, vars, opts, i - 1);
        let prop = paint_prop(i - 1)@;
        match entry_lookup(attrs.entries@, prop) {
            Some(v) => before.push((prop, css_text(prop, v.deep(), vars, opts).unwrap())),
            None => before,
        }
    }
}

/// The paint subset of an attr map as CSS declarations, then its joint
/// `stroke-dasharray`.
pub open spec fn paint_props_text(attrs: &AttrMap, vars: &VarTable, opts: &Options) -> Seq<(Seq<char>, Seq<char>)> {
    let paints = paint_decls(attrs, vars, opts, paint_prop_count() as int);
    match dash_decl(attrs) {
        Some(d) => paints.push(("stroke-dasharray"@, d)),
        None => paints,
    }
}

/// Text pairs of a declaration list.
pub open spec fn pair_views(props: Seq<(String, String)>) -> Seq<(Seq<char>, Seq<char>)> {
    props.map_values(|p: (String, String)| (p.0@, p.1@))
}

/// The paint subset of an attr map, translated to CSS props.
/// `stroke-style` compiles jointly with `stroke-width` into
/// `stroke-dasharray`.
pub fn paint_props(attrs: &AttrMap, vars: &VarTable, opts: &Options) -> (out: Vec<(String, String)>)
    requires
        paints_formattable(attrs, vars, opts),
    ensures
        pair_views(out@) == paint_props_text(attrs, vars, opts),
{
    let mut out: Vec<(String, String)> = Vec::new();
    let mut i: usize = 0;
    while i < 11
        invariant
            i <= 11,
            paints_formattable(attrs, vars, opts),
            pair_views(out@) == paint_decls(attrs, vars, opts, i as int),
        decreases 11 - i,
    {
        let lini = paint_prop_at(i);
        match attrs.get(lini) {
            Some(v) => {
                proof {
                    assert(entry_lookup(attrs.entries@, paint_prop(i as int)@) matches Some(w) ==> css_text(
                        paint_prop(i as int)@,
                        w.deep(),
                        vars,
                        opts,
                    ) is Some);
                }
                let value = css_value(lini, v, vars, opts);
                let mut css = String::new();
                push_str(&mut css, lini);
                let ghost pair = (css@, value@);
                out.push((css, value));
                proof {
                    assert(pair_views(out@) =~= pair_views(out@.drop_last()).push(pair));
                }
            },
            None => {},
        }
        i = i + 1;
    }
    match dash_value(attrs) {
        Some(dash) => {
            let mut p = String::new();
            push_str(&mut p, "stroke-dasharray");
            let ghost pair = (p@, dash@);
            out.push((p, dash));
            proof {
                assert(pair_views(out@) =~= pair_views(out@.drop_last()).push(pair));
            }
        },
        None => {},
    }
    out
}

} // verus!
