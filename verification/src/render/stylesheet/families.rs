//! Rule families built from the document's sheet: the generated classes'
//! default paint (emitted only when nothing authored one), the halo and
//! gutter chrome, the open-marker flip, and the `.style` class rules.

use super::{pair_views, paint_props, paint_props_text, paints_formattable};
use crate::layout::LaidOut;
use crate::render::rules::{ensure_dash_none, states, views, Rule};
use crate::figures::{num, num_text};
use crate::render::values::{css_text, css_value, format_text, format_value};
use crate::resolve::{entry_lookup, AttrMap, Num, ResolvedValue, Val, VarTable};
use crate::text::{chars_of, push_str, str_eq};
use crate::Options;
use vstd::prelude::*;

verus! {

/// A rule as the contracts read it: its class and its declarations.
pub open spec fn rule_view(r: Rule) -> (Seq<char>, Seq<(Seq<char>, Seq<char>)>) {
    (r.class@, pair_views(r.props@))
}

/// Rules as the contracts read them.
pub open spec fn rule_views(rs: Seq<Rule>) -> Seq<(Seq<char>, Seq<(Seq<char>, Seq<char>)>)> {
    rs.map_values(|r: Rule| rule_view(r))
}

/// Whether the sheet already holds a class rule named `class` — one an
/// authored `|class| { }` forced in.
pub open spec fn authored(cs: Seq<(String, AttrMap)>, class: Seq<char>) -> bool {
    exists|i: int| 0 <= i < cs.len() && (#[trigger] cs[i]).0@ == class
}

/// Append one rule.
fn push_rule(rules: &mut Vec<Rule>, class: String, props: Vec<(String, String)>)
    ensures
        rule_views(final(rules)@) == rule_views(old(rules)@).push((class@, pair_views(props@))),
{
    let ghost v = (class@, pair_views(props@));
    rules.push(Rule { class, props });
    proof {
        assert(rule_views(final(rules)@) =~= rule_views(old(rules)@).push(v));
    }
}

/// A declaration from two literals.
fn decl(p: &str, v: &str) -> (d: (String, String))
    ensures
        d.0@ == p@,
        d.1@ == v@,
{
    (p.to_string(), v.to_string())
}

/// Emit a generated class's default paint — the look of a class the engine
/// synthesises with no instance to fold a bundle into — only when the class
/// is present and no authored rule already forced it into the sheet, so an
/// authored rule wins without depending on cascade order.
pub fn emit_generated_default(
    rules: &mut Vec<Rule>,
    laid: &LaidOut,
    class: &str,
    present: bool,
    props: Vec<(String, String)>,
)
    ensures
        rule_views(final(rules)@) == (if present && !authored(laid.sheet.class_rules@, class@) {
            rule_views(old(rules)@).push((class@, pair_views(props@)))
        } else {
            rule_views(old(rules)@)
        }),
{
    let cs = &laid.sheet.class_rules;
    let mut found = false;
    let mut i: usize = 0;
    while i < cs.len()
        invariant
            i <= cs@.len(),
            found == exists|j: int| 0 <= j < i && (#[trigger] cs@[j]).0@ == class@,
        decreases cs@.len() - i,
    {
        if str_eq(cs[i].0.as_str(), class) {
            found = true;
        }
        i = i + 1;
    }
    if present && !found {
        push_rule(rules, class.to_string(), props);
    }
}

/// The knockout mask's white ground paint: one home for the `.lini-cut-bg`
/// props, shared by the label cut and the crossing halo.
pub fn cut_bg_props() -> (p: Vec<(String, String)>)
    ensures
        pair_views(p@) == seq![("fill"@, "white"@), ("stroke"@, "none"@)],
{
    let mut p: Vec<(String, String)> = Vec::new();
    p.push(decl("fill", "white"));
    p.push(decl("stroke", "none"));
    proof {
        assert(pair_views(p@) =~= seq![("fill"@, "white"@), ("stroke"@, "none"@)]);
    }
    p
}

/// The crossing-halo cut paint: the black `.lini-halo` mask stroke, and —
/// without link labels — the white ground beside it. An authored `|halo|`
/// rule suppresses the default.
pub fn build_halo_rules(rules: &mut Vec<Rule>, laid: &LaidOut, has_halos: bool, has_labels: bool)
    ensures
        rule_views(final(rules)@) == {
            let cs = laid.sheet.class_rules@;
            let a = if has_halos && !has_labels && !authored(cs, "lini-cut-bg"@) {
                rule_views(old(rules)@).push(("lini-cut-bg"@, seq![("fill"@, "white"@), ("stroke"@, "none"@)]))
            } else {
                rule_views(old(rules)@)
            };
            if has_halos && !authored(cs, "lini-halo"@) {
                a.push(("lini-halo"@, seq![("stroke"@, "black"@)]))
            } else {
                a
            }
        },
{
    emit_generated_default(rules, laid, "lini-cut-bg", has_halos && !has_labels, cut_bg_props());
    let mut halo: Vec<(String, String)> = Vec::new();
    halo.push(decl("stroke", "black"));
    proof {
        assert(pair_views(halo@) =~= seq![("stroke"@, "black"@)]);
    }
    emit_generated_default(rules, laid, "lini-halo", has_halos, halo);
}

/// A `gap-fill` gutter rect's `stroke: none`, stated once rather than per
/// rect, so a container's border never bleeds onto it.
pub fn build_gutter_rule(rules: &mut Vec<Rule>, has_gutters: bool)
    ensures
        rule_views(final(rules)@) == (if has_gutters {
            rule_views(old(rules)@).push(("lini-gutter"@, seq![("stroke"@, "none"@)]))
        } else {
            rule_views(old(rules)@)
        }),
{
    if has_gutters {
        let mut props: Vec<(String, String)> = Vec::new();
        props.push(decl("stroke", "none"));
        proof {
            assert(pair_views(props@) =~= seq![("stroke"@, "none"@)]);
        }
        push_rule(rules, "lini-gutter".to_string(), props);
    }
}

/// The open ER markers' paint flip: stroked, not filled, pulling the line's
/// colour and width off the enclosing group.
pub fn build_open_marker_rule(rules: &mut Vec<Rule>, has_open: bool)
    ensures
        rule_views(final(rules)@) == (if has_open {
            rule_views(old(rules)@).push(
                (
                    "lini-marker.lini-marker-open"@,
                    seq![
                        ("fill"@, "none"@),
                        ("stroke"@, "inherit"@),
                        ("stroke-linecap"@, "round"@),
                        ("stroke-dasharray"@, "none"@),
                    ],
                ),
            )
        } else {
            rule_views(old(rules)@)
        }),
{
    if has_open {
        let mut props: Vec<(String, String)> = Vec::new();
        props.push(decl("fill", "none"));
        props.push(decl("stroke", "inherit"));
        props.push(decl("stroke-linecap", "round"));
        props.push(decl("stroke-dasharray", "none"));
        proof {
            assert(pair_views(props@) =~= seq![
                ("fill"@, "none"@),
                ("stroke"@, "inherit"@),
                ("stroke-linecap"@, "round"@),
                ("stroke-dasharray"@, "none"@),
            ]);
        }
        push_rule(rules, "lini-marker.lini-marker-open".to_string(), props);
    }
}

/// A live-variable reference formatted for CSS: `var(--lini-name)` live, its
/// baked literal under `--static`.
pub fn live(name: &str, vars: &VarTable, opts: &Options) -> (s: String)
    requires
        format_text(Val::LiveVar(name@, false), vars, opts) is Some,
    ensures
        s@ == format_text(Val::LiveVar(name@, false), vars, opts).unwrap(),
{
    let v = ResolvedValue::LiveVar { name: name.to_string(), raw: false };
    format_value(&v, vars, opts)
}

/// Whether a class name is one of the engine's own (`lini-…`).
pub open spec fn engine_class(name: Seq<char>) -> bool {
    name.len() >= 5 && name.take(5) == seq!['l', 'i', 'n', 'i', '-']
}

fn engine_class_exec(name: &str) -> (b: bool)
    ensures
        b == engine_class(name@),
{
    let cs = chars_of(name);
    let b = cs.len() >= 5 && cs[0] == 'l' && cs[1] == 'i' && cs[2] == 'n' && cs[3] == 'i' && cs[4] == '-';
    proof {
        if b {
            assert(name@.take(5) =~= seq!['l', 'i', 'n', 'i', '-']);
        } else if name@.len() >= 5 && name@.take(5) == seq!['l', 'i', 'n', 'i', '-'] {
            assert(name@.take(5)[0] == 'l' && name@.take(5)[1] == 'i' && name@.take(5)[2] == 'n');
            assert(name@.take(5)[3] == 'i' && name@.take(5)[4] == '-');
        }
    }
    b
}

/// Whether `name` is among `used`.
fn is_used(used: &[String], name: &str) -> (b: bool)
    ensures
        b == views(used@).contains(name@),
{
    let mut j: usize = 0;
    while j < used.len()
        invariant
            j <= used@.len(),
            forall|k: int| 0 <= k < j ==> (#[trigger] used@[k])@ != name@,
        decreases used@.len() - j,
    {
        if str_eq(used[j].as_str(), name) {
            proof {
                assert(views(used@)[j as int] == name@);
            }
            return true;
        }
        j = j + 1;
    }
    proof {
        if views(used@).contains(name@) {
            let k = choose|k: int| 0 <= k < views(used@).len() && views(used@)[k] == name@;
            assert(used@[k]@ == name@);
        }
    }
    false
}

/// Whether the `.style` class rule `(name, attrs)` is emitted: a user class
/// (not one of the engine's) that something wears.
pub open spec fn styled(c: (String, AttrMap), used: Seq<String>) -> bool {
    !engine_class(c.0@) && views(used).contains(c.0@)
}

/// What the `.style` class rules need formatted: the paint props, and the
/// stroke when markers fill from it.
pub open spec fn style_formattable(
    cs: Seq<(String, AttrMap)>,
    used: Seq<String>,
    markers: bool,
    vars: &VarTable,
    opts: &Options,
) -> bool {
    forall|i: int|
        0 <= i < cs.len() && styled(#[trigger] cs[i], used) ==> {
            &&& paints_formattable(&cs[i].1, vars, opts)
            &&& (markers ==> (entry_lookup(cs[i].1.entries@, "stroke"@) matches Some(v) ==> format_text(
                v.deep(),
                vars,
                opts,
            ) is Some))
        }
}

/// The `.style` class rules of class rules `cs`, in source order: for each
/// styled class its `.lini-style-NAME` paint rule, and — when markers are
/// drawn and the class sets a stroke — a descendant rule filling markers with
/// that stroke.
pub open spec fn style_rules(
    cs: Seq<(String, AttrMap)>,
    used: Seq<String>,
    markers: bool,
    vars: &VarTable,
    opts: &Options,
) -> Seq<(Seq<char>, Seq<(Seq<char>, Seq<char>)>)>
    decreases cs.len(),
{
    if cs.len() == 0 {
        Seq::empty()
    } else {
        let before = style_rules(cs.drop_last(), used, markers, vars, opts);
        let c = cs.last();
        if !styled(c, used) {
            before
        } else {
            let base = before.push(("lini-style-"@ + c.0@, paint_props_text(&c.1, vars, opts)));
            match entry_lookup(c.1.entries@, "stroke"@) {
                Some(v) => if markers {
                    base.push(
                        (
                            "lini-style-"@ + c.0@ + " .lini-marker"@,
                            seq![("fill"@, format_text(v.deep(), vars, opts).unwrap())],
                        ),
                    )
                } else {
                    base
                },
                None => base,
            }
        }
    }
}

/// The class rules in source order — the stylesheet's `.name { }` rules
/// shipped as CSS, after the default rules so a class overrides a default.
/// One paint vocabulary: a `.style` class's stroke paints a node's outline
/// and a link's wire alike.
pub fn build_style_class_rules(
    rules: &mut Vec<Rule>,
    laid: &LaidOut,
    used_styles: &[String],
    has_markers: bool,
    vars: &VarTable,
    opts: &Options,
)
    requires
        style_formattable(laid.sheet.class_rules@, used_styles@, has_markers, vars, opts),
    ensures
        rule_views(final(rules)@) == rule_views(old(rules)@) + style_rules(
            laid.sheet.class_rules@,
            used_styles@,
            has_markers,
            vars,
            opts,
        ),
{
    let cs = &laid.sheet.class_rules;
    let n = cs.len();
    let mut i: usize = 0;
    proof {
        assert(cs@.take(0) =~= Seq::<(String, AttrMap)>::empty());
        assert(rule_views(rules@) =~= rule_views(old(rules)@) + style_rules(
            cs@.take(0),
            used_styles@,
            has_markers,
            vars,
            opts,
        ));
    }
    while i < n
        invariant
            n == cs@.len(),
            i <= n,
            style_formattable(cs@, used_styles@, has_markers, vars, opts),
            rule_views(rules@) == rule_views(old(rules)@) + style_rules(
                cs@.take(i as int),
                used_styles@,
                has_markers,
                vars,
                opts,
            ),
        decreases n - i,
    {
        let name = cs[i].0.as_str();
        let attrs = &cs[i].1;
        let ghost before = rule_views(rules@);
        proof {
            assert(cs@.take(i + 1).drop_last() =~= cs@.take(i as int));
            assert(cs@.take(i + 1).last() == cs@[i as int]);
        }
        if !engine_class_exec(name) && is_used(used_styles, name) {
            proof {
                assert(styled(cs@[i as int], used_styles@));
            }
            let mut class = String::new();
            push_str(&mut class, "lini-style-");
            push_str(&mut class, name);
            proof {
                assert(class@ =~= "lini-style-"@ + name@);
            }
            let props = paint_props(attrs, vars, opts);
            push_rule(rules, class, props);
            if has_markers {
                match attrs.get("stroke") {
                    Some(v) => {
                        let mut sel = String::new();
                        push_str(&mut sel, "lini-style-");
                        push_str(&mut sel, name);
                        push_str(&mut sel, " .lini-marker");
                        proof {
                            assert(sel@ =~= "lini-style-"@ + name@ + " .lini-marker"@);
                        }
                        let mut fill: Vec<(String, String)> = Vec::new();
                        let val = format_value(v, vars, opts);
                        fill.push(("fill".to_string(), val));
                        proof {
                            assert(pair_views(fill@) =~= seq![("fill"@, format_text(v.deep(), vars, opts).unwrap())]);
                        }
                        push_rule(rules, sel, fill);
                    },
                    None => {},
                }
            }
        }
        proof {
            assert(rule_views(rules@) =~= rule_views(old(rules)@) + style_rules(
                cs@.take(i + 1),
                used_styles@,
                has_markers,
                vars,
                opts,
            ));
        }
        i = i + 1;
    }
    proof {
        assert(cs@.take(n as int) =~= cs@);
    }
}

/// A root text prop's CSS: the global override when the sheet sets one,
/// else the themeable variable.
pub open spec fn global_text(rt: &AttrMap, attr: Seq<char>, var: Seq<char>, vars: &VarTable, opts: &Options) -> Seq<char> {
    match entry_lookup(rt.entries@, attr) {
        Some(v) => css_text(attr, v.deep(), vars, opts).unwrap(),
        None => format_text(Val::LiveVar(var, false), vars, opts).unwrap(),
    }
}

/// The root text props that ride `.lini` only when globally set.
pub open spec fn optional_root_props() -> Seq<Seq<char>> {
    seq!["font-style"@, "text-transform"@, "text-decoration"@, "text-shadow"@]
}

/// The optional root props `0..k` the sheet sets, as declarations.
pub open spec fn optional_root_decls(rt: &AttrMap, vars: &VarTable, opts: &Options, k: int) -> Seq<
    (Seq<char>, Seq<char>),
>
    decreases k,
{
    if k <= 0 {
        Seq::empty()
    } else {
        let before = optional_root_decls(rt, vars, opts, k - 1);
        let attr = optional_root_props()[k - 1];
        match entry_lookup(rt.entries@, attr) {
            Some(v) => before.push((attr, css_text(attr, v.deep(), vars, opts).unwrap())),
            None => before,
        }
    }
}

/// What the frame rules need formatted: every root text prop the sheet sets,
/// and the variables standing in for the unset ones.
pub open spec fn frame_formattable(rt: &AttrMap, vars: &VarTable, opts: &Options) -> bool {
    &&& forall|a: Seq<char>|
        #![trigger entry_lookup(rt.entries@, a)]
        (a == "font-family"@ || a == "font-weight"@ || a == "color"@ || optional_root_props().contains(a))
            ==> (entry_lookup(rt.entries@, a) matches Some(v) ==> css_text(a, v.deep(), vars, opts) is Some)
    &&& format_text(Val::LiveVar("font-family"@, false), vars, opts) is Some
    &&& format_text(Val::LiveVar("font-weight"@, false), vars, opts) is Some
    &&& format_text(Val::LiveVar("text-color"@, false), vars, opts) is Some
    &&& format_text(Val::LiveVar("bg"@, false), vars, opts) is Some
}

/// The root inherited-text baseline and the scene background plate.
pub open spec fn frame_rules(rt: &AttrMap, font_size: Num, vars: &VarTable, opts: &Options) -> Seq<
    (Seq<char>, Seq<(Seq<char>, Seq<char>)>),
> {
    seq![
        (
            "lini"@,
            seq![
                ("font-family"@, global_text(rt, "font-family"@, "font-family"@, vars, opts)),
                ("font-size"@, num_text(font_size) + "px"@),
                ("font-weight"@, global_text(rt, "font-weight"@, "font-weight"@, vars, opts)),
                ("color"@, global_text(rt, "color"@, "text-color"@, vars, opts)),
            ] + optional_root_decls(rt, vars, opts, 4),
        ),
        ("lini-canvas"@, seq![("fill"@, format_text(Val::LiveVar("bg"@, false), vars, opts).unwrap())]),
    ]
}

/// A root text prop's CSS: the global override when the sheet sets one,
/// else the themeable variable.
fn global(rt: &AttrMap, attr: &str, var: &str, vars: &VarTable, opts: &Options) -> (s: String)
    requires
        entry_lookup(rt.entries@, attr@) matches Some(v) ==> css_text(attr@, v.deep(), vars, opts) is Some,
        entry_lookup(rt.entries@, attr@) is None ==> format_text(Val::LiveVar(var@, false), vars, opts) is Some,
    ensures
        s@ == global_text(rt, attr@, var@, vars, opts),
{
    match rt.get(attr) {
        Some(v) => css_value(attr, v, vars, opts),
        None => live(var, vars, opts),
    }
}

/// The name of optional root prop `k`.
fn optional_root_prop(k: usize) -> (s: &'static str)
    requires
        k < 4,
    ensures
        s@ == optional_root_props()[k as int],
{
    if k == 0 {
        "font-style"
    } else if k == 1 {
        "text-transform"
    } else if k == 2 {
        "text-decoration"
    } else {
        "text-shadow"
    }
}

/// The root inherited-text baseline (`.lini`) and the scene background plate
/// (`.lini-canvas`). `font-family`, `font-weight` and `color` default to
/// their themeable variables unless the sheet sets them globally;
/// `font-size` is the baked literal; the other text props ride `.lini` only
/// when globally set. The plate fills with `--lini-bg`, stated as a rule so
/// it switches live and bakes to a literal under `--static`.
pub fn build_frame_rules(rules: &mut Vec<Rule>, laid: &LaidOut, vars: &VarTable, opts: &Options)
    requires
        frame_formattable(&laid.sheet.root_text, vars, opts),
    ensures
        rule_views(final(rules)@) == rule_views(old(rules)@) + frame_rules(
            &laid.sheet.root_text,
            laid.sheet.root_font_size,
            vars,
            opts,
        ),
{
    let rt = &laid.sheet.root_text;
    let mut root: Vec<(String, String)> = Vec::new();
    root.push(("font-family".to_string(), global(rt, "font-family", "font-family", vars, opts)));
    let mut size = num(&laid.sheet.root_font_size);
    push_str(&mut size, "px");
    root.push(("font-size".to_string(), size));
    root.push(("font-weight".to_string(), global(rt, "font-weight", "font-weight", vars, opts)));
    root.push(("color".to_string(), global(rt, "color", "text-color", vars, opts)));
    let ghost head = pair_views(root@);
    proof {
        assert(head =~= seq![
            ("font-family"@, global_text(rt, "font-family"@, "font-family"@, vars, opts)),
            ("font-size"@, num_text(laid.sheet.root_font_size) + "px"@),
            ("font-weight"@, global_text(rt, "font-weight"@, "font-weight"@, vars, opts)),
            ("color"@, global_text(rt, "color"@, "text-color"@, vars, opts)),
        ]);
        assert(head + optional_root_decls(rt, vars, opts, 0) =~= head);
    }
    let mut k: usize = 0;
    while k < 4
        invariant
            k <= 4,
            frame_formattable(rt, vars, opts),
            pair_views(root@) == head + optional_root_decls(rt, vars, opts, k as int),
        decreases 4 - k,
    {
        let attr = optional_root_prop(k);
        proof {
            assert(optional_root_props().contains(attr@)) by {
                assert(optional_root_props()[k as int] == attr@);
            }
        }
        match rt.get(attr) {
            Some(v) => {
                let ghost before = pair_views(root@);
                let text = css_value(attr, v, vars, opts);
                root.push((attr.to_string(), text));
                proof {
                    assert(pair_views(root@) =~= before.push((attr@, css_text(attr@, v.deep(), vars, opts).unwrap())));
                }
            },
            None => {},
        }
        k = k + 1;
    }
    push_rule(rules, "lini".to_string(), root);
    let mut plate: Vec<(String, String)> = Vec::new();
    plate.push(("fill".to_string(), live("bg", vars, opts)));
    proof {
        assert(pair_views(plate@) =~= seq![("fill"@, format_text(Val::LiveVar("bg"@, false), vars, opts).unwrap())]);
    }
    let ghost mid = rule_views(rules@);
    push_rule(rules, "lini-canvas".to_string(), plate);
    proof {
        assert(rule_views(rules@) =~= rule_views(old(rules)@) + frame_rules(
            rt,
            laid.sheet.root_font_size,
            vars,
            opts,
        ));
    }
}

/// The variable reference `--lini-name` as formatted CSS.
pub open spec fn live_text(name: Seq<char>, vars: &VarTable, opts: &Options) -> Seq<char> {
    format_text(Val::LiveVar(name, false), vars, opts).unwrap()
}

/// A one-rule list when `on`, else none.
pub open spec fn when(on: bool, r: (Seq<char>, Seq<(Seq<char>, Seq<char>)>)) -> Seq<
    (Seq<char>, Seq<(Seq<char>, Seq<char>)>),
> {
    if on {
        seq![r]
    } else {
        Seq::empty()
    }
}

/// The marker rules: the base `.lini-marker` (fill follows the link stroke,
/// no stroke) when markers are drawn, the drafting heads' default paint when
/// present and not authored, and the inline chart labels' pointer pass-through.
pub open spec fn marker_rules(
    present: Seq<String>,
    has_markers: bool,
    cs: Seq<(String, AttrMap)>,
    vars: &VarTable,
    opts: &Options,
) -> Seq<(Seq<char>, Seq<(Seq<char>, Seq<char>)>)> {
    when(
        has_markers || views(present).contains("marker"@),
        ("lini-marker"@, seq![("fill"@, live_text("stroke"@, vars, opts)), ("stroke"@, "none"@)]),
    ) + when(
        views(present).contains("marker-dim"@) && !authored(cs, "lini-marker-dim"@),
        ("lini-marker-dim"@, seq![("fill"@, live_text("stroke-dark"@, vars, opts))]),
    ) + when(
        views(present).contains("marker-datum"@) && !authored(cs, "lini-marker-datum"@),
        ("lini-marker-datum"@, seq![("fill"@, live_text("stroke-dark"@, vars, opts))]),
    ) + when(views(present).contains("chart-label"@), ("lini-chart-label"@, seq![("pointer-events"@, "none"@)]))
}

/// The marker rules: fill follows the link stroke (the common default stated
/// once) with no stroke for the filled heads; the drafting heads read the
/// geometry tone; inline chart labels take no pointer events, so hovering a
/// labelled point still reveals its card.
pub fn build_marker_rules(
    rules: &mut Vec<Rule>,
    laid: &LaidOut,
    present: &[String],
    has_markers: bool,
    vars: &VarTable,
    opts: &Options,
)
    requires
        format_text(Val::LiveVar("stroke"@, false), vars, opts) is Some,
        format_text(Val::LiveVar("stroke-dark"@, false), vars, opts) is Some,
    ensures
        rule_views(final(rules)@) == rule_views(old(rules)@) + marker_rules(
            present@,
            has_markers,
            laid.sheet.class_rules@,
            vars,
            opts,
        ),
{
    let ghost r0 = rule_views(rules@);
    if has_markers || is_used(present, "marker") {
        let mut props: Vec<(String, String)> = Vec::new();
        props.push(("fill".to_string(), live("stroke", vars, opts)));
        props.push(decl("stroke", "none"));
        proof {
            assert(pair_views(props@) =~= seq![("fill"@, live_text("stroke"@, vars, opts)), ("stroke"@, "none"@)]);
        }
        push_rule(rules, "lini-marker".to_string(), props);
    }
    let ghost r1 = rule_views(rules@);
    let mut dim: Vec<(String, String)> = Vec::new();
    dim.push(("fill".to_string(), live("stroke-dark", vars, opts)));
    proof {
        assert(pair_views(dim@) =~= seq![("fill"@, live_text("stroke-dark"@, vars, opts))]);
    }
    emit_generated_default(rules, laid, "lini-marker-dim", is_used(present, "marker-dim"), dim);
    let ghost r2 = rule_views(rules@);
    let mut datum: Vec<(String, String)> = Vec::new();
    datum.push(("fill".to_string(), live("stroke-dark", vars, opts)));
    proof {
        assert(pair_views(datum@) =~= seq![("fill"@, live_text("stroke-dark"@, vars, opts))]);
    }
    emit_generated_default(rules, laid, "lini-marker-datum", is_used(present, "marker-datum"), datum);
    let ghost r3 = rule_views(rules@);
    if is_used(present, "chart-label") {
        let mut props: Vec<(String, String)> = Vec::new();
        props.push(decl("pointer-events", "none"));
        proof {
            assert(pair_views(props@) =~= seq![("pointer-events"@, "none"@)]);
        }
        push_rule(rules, "lini-chart-label".to_string(), props);
    }
    proof {
        let cs = laid.sheet.class_rules@;
        let a = when(
            has_markers || views(present@).contains("marker"@),
            ("lini-marker"@, seq![("fill"@, live_text("stroke"@, vars, opts)), ("stroke"@, "none"@)]),
        );
        let b = when(
            views(present@).contains("marker-dim"@) && !authored(cs, "lini-marker-dim"@),
            ("lini-marker-dim"@, seq![("fill"@, live_text("stroke-dark"@, vars, opts))]),
        );
        let c = when(
            views(present@).contains("marker-datum"@) && !authored(cs, "lini-marker-datum"@),
            ("lini-marker-datum"@, seq![("fill"@, live_text("stroke-dark"@, vars, opts))]),
        );
        let d = when(views(present@).contains("chart-label"@), ("lini-chart-label"@, seq![("pointer-events"@, "none"@)]));
        assert(r1 =~= r0 + a);
        assert(r2 =~= r1 + b);
        assert(r3 =~= r2 + c);
        assert(rule_views(rules@) =~= r3 + d);
        assert(rule_views(rules@) =~= r0 + marker_rules(present@, has_markers, cs, vars, opts));
    }
}

/// The drafting caption size, in px: the size annotation text reads at.
pub const DRAWING_LINK_FONT_SIZE: i64 = 12;

/// The closed primitive kinds, whose rules mask `stroke-dasharray`.
pub open spec fn closed_kinds() -> Seq<Seq<char>> {
    seq!["block"@, "oval"@, "hex"@, "slant"@, "cyl"@, "diamond"@, "poly"@, "path"@, "sketch"@]
}

/// The name of closed kind `k`.
fn closed_kind(k: usize) -> (s: &'static str)
    requires
        k < 9,
    ensures
        s@ == closed_kinds()[k as int],
{
    if k == 0 {
        "block"
    } else if k == 1 {
        "oval"
    } else if k == 2 {
        "hex"
    } else if k == 3 {
        "slant"
    } else if k == 4 {
        "cyl"
    } else if k == 5 {
        "diamond"
    } else if k == 6 {
        "poly"
    } else if k == 7 {
        "path"
    } else {
        "sketch"
    }
}

/// The attrs of the last of the first `i` class rules named `class`.
pub open spec fn class_attrs_from(cs: Seq<(String, AttrMap)>, class: Seq<char>, i: int) -> Option<AttrMap>
    decreases i,
{
    if i <= 0 {
        None
    } else if cs[i - 1].0@ == class {
        Some(cs[i - 1].1)
    } else {
        class_attrs_from(cs, class, i - 1)
    }
}

/// The attrs of the sheet's class rule named `class`; a later rule of the
/// same name replaces an earlier one.
pub open spec fn class_attrs(cs: Seq<(String, AttrMap)>, class: Seq<char>) -> Option<AttrMap> {
    class_attrs_from(cs, class, cs.len() as int)
}

/// The paint a shape class's sheet rule sets, or none without one.
pub open spec fn shape_paint(cs: Seq<(String, AttrMap)>, class: Seq<char>, vars: &VarTable, opts: &Options) -> Seq<
    (Seq<char>, Seq<char>),
> {
    match class_attrs(cs, class) {
        Some(a) => paint_props_text(&a, vars, opts),
        None => Seq::empty(),
    }
}

/// Declarations with the dash masked: unchanged when they state
/// `stroke-dasharray`, else with `stroke-dasharray: none` appended.
pub open spec fn dash_masked(p: Seq<(Seq<char>, Seq<char>)>) -> Seq<(Seq<char>, Seq<char>)> {
    if exists|i: int| 0 <= i < p.len() && (#[trigger] p[i]).0 == "stroke-dasharray"@ {
        p
    } else {
        p.push(("stroke-dasharray"@, "none"@))
    }
}

/// A shape class's rule: its sheet paint with the dash masked.
pub open spec fn masked_rule(cs: Seq<(String, AttrMap)>, class: Seq<char>, vars: &VarTable, opts: &Options) -> (
    Seq<char>,
    Seq<(Seq<char>, Seq<char>)>,
) {
    (class, dash_masked(shape_paint(cs, class, vars, opts)))
}

/// The rules of the first `k` closed kinds, each only when present.
pub open spec fn closed_rules(
    cs: Seq<(String, AttrMap)>,
    present: Seq<String>,
    vars: &VarTable,
    opts: &Options,
    k: int,
) -> Seq<(Seq<char>, Seq<(Seq<char>, Seq<char>)>)>
    decreases k,
{
    if k <= 0 {
        Seq::empty()
    } else {
        let kind = closed_kinds()[k - 1];
        closed_rules(cs, present, vars, opts, k - 1) + when(
            views(present).contains(kind),
            masked_rule(cs, "lini-"@ + kind, vars, opts),
        )
    }
}

/// Whether every class rule's paint can be formatted.
pub open spec fn sheet_paints_formattable(cs: Seq<(String, AttrMap)>, vars: &VarTable, opts: &Options) -> bool {
    forall|i: int| 0 <= i < cs.len() ==> paints_formattable(&(#[trigger] cs[i]).1, vars, opts)
}

/// The drawing anatomy's constant paint, each unless authored: dimension
/// linework at the thin drafting weight, extension lines a step lighter, and
/// annotation text at the caption size.
pub open spec fn anatomy_rules(cs: Seq<(String, AttrMap)>, present: Seq<String>, vars: &VarTable, opts: &Options) -> Seq<
    (Seq<char>, Seq<(Seq<char>, Seq<char>)>),
> {
    when(
        views(present).contains("dim-line"@) && !authored(cs, "lini-dim-line"@),
        (
            "lini-dim-line"@,
            seq![("fill"@, "none"@), ("stroke"@, live_text("stroke-dark"@, vars, opts)), ("stroke-width"@, "1"@)],
        ),
    ) + when(
        views(present).contains("ext-line"@) && !authored(cs, "lini-ext-line"@),
        (
            "lini-ext-line"@,
            seq![("fill"@, "none"@), ("stroke"@, live_text("stroke-light"@, vars, opts)), ("stroke-width"@, "1"@)],
        ),
    ) + when(
        views(present).contains("dim-text"@) && !authored(cs, "lini-dim-text"@),
        (
            "lini-dim-text"@,
            seq![
                ("font-size"@, num_text(Num::spec_whole(DRAWING_LINK_FONT_SIZE)) + "px"@),
                ("font-weight"@, "normal"@),
            ],
        ),
    )
}

/// The rule of a dash-masked shape class, when its kind is present.
pub open spec fn masked_when(
    cs: Seq<(String, AttrMap)>,
    present: Seq<String>,
    kind: Seq<char>,
    vars: &VarTable,
    opts: &Options,
) -> Seq<(Seq<char>, Seq<(Seq<char>, Seq<char>)>)> {
    when(views(present).contains(kind), masked_rule(cs, "lini-"@ + kind, vars, opts))
}

/// The per-shape rules: each closed kind present and `line`, with their
/// sheet paint and the dash masked; the drawing anatomy's constant paint;
/// bare text filled with the inherited colour, unstroked and centred; and
/// the icon's sheet paint, dash masked.
pub open spec fn shape_rules(cs: Seq<(String, AttrMap)>, present: Seq<String>, vars: &VarTable, opts: &Options) -> Seq<
    (Seq<char>, Seq<(Seq<char>, Seq<char>)>),
> {
    closed_rules(cs, present, vars, opts, 9) + masked_when(cs, present, "line"@, vars, opts) + anatomy_rules(
        cs,
        present,
        vars,
        opts,
    ) + when(
        views(present).contains("text"@),
        ("lini-text"@, seq![("fill"@, "currentColor"@), ("stroke"@, "none"@), ("text-anchor"@, "middle"@)]),
    ) + masked_when(cs, present, "icon"@, vars, opts)
}

/// The index of the last class rule named `class`, if any.
fn find_class(cs: &Vec<(String, AttrMap)>, class: &str) -> (r: Option<usize>)
    ensures
        match r {
            Some(j) => j < cs@.len() && class_attrs(cs@, class@) == Some(cs@[j as int].1),
            None => class_attrs(cs@, class@) is None,
        },
{
    let mut i: usize = cs.len();
    while i > 0
        invariant
            i <= cs@.len(),
            class_attrs(cs@, class@) == class_attrs_from(cs@, class@, i as int),
        decreases i,
    {
        if str_eq(cs[i - 1].0.as_str(), class) {
            return Some(i - 1);
        }
        i = i - 1;
    }
    None
}

/// A shape class's sheet paint with the dash masked.
fn masked_paint(cs: &Vec<(String, AttrMap)>, class: &str, vars: &VarTable, opts: &Options) -> (p: Vec<
    (String, String),
>)
    requires
        sheet_paints_formattable(cs@, vars, opts),
    ensures
        pair_views(p@) == dash_masked(shape_paint(cs@, class@, vars, opts)),
{
    let mut p = match find_class(cs, class) {
        Some(j) => {
            proof {
                assert(paints_formattable(&cs@[j as int].1, vars, opts));
            }
            paint_props(&cs[j].1, vars, opts)
        },
        None => Vec::new(),
    };
    let ghost before = p@;
    proof {
        assert(pair_views(before) == shape_paint(cs@, class@, vars, opts));
    }
    ensure_dash_none(&mut p);
    proof {
        let v = pair_views(before);
        if states(before, "stroke-dasharray"@) {
            let i = choose|i: int| 0 <= i < before.len() && #[trigger] before[i].0@ == "stroke-dasharray"@;
            assert(v[i].0 == "stroke-dasharray"@);
        } else {
            assert forall|i: int| 0 <= i < v.len() implies (#[trigger] v[i]).0 != "stroke-dasharray"@ by {
                assert(before[i].0@ == v[i].0);
            }
            assert(pair_views(p@) =~= v.push(("stroke-dasharray"@, "none"@))) by {
                assert(p@.take(before.len() as int) == before);
                assert forall|i: int| 0 <= i < before.len() implies p@[i] == before[i] by {
                    assert(p@.take(before.len() as int)[i] == p@[i]);
                }
            }
        }
    }
    p
}

/// The `lini-`-prefixed class of a kind.
fn kind_class(kind: &str) -> (c: String)
    ensures
        c@ == "lini-"@ + kind@,
{
    let mut c = String::new();
    push_str(&mut c, "lini-");
    push_str(&mut c, kind);
    proof {
        assert(c@ =~= "lini-"@ + kind@);
    }
    c
}

/// Push the rule of a dash-masked shape class when its kind is present.
fn push_masked_when(
    rules: &mut Vec<Rule>,
    cs: &Vec<(String, AttrMap)>,
    present: &[String],
    kind: &str,
    vars: &VarTable,
    opts: &Options,
)
    requires
        sheet_paints_formattable(cs@, vars, opts),
    ensures
        rule_views(final(rules)@) == rule_views(old(rules)@) + masked_when(cs@, present@, kind@, vars, opts),
{
    let ghost before = rule_views(rules@);
    if is_used(present, kind) {
        let class = kind_class(kind);
        let props = masked_paint(cs, class.as_str(), vars, opts);
        push_rule(rules, class, props);
    }
    proof {
        assert(rule_views(rules@) =~= before + masked_when(cs@, present@, kind@, vars, opts));
    }
}

/// Push the closed kinds' rules, in kind order.
fn push_closed_rules(
    rules: &mut Vec<Rule>,
    cs: &Vec<(String, AttrMap)>,
    present: &[String],
    vars: &VarTable,
    opts: &Options,
)
    requires
        sheet_paints_formattable(cs@, vars, opts),
    ensures
        rule_views(final(rules)@) == rule_views(old(rules)@) + closed_rules(cs@, present@, vars, opts, 9),
{
    let ghost r0 = rule_views(rules@);
    let mut k: usize = 0;
    while k < 9
        invariant
            k <= 9,
            sheet_paints_formattable(cs@, vars, opts),
            rule_views(rules@) == r0 + closed_rules(cs@, present@, vars, opts, k as int),
        decreases 9 - k,
    {
        let kind = closed_kind(k);
        push_masked_when(rules, cs, present, kind, vars, opts);
        proof {
            assert(rule_views(rules@) =~= r0 + closed_rules(cs@, present@, vars, opts, k + 1));
        }
        k = k + 1;
    }
}

/// Push the drawing anatomy's constant paint rules.
fn push_anatomy_rules(rules: &mut Vec<Rule>, laid: &LaidOut, present: &[String], vars: &VarTable, opts: &Options)
    requires
        format_text(Val::LiveVar("stroke-dark"@, false), vars, opts) is Some,
        format_text(Val::LiveVar("stroke-light"@, false), vars, opts) is Some,
    ensures
        rule_views(final(rules)@) == rule_views(old(rules)@) + anatomy_rules(
            laid.sheet.class_rules@,
            present@,
            vars,
            opts,
        ),
{
    let ghost r0 = rule_views(rules@);
    let mut dim: Vec<(String, String)> = Vec::new();
    dim.push(decl("fill", "none"));
    dim.push(("stroke".to_string(), live("stroke-dark", vars, opts)));
    dim.push(decl("stroke-width", "1"));
    proof {
        assert(pair_views(dim@) =~= seq![
            ("fill"@, "none"@),
            ("stroke"@, live_text("stroke-dark"@, vars, opts)),
            ("stroke-width"@, "1"@),
        ]);
    }
    emit_generated_default(rules, laid, "lini-dim-line", is_used(present, "dim-line"), dim);
    let ghost r1 = rule_views(rules@);
    let mut ext: Vec<(String, String)> = Vec::new();
    ext.push(decl("fill", "none"));
    ext.push(("stroke".to_string(), live("stroke-light", vars, opts)));
    ext.push(decl("stroke-width", "1"));
    proof {
        assert(pair_views(ext@) =~= seq![
            ("fill"@, "none"@),
            ("stroke"@, live_text("stroke-light"@, vars, opts)),
            ("stroke-width"@, "1"@),
        ]);
    }
    emit_generated_default(rules, laid, "lini-ext-line", is_used(present, "ext-line"), ext);
    let ghost r2 = rule_views(rules@);
    let mut size = num(&Num::whole(DRAWING_LINK_FONT_SIZE));
    push_str(&mut size, "px");
    let mut caption: Vec<(String, String)> = Vec::new();
    caption.push(("font-size".to_string(), size));
    caption.push(decl("font-weight", "normal"));
    proof {
        assert(pair_views(caption@) =~= seq![
            ("font-size"@, num_text(Num::spec_whole(DRAWING_LINK_FONT_SIZE)) + "px"@),
            ("font-weight"@, "normal"@),
        ]);
    }
    emit_generated_default(rules, laid, "lini-dim-text", is_used(present, "dim-text"), caption);
    proof {
        let cs = laid.sheet.class_rules@;
        let p = present@;
        let a = when(
            views(p).contains("dim-line"@) && !authored(cs, "lini-dim-line"@),
            (
                "lini-dim-line"@,
                seq![("fill"@, "none"@), ("stroke"@, live_text("stroke-dark"@, vars, opts)), ("stroke-width"@, "1"@)],
            ),
        );
        let b = when(
            views(p).contains("ext-line"@) && !authored(cs, "lini-ext-line"@),
            (
                "lini-ext-line"@,
                seq![("fill"@, "none"@), ("stroke"@, live_text("stroke-light"@, vars, opts)), ("stroke-width"@, "1"@)],
            ),
        );
        assert(r1 =~= r0 + a);
        assert(r2 =~= r1 + b);
        assert(rule_views(rules@) =~= r0 + anatomy_rules(cs, p, vars, opts));
    }
}

/// Per-shape paint defaults, only for the shapes present, sourced from the
/// sheet's generated class rules (paint only; geometry stays baked). Closed
/// primitives, `line` and `icon` mask `stroke-dasharray`, so a container's
/// dashed line cannot bleed into them. The drawing anatomy's linework and
/// annotation text state their constant paint once, unless an authored rule
/// already did; bare text ties its fill to the inherited colour.
pub fn build_shape_rules(
    rules: &mut Vec<Rule>,
    laid: &LaidOut,
    present: &[String],
    vars: &VarTable,
    opts: &Options,
)
    requires
        sheet_paints_formattable(laid.sheet.class_rules@, vars, opts),
        format_text(Val::LiveVar("stroke-dark"@, false), vars, opts) is Some,
        format_text(Val::LiveVar("stroke-light"@, false), vars, opts) is Some,
    ensures
        rule_views(final(rules)@) == rule_views(old(rules)@) + shape_rules(
            laid.sheet.class_rules@,
            present@,
            vars,
            opts,
        ),
{
    let cs = &laid.sheet.class_rules;
    let ghost r0 = rule_views(rules@);
    push_closed_rules(rules, cs, present, vars, opts);
    let ghost r1 = rule_views(rules@);
    push_masked_when(rules, cs, present, "line", vars, opts);
    let ghost r2 = rule_views(rules@);
    push_anatomy_rules(rules, laid, present, vars, opts);
    let ghost r3 = rule_views(rules@);
    if is_used(present, "text") {
        let mut props: Vec<(String, String)> = Vec::new();
        props.push(decl("fill", "currentColor"));
        props.push(decl("stroke", "none"));
        props.push(decl("text-anchor", "middle"));
        proof {
            assert(pair_views(props@) =~= seq![
                ("fill"@, "currentColor"@),
                ("stroke"@, "none"@),
                ("text-anchor"@, "middle"@),
            ]);
        }
        push_rule(rules, "lini-text".to_string(), props);
    }
    let ghost r4 = rule_views(rules@);
    push_masked_when(rules, cs, present, "icon", vars, opts);
    proof {
        let p = present@;
        let t = when(
            views(p).contains("text"@),
            ("lini-text"@, seq![("fill"@, "currentColor"@), ("stroke"@, "none"@), ("text-anchor"@, "middle"@)]),
        );
        assert(r4 =~= r3 + t);
        assert(rule_views(rules@) =~= r0 + shape_rules(cs@, p, vars, opts));
    }
}

/// The primitive node kinds: the closed ones, then `line`, `icon`, `text`
/// and `image`.
pub open spec fn node_kinds() -> Seq<Seq<char>> {
    closed_kinds() + seq!["line"@, "icon"@, "text"@, "image"@]
}

/// Whether `name` is a primitive node kind.
fn is_node_kind(name: &str) -> (b: bool)
    ensures
        b == node_kinds().contains(name@),
{
    let mut k: usize = 0;
    while k < 9
        invariant
            k <= 9,
            forall|j: int| 0 <= j < k ==> node_kinds()[j] != name@,
        decreases 9 - k,
    {
        if str_eq(closed_kind(k), name) {
            proof {
                assert(node_kinds()[k as int] == closed_kinds()[k as int]);
            }
            return true;
        }
        proof {
            assert(node_kinds()[k as int] == closed_kinds()[k as int]);
        }
        k = k + 1;
    }
    let extra = str_eq(name, "line") || str_eq(name, "icon") || str_eq(name, "text") || str_eq(name, "image");
    proof {
        assert(node_kinds()[9] == "line"@ && node_kinds()[10] == "icon"@);
        assert(node_kinds()[11] == "text"@ && node_kinds()[12] == "image"@);
        if node_kinds().contains(name@) {
            let j = choose|j: int| 0 <= j < node_kinds().len() && node_kinds()[j] == name@;
            assert(j >= 9);
        }
    }
    extra
}

/// The name after the `lini-` prefix.
fn bare_name(name: &str) -> (b: String)
    requires
        engine_class(name@),
    ensures
        b@ == name@.skip(5),
{
    let cs = chars_of(name);
    let mut b = String::new();
    let mut i: usize = 5;
    while i < cs.len()
        invariant
            5 <= i <= cs@.len(),
            cs@ == name@,
            b@ == name@.subrange(5, i as int),
        decreases cs@.len() - i,
    {
        b.push(cs[i]);
        proof {
            assert(name@.subrange(5, i + 1) =~= name@.subrange(5, i as int).push(cs@[i as int]));
        }
        i = i + 1;
    }
    proof {
        assert(name@.subrange(5, cs@.len() as int) =~= name@.skip(5));
    }
    b
}

/// Whether the class rule `c` is a template or define look that is drawn:
/// an engine class whose bare name is no primitive kind and is present.
pub open spec fn template_look(c: (String, AttrMap), present: Seq<String>) -> bool {
    engine_class(c.0@) && !node_kinds().contains(c.0@.skip(5)) && views(present).contains(c.0@.skip(5))
}

/// The template and define looks of class rules `cs`, in class-rule order:
/// each drawn look's paint.
pub open spec fn template_rules(cs: Seq<(String, AttrMap)>, present: Seq<String>, vars: &VarTable, opts: &Options) -> Seq<
    (Seq<char>, Seq<(Seq<char>, Seq<char>)>),
>
    decreases cs.len(),
{
    if cs.len() == 0 {
        Seq::empty()
    } else {
        let before = template_rules(cs.drop_last(), present, vars, opts);
        let c = cs.last();
        if template_look(c, present) {
            before.push((c.0@, paint_props_text(&c.1, vars, opts)))
        } else {
            before
        }
    }
}

/// Template and define looks — a group's wash, a define's paint — in
/// class-rule order (templates, then defines), for the looks something
/// wears; element rules are already folded into them.
pub fn build_template_rules(
    rules: &mut Vec<Rule>,
    laid: &LaidOut,
    present: &[String],
    vars: &VarTable,
    opts: &Options,
)
    requires
        sheet_paints_formattable(laid.sheet.class_rules@, vars, opts),
    ensures
        rule_views(final(rules)@) == rule_views(old(rules)@) + template_rules(
            laid.sheet.class_rules@,
            present@,
            vars,
            opts,
        ),
{
    let cs = &laid.sheet.class_rules;
    let n = cs.len();
    let mut i: usize = 0;
    proof {
        assert(cs@.take(0) =~= Seq::<(String, AttrMap)>::empty());
        assert(rule_views(rules@) =~= rule_views(old(rules)@) + template_rules(cs@.take(0), present@, vars, opts));
    }
    while i < n
        invariant
            n == cs@.len(),
            i <= n,
            sheet_paints_formattable(cs@, vars, opts),
            rule_views(rules@) == rule_views(old(rules)@) + template_rules(cs@.take(i as int), present@, vars, opts),
        decreases n - i,
    {
        let name = cs[i].0.as_str();
        proof {
            assert(cs@.take(i + 1).drop_last() =~= cs@.take(i as int));
            assert(cs@.take(i + 1).last() == cs@[i as int]);
        }
        if engine_class_exec(name) {
            let bare = bare_name(name);
            if !is_node_kind(bare.as_str()) && is_used(present, bare.as_str()) {
                proof {
                    assert(template_look(cs@[i as int], present@));
                    assert(paints_formattable(&cs@[i as int].1, vars, opts));
                }
                let props = paint_props(&cs[i].1, vars, opts);
                push_rule(rules, cs[i].0.clone(), props);
            }
        }
        proof {
            assert(rule_views(rules@) =~= rule_views(old(rules)@) + template_rules(cs@.take(i + 1), present@, vars, opts));
        }
        i = i + 1;
    }
    proof {
        assert(cs@.take(n as int) =~= cs@);
    }
}

} // verus!
