use lini::render::fonts::{lead_with_scoped, scoped_name, Kind};
use lini::render::rules::{dash_value, effective_stroke, ensure_dash_none, Rule, RuleSet};
use lini::render::stylesheet::paint_props;
use lini::render::values::dash_pattern;
use lini::resolve::{AttrMap, Num, ResolvedValue, VarTable};
use lini::Options;

fn rule(class: &str, props: &[(&str, &str)]) -> Rule {
    Rule {
        class: class.to_string(),
        props: props.iter().map(|(p, v)| (p.to_string(), v.to_string())).collect(),
    }
}

fn strings(xs: &[&str]) -> Vec<String> {
    xs.iter().map(|s| s.to_string()).collect()
}

fn sheet() -> RuleSet {
    RuleSet {
        rules: vec![
            rule("lini", &[("color", "var(--lini-text-color)")]),
            rule("lini-box", &[("fill", "var(--lini-fill)"), ("stroke", "var(--lini-stroke)")]),
            rule("lini-style-a", &[("stroke", "red")]),
            rule("lini-box.lini-style-b", &[("stroke", "blue")]),
            rule("lini-style-a .lini-marker", &[("fill", "red")]),
            rule("lini-marker", &[("fill", "var(--lini-stroke)")]),
            rule("lini-empty", &[]),
        ],
    }
}

#[test]
fn emit_heads_every_selector_with_the_scope() {
    let mut out = String::new();
    sheet().emit(&mut out, "lini-s1");
    assert!(out.starts_with("    .lini-s1 { color: var(--lini-text-color); }\n"));
    assert!(out.contains("    .lini-s1 .lini-box { fill: var(--lini-fill); stroke: var(--lini-stroke); }\n"));
    assert!(!out.contains("lini-empty"));
}

#[test]
fn the_most_specific_rule_wins_and_later_rules_break_ties() {
    let set = sheet();
    let box_a = strings(&["lini-box", "lini-style-a"]);
    assert_eq!(set.provided(&box_a, &[], "stroke"), Some("red"));
    let box_ab = strings(&["lini-box", "lini-style-a", "lini-style-b"]);
    assert_eq!(set.provided(&box_ab, &[], "stroke"), Some("blue"));
    assert_eq!(set.provided(&strings(&["lini-box"]), &[], "opacity"), None);
    // The root rule only ever matches an element wearing `lini`.
    assert_eq!(set.provided(&strings(&["lini-box"]), &[], "color"), None);
}

#[test]
fn a_marker_takes_its_fill_from_the_styled_line() {
    let set = sheet();
    assert_eq!(set.marker_fill(&strings(&["lini-style-a"])), Some("red"));
    assert_eq!(set.marker_fill(&strings(&["lini-link"])), Some("var(--lini-stroke)"));
}

#[test]
fn inline_paint_keeps_only_what_the_sheet_does_not_say() {
    let set = sheet();
    let mut formatted: Vec<Option<String>> = vec![None; 11];
    formatted[0] = Some("var(--lini-fill)".to_string());
    formatted[1] = Some("green".to_string());
    let mut attrs = AttrMap::new();
    attrs.insert("stroke-style", ResolvedValue::Ident("dashed".to_string()));
    let decls = set.inline_paint_diff(&strings(&["lini-box"]), &[], &attrs, &formatted);
    assert_eq!(decls, vec![("stroke", "green".to_string()), ("stroke-dasharray", "2,1.5".to_string())]);
}

#[test]
fn effective_stroke_falls_back_through_the_sheet_to_the_variable() {
    let set = sheet();
    let vars = VarTable::new();
    let opts = Options::default();
    let mut attrs = AttrMap::new();
    assert_eq!(effective_stroke(&attrs, &strings(&["lini-style-a"]), &[], &set, &vars, &opts), "red");
    assert_eq!(effective_stroke(&attrs, &strings(&["lini-text"]), &[], &set, &vars, &opts), "var(--lini-stroke)");
    attrs.insert("stroke", ResolvedValue::Hex("abc".to_string()));
    assert_eq!(effective_stroke(&attrs, &strings(&["lini-style-a"]), &[], &set, &vars, &opts), "#abc");
}

#[test]
fn dash_patterns_scale_with_the_width() {
    assert_eq!(dash_pattern("dashed", &Num::whole(1)), "4,3");
    assert_eq!(dash_pattern("dashed", &Num::whole(4)), "10,7.5");
    assert_eq!(dash_pattern("dotted", &Num::new(15, 1)), "1.5,3");
    assert_eq!(dash_pattern("wavy", &Num::whole(2)), "");
    let mut attrs = AttrMap::new();
    assert_eq!(dash_value(&attrs), None);
    attrs.insert("stroke-style", ResolvedValue::Ident("solid".to_string()));
    assert_eq!(dash_value(&attrs), Some("none".to_string()));
    attrs.insert("stroke-style", ResolvedValue::Ident("dotted".to_string()));
    attrs.insert("stroke-width", ResolvedValue::Number(Num::whole(2)));
    assert_eq!(dash_value(&attrs), Some("2,4".to_string()));
}

#[test]
fn a_dash_mask_is_added_once() {
    let mut props = vec![("fill".to_string(), "none".to_string())];
    ensure_dash_none(&mut props);
    ensure_dash_none(&mut props);
    assert_eq!(props.len(), 2);
    assert_eq!(props[1], ("stroke-dasharray".to_string(), "none".to_string()));
}

#[test]
fn paint_props_translate_the_paint_subset() {
    let mut attrs = AttrMap::new();
    attrs.insert("font-size", ResolvedValue::Number(Num::whole(12)));
    attrs.insert("fill", ResolvedValue::LiveVar { name: "teal".to_string(), raw: false });
    attrs.insert("label", ResolvedValue::String("x".to_string()));
    attrs.insert("stroke-style", ResolvedValue::Ident("dashed".to_string()));
    let props = paint_props(&attrs, &VarTable::new(), &Options::default());
    assert_eq!(
        props,
        vec![
            ("fill".to_string(), "var(--lini-teal)".to_string()),
            ("font-size".to_string(), "12px".to_string()),
            ("stroke-dasharray".to_string(), "2,1.5".to_string()),
        ]
    );
}

#[test]
fn bundled_stacks_lead_with_the_scoped_face() {
    assert_eq!(scoped_name(Kind::Mono), "Lini Sans Code");
    assert_eq!(scoped_name(Kind::Prop), "Lini Sans");
    assert_eq!(
        lead_with_scoped("\"Google Sans Code\", monospace"),
        "\"Lini Sans Code\", \"Google Sans Code\", monospace"
    );
    assert_eq!(lead_with_scoped(" 'Google Sans' ,sans-serif"), "\"Lini Sans\",  'Google Sans' ,sans-serif");
    assert_eq!(lead_with_scoped("Inter, sans-serif"), "Inter, sans-serif");
}
