use lini::layout::{LaidOut, PlacedNode, RoutedText, RoutedWire, Sheet};
use lini::render::paints::{GradientDef, GradientKind};
use lini::render::rules::{Rule, RuleSet};
use lini::render::used_vars::{close_over_vars, collect_live, referenced, scan_css, walk_attrs};
use lini::resolve::{AttrMap, Num, ResolvedCall, ResolvedValue, VarTable};

fn live(name: &str) -> ResolvedValue {
    ResolvedValue::LiveVar { name: name.to_string(), raw: false }
}

fn sorted(mut v: Vec<String>) -> Vec<String> {
    v.sort();
    v
}

#[test]
fn a_kept_alias_pulls_in_its_target() {
    let vars = VarTable {
        entries: vec![
            ("text-color".to_string(), live("fg")),
            ("fg".to_string(), ResolvedValue::Hex("111111".to_string())),
            ("rose".to_string(), ResolvedValue::Hex("ff0066".to_string())),
        ],
    };
    let mut names = vec!["text-color".to_string()];
    close_over_vars(&mut names, &vars);
    assert_eq!(sorted(names), vec!["fg".to_string(), "text-color".to_string()]);
}

#[test]
fn closure_follows_chains_and_stops_at_cycles() {
    let vars = VarTable {
        entries: vec![
            ("a".to_string(), live("b")),
            ("b".to_string(), ResolvedValue::Tuple(vec![live("c"), live("a")])),
            ("c".to_string(), ResolvedValue::LiveVar { name: "raw-one".to_string(), raw: true }),
            ("d".to_string(), live("e")),
        ],
    };
    let mut names = vec!["a".to_string()];
    close_over_vars(&mut names, &vars);
    assert_eq!(sorted(names), vec!["a".to_string(), "b".to_string(), "c".to_string()]);
}

#[test]
fn an_unused_palette_stays_out() {
    let vars = VarTable { entries: vec![("teal".to_string(), live("rose"))] };
    let mut names = vec!["fill".to_string()];
    close_over_vars(&mut names, &vars);
    assert_eq!(names, vec!["fill".to_string()]);
}

#[test]
fn live_names_are_found_inside_groups_and_calls_once_each() {
    let v = ResolvedValue::List(vec![
        ResolvedValue::Tuple(vec![live("teal"), ResolvedValue::Number(Num::whole(2))]),
        ResolvedValue::Call(ResolvedCall { name: "mix".to_string(), args: vec![live("rose"), live("teal")] }),
        ResolvedValue::LiveVar { name: "brand".to_string(), raw: true },
    ]);
    let mut names = Vec::new();
    collect_live(&v, &mut names);
    assert_eq!(names, vec!["teal".to_string(), "rose".to_string()]);
}

#[test]
fn every_attribute_value_is_walked() {
    let mut attrs = AttrMap::new();
    attrs.insert("fill", live("teal"));
    attrs.insert("stroke", live("fg"));
    attrs.insert("width", ResolvedValue::Number(Num::whole(3)));
    let mut names = vec!["fg".to_string()];
    walk_attrs(&attrs, &mut names);
    assert_eq!(names, vec!["fg".to_string(), "teal".to_string()]);
}

#[test]
fn css_text_references_are_scanned() {
    let mut names = Vec::new();
    scan_css("var(--lini-fill)", &mut names);
    scan_css("1px solid var(--lini-stroke, var(--lini-fg)) var(--lini-)x", &mut names);
    scan_css("var(--other) var(--lini-fill)", &mut names);
    assert_eq!(names, vec!["fill".to_string(), "stroke".to_string(), "fg".to_string()]);
}

fn rule(class: &str, props: &[(&str, &str)]) -> Rule {
    Rule {
        class: class.to_string(),
        props: props.iter().map(|(p, v)| (p.to_string(), v.to_string())).collect(),
    }
}

fn attrs(pairs: &[(&str, ResolvedValue)]) -> AttrMap {
    let mut a = AttrMap::new();
    for (k, v) in pairs {
        a.insert(k, v.clone());
    }
    a
}

fn empty_sheet() -> Sheet {
    Sheet { class_rules: Vec::new(), wire_defaults: AttrMap::new(), root_text: AttrMap::new(), root_font_size: Num::whole(14) }
}

#[test]
fn referenced_gathers_the_document_and_closes_over_the_table() {
    let rules = RuleSet {
        rules: vec![
            rule("lini", &[("color", "var(--lini-text-color)"), ("font-size", "14px")]),
            rule("lini-box", &[("fill", "var(--lini-fill)"), ("stroke", "var(--lini-stroke)")]),
        ],
    };
    let laid = LaidOut {
        nodes: vec![PlacedNode {
            attrs: attrs(&[("fill", live("teal"))]),
            type_chain: vec!["box".to_string()],
            children: vec![PlacedNode {
                attrs: attrs(&[("stroke", live("sky-deep"))]),
                type_chain: Vec::new(),
                children: Vec::new(),
            }],
        }],
        wires: vec![RoutedWire {
            attrs: AttrMap::new(),
            texts: vec![RoutedText { attrs: attrs(&[("color", live("muted"))]) }],
        }],
        airwires: 1,
        sheet: empty_sheet(),
        canvas_fill: Some(live("bg")),
        gradients: vec![GradientDef { kind: GradientKind::Radial, stops: vec![live("rose"), live("teal")] }],
        vars: VarTable {
            entries: vec![
                ("text-color".to_string(), live("fg")),
                ("fg".to_string(), ResolvedValue::Hex("222222".to_string())),
                ("unused".to_string(), live("violet")),
            ],
        },
    };
    let names = referenced(&laid, &rules);
    let expected: Vec<String> = [
        "airwire", "bg", "fg", "fill", "muted", "rose", "sky-deep", "stroke", "teal", "text-color",
    ]
    .iter()
    .map(|s| s.to_string())
    .collect();
    assert_eq!(names, expected);
}

#[test]
fn a_bare_document_keeps_only_what_its_rules_name() {
    let rules = RuleSet { rules: vec![rule("lini-canvas", &[("fill", "var(--lini-bg)")])] };
    let laid = LaidOut {
        nodes: Vec::new(),
        wires: Vec::new(),
        airwires: 0,
        sheet: empty_sheet(),
        canvas_fill: None,
        gradients: Vec::new(),
        vars: VarTable { entries: vec![("teal".to_string(), ResolvedValue::Hex("00aaaa".to_string()))] },
    };
    assert_eq!(referenced(&laid, &rules), vec!["bg".to_string()]);
}
