use lini::layout::{LaidOut, Sheet};
use lini::render::rules::Rule;
use lini::render::stylesheet::families::{
    build_frame_rules, build_gutter_rule, build_halo_rules, build_marker_rules, build_open_marker_rule, build_shape_rules, build_style_class_rules, build_template_rules, cut_bg_props,
    emit_generated_default, live,
};
use lini::resolve::{AttrMap, Num, ResolvedValue, VarTable};
use lini::Options;

fn laid_with(class_rules: Vec<(String, AttrMap)>) -> LaidOut {
    LaidOut {
        nodes: Vec::new(),
        wires: Vec::new(),
        airwires: 0,
        sheet: Sheet { class_rules, wire_defaults: AttrMap::new(), root_text: AttrMap::new(), root_font_size: Num::whole(14) },
        canvas_fill: None,
        gradients: Vec::new(),
        vars: VarTable::new(),
    }
}

fn view(rules: &[Rule]) -> Vec<(String, Vec<(String, String)>)> {
    rules.iter().map(|r| (r.class.clone(), r.props.clone())).collect()
}

fn props(pairs: &[(&str, &str)]) -> Vec<(String, String)> {
    pairs.iter().map(|(p, v)| (p.to_string(), v.to_string())).collect()
}

#[test]
fn a_generated_default_yields_to_an_authored_rule() {
    let mut rules = Vec::new();
    let laid = laid_with(vec![("lini-halo".to_string(), AttrMap::new())]);
    emit_generated_default(&mut rules, &laid, "lini-halo", true, props(&[("stroke", "black")]));
    assert!(rules.is_empty());
    emit_generated_default(&mut rules, &laid, "lini-projection", false, props(&[("stroke", "grey")]));
    assert!(rules.is_empty());
    emit_generated_default(&mut rules, &laid, "lini-projection", true, props(&[("stroke", "grey")]));
    assert_eq!(view(&rules), vec![("lini-projection".to_string(), props(&[("stroke", "grey")]))]);
}

#[test]
fn halo_rules_carry_the_ground_only_without_labels() {
    let laid = laid_with(Vec::new());
    let mut rules = Vec::new();
    build_halo_rules(&mut rules, &laid, true, false);
    assert_eq!(
        view(&rules),
        vec![
            ("lini-cut-bg".to_string(), cut_bg_props()),
            ("lini-halo".to_string(), props(&[("stroke", "black")])),
        ]
    );
    let mut rules = Vec::new();
    build_halo_rules(&mut rules, &laid, true, true);
    assert_eq!(view(&rules), vec![("lini-halo".to_string(), props(&[("stroke", "black")]))]);
    let mut rules = Vec::new();
    build_halo_rules(&mut rules, &laid, false, false);
    assert!(rules.is_empty());
}

#[test]
fn gutter_and_open_marker_rules_appear_only_when_needed() {
    let mut rules = Vec::new();
    build_gutter_rule(&mut rules, false);
    build_open_marker_rule(&mut rules, false);
    assert!(rules.is_empty());
    build_gutter_rule(&mut rules, true);
    build_open_marker_rule(&mut rules, true);
    assert_eq!(
        view(&rules),
        vec![
            ("lini-gutter".to_string(), props(&[("stroke", "none")])),
            (
                "lini-marker.lini-marker-open".to_string(),
                props(&[("fill", "none"), ("stroke", "inherit"), ("stroke-linecap", "round"), ("stroke-dasharray", "none")]),
            ),
        ]
    );
}

#[test]
fn a_live_reference_is_a_lini_var() {
    let vars = VarTable::new();
    assert_eq!(live("bg", &vars, &Options::default()), "var(--lini-bg)");
}

#[test]
fn style_class_rules_paint_used_user_classes_and_their_markers() {
    let mut warn = AttrMap::new();
    warn.insert("stroke", ResolvedValue::Hex("ff0000".to_string()));
    let mut calm = AttrMap::new();
    calm.insert("fill", ResolvedValue::Hex("00ff00".to_string()));
    let laid = laid_with(vec![
        ("lini-box".to_string(), AttrMap::new()),
        ("warn".to_string(), warn),
        ("calm".to_string(), calm),
        ("unused".to_string(), AttrMap::new()),
    ]);
    let used = vec!["warn".to_string(), "calm".to_string(), "box".to_string()];
    let vars = VarTable::new();
    let opts = Options::default();
    let mut rules = Vec::new();
    build_style_class_rules(&mut rules, &laid, &used, true, &vars, &opts);
    assert_eq!(
        view(&rules),
        vec![
            ("lini-style-warn".to_string(), props(&[("stroke", "#ff0000")])),
            ("lini-style-warn .lini-marker".to_string(), props(&[("fill", "#ff0000")])),
            ("lini-style-calm".to_string(), props(&[("fill", "#00ff00")])),
        ]
    );
    let mut rules = Vec::new();
    build_style_class_rules(&mut rules, &laid, &used, false, &vars, &opts);
    assert_eq!(view(&rules).len(), 2);
}

#[test]
fn frame_rules_state_the_text_baseline_and_the_canvas_plate() {
    let mut laid = laid_with(Vec::new());
    laid.sheet.root_text.insert("font-style", ResolvedValue::Ident("italic".to_string()));
    laid.sheet.root_text.insert("color", ResolvedValue::Hex("333333".to_string()));
    laid.sheet.root_font_size = Num::new(135, 1);
    let vars = VarTable::new();
    let mut rules = Vec::new();
    build_frame_rules(&mut rules, &laid, &vars, &Options::default());
    assert_eq!(
        view(&rules),
        vec![
            (
                "lini".to_string(),
                props(&[
                    ("font-family", "var(--lini-font-family)"),
                    ("font-size", "13.5px"),
                    ("font-weight", "var(--lini-font-weight)"),
                    ("color", "#333333"),
                    ("font-style", "italic"),
                ]),
            ),
            ("lini-canvas".to_string(), props(&[("fill", "var(--lini-bg)")])),
        ]
    );
}

#[test]
fn marker_rules_follow_the_link_stroke_and_the_drafting_heads() {
    let laid = laid_with(vec![("lini-marker-datum".to_string(), AttrMap::new())]);
    let vars = VarTable::new();
    let present = vec!["marker-dim".to_string(), "marker-datum".to_string(), "chart-label".to_string()];
    let mut rules = Vec::new();
    build_marker_rules(&mut rules, &laid, &present, true, &vars, &Options::default());
    assert_eq!(
        view(&rules),
        vec![
            ("lini-marker".to_string(), props(&[("fill", "var(--lini-stroke)"), ("stroke", "none")])),
            ("lini-marker-dim".to_string(), props(&[("fill", "var(--lini-stroke-dark)")])),
            ("lini-chart-label".to_string(), props(&[("pointer-events", "none")])),
        ]
    );
    let mut rules = Vec::new();
    build_marker_rules(&mut rules, &laid, &[], false, &vars, &Options::default());
    assert!(rules.is_empty());
}

#[test]
fn shape_rules_appear_only_for_the_kinds_present() {
    let mut block = AttrMap::new();
    block.insert("stroke", ResolvedValue::Hex("ff0000".to_string()));
    let mut oval = AttrMap::new();
    oval.insert("fill", ResolvedValue::Hex("00ff00".to_string()));
    let laid = laid_with(vec![("lini-block".to_string(), block), ("lini-oval".to_string(), oval)]);
    let vars = VarTable::new();
    let present = vec!["block".to_string()];
    let mut rules = Vec::new();
    build_shape_rules(&mut rules, &laid, &present, &vars, &Options::default());
    assert_eq!(
        view(&rules),
        vec![("lini-block".to_string(), props(&[("stroke", "#ff0000"), ("stroke-dasharray", "none")]))]
    );
    let mut rules = Vec::new();
    build_shape_rules(&mut rules, &laid, &[], &vars, &Options::default());
    assert!(rules.is_empty());
}

#[test]
fn every_closed_kind_rule_masks_the_dash() {
    let laid = laid_with(Vec::new());
    let vars = VarTable::new();
    let kinds = ["sketch", "block", "oval", "hex", "slant", "cyl", "diamond", "poly", "path", "line", "icon"];
    let present: Vec<String> = kinds.iter().map(|k| k.to_string()).collect();
    let mut rules = Vec::new();
    build_shape_rules(&mut rules, &laid, &present, &vars, &Options::default());
    let classes: Vec<String> = rules.iter().map(|r| r.class.clone()).collect();
    assert_eq!(
        classes,
        vec![
            "lini-block", "lini-oval", "lini-hex", "lini-slant", "lini-cyl", "lini-diamond", "lini-poly", "lini-path",
            "lini-sketch", "lini-line", "lini-icon",
        ]
    );
    for r in &rules {
        assert_eq!(r.props, props(&[("stroke-dasharray", "none")]), "{}", r.class);
    }
}

#[test]
fn drawing_anatomy_and_text_rules_state_their_constant_paint() {
    let laid = laid_with(vec![("lini-ext-line".to_string(), AttrMap::new())]);
    let vars = VarTable::new();
    let present: Vec<String> =
        ["text", "dim-line", "ext-line", "dim-text"].iter().map(|k| k.to_string()).collect();
    let mut rules = Vec::new();
    build_shape_rules(&mut rules, &laid, &present, &vars, &Options::default());
    assert_eq!(
        view(&rules),
        vec![
            (
                "lini-dim-line".to_string(),
                props(&[("fill", "none"), ("stroke", "var(--lini-stroke-dark)"), ("stroke-width", "1")])
            ),
            ("lini-dim-text".to_string(), props(&[("font-size", "12px"), ("font-weight", "normal")])),
            (
                "lini-text".to_string(),
                props(&[("fill", "currentColor"), ("stroke", "none"), ("text-anchor", "middle")])
            ),
        ]
    );
}

#[test]
fn template_looks_paint_worn_templates_in_class_rule_order() {
    let mut group = AttrMap::new();
    group.insert("fill", ResolvedValue::Hex("eeeeee".to_string()));
    let mut card = AttrMap::new();
    card.insert("stroke", ResolvedValue::Hex("333333".to_string()));
    let mut block = AttrMap::new();
    block.insert("fill", ResolvedValue::Hex("ffffff".to_string()));
    let laid = laid_with(vec![
        ("lini-group".to_string(), group),
        ("lini-block".to_string(), block),
        ("lini-card".to_string(), card),
        ("lini-unworn".to_string(), AttrMap::new()),
        ("warn".to_string(), AttrMap::new()),
    ]);
    let present: Vec<String> = ["card", "block", "group", "warn"].iter().map(|k| k.to_string()).collect();
    let mut rules = Vec::new();
    build_template_rules(&mut rules, &laid, &present, &VarTable::new(), &Options::default());
    assert_eq!(
        view(&rules),
        vec![
            ("lini-group".to_string(), props(&[("fill", "#eeeeee")])),
            ("lini-card".to_string(), props(&[("stroke", "#333333")])),
        ]
    );
}
