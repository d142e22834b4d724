use lini::render::rules::{Rule, RuleSet};
use lini::render::style_block::{emit, scope_class};
use lini::resolve::{ResolvedCall, ResolvedValue, VarTable};
use lini::Options;

fn vars() -> VarTable {
    let mut t = VarTable::new();
    t.entries.push(("stroke".to_string(), ResolvedValue::Hex("333333".to_string())));
    t.entries.push(("bg".to_string(), ResolvedValue::Hex("ffffff".to_string())));
    t.entries.push((
        "teal".to_string(),
        ResolvedValue::Call(ResolvedCall {
            name: "light-dark".to_string(),
            args: vec![ResolvedValue::Hex("00aaaa".to_string()), ResolvedValue::Hex("007777".to_string())],
        }),
    ));
    t.entries.push(("font-family".to_string(), ResolvedValue::RawCss("\"Google Sans\", sans-serif".to_string())));
    t
}

fn rules() -> RuleSet {
    RuleSet {
        rules: vec![Rule {
            class: "lini-box".to_string(),
            props: vec![("stroke".to_string(), "var(--lini-stroke)".to_string())],
        }],
    }
}

fn used(names: &[&str]) -> Vec<String> {
    names.iter().map(|s| s.to_string()).collect()
}

#[test]
fn only_used_variables_are_declared_in_key_order() {
    let mut out = String::new();
    emit(&mut out, "lini-s", &vars(), &rules(), &used(&["stroke", "bg", "missing"]), &Options::default(), 0, None);
    assert_eq!(
        out,
        "  <style>\n    @layer lini.defaults {\n      :root, .lini-s { --lini-bg: #ffffff; --lini-stroke: #333333; }\n    }\n    .lini-s .lini-box { stroke: var(--lini-stroke); }\n  </style>\n"
    );
}

#[test]
fn a_light_dark_value_makes_the_block_adaptive() {
    let mut out = String::new();
    emit(&mut out, "s", &vars(), &rules(), &used(&["teal"]), &Options::default(), 0, None);
    assert!(out.contains(":root, .s { color-scheme: light dark; --lini-teal: light-dark(#00aaaa, #007777); }"));
    assert!(out.contains("      .s[data-theme=\"dark\"], [data-theme=\"dark\"] .s { color-scheme: dark; }\n"));
    assert!(out.contains("      .s[data-theme=\"light\"], [data-theme=\"light\"] .s { color-scheme: light; }\n"));
}

#[test]
fn static_output_drops_the_defaults_and_embedding_leads_the_font_stack() {
    let mut out = String::new();
    let mut opts = Options::default();
    opts.static_mode = true;
    emit(&mut out, "s", &vars(), &rules(), &used(&["stroke"]), &opts, 2, Some("    @font-face { }\n"));
    assert!(!out.contains("@layer"));
    assert!(out.starts_with("  <style>\n    @font-face { }\n"));
    assert!(out.contains("    .s .lini-hit-1:hover ~ .lini-tip-1 { visibility: visible; }\n"));
    let mut out = String::new();
    let mut opts = Options::default();
    opts.embed_font = true;
    emit(&mut out, "s", &vars(), &rules(), &used(&["font-family"]), &opts, 0, None);
    assert!(out.contains("--lini-font-family: \"Lini Sans\", \"Google Sans\", sans-serif;"));
}

#[test]
fn the_scope_names_the_stylesheet() {
    let a = scope_class(&vars(), &rules(), &used(&["stroke"]), &Options::default(), 0);
    let b = scope_class(&vars(), &rules(), &used(&["stroke"]), &Options::default(), 0);
    let c = scope_class(&vars(), &rules(), &used(&["bg"]), &Options::default(), 0);
    assert!(a.starts_with("lini-scope-"));
    assert_eq!(a.len(), "lini-scope-".len() + 8);
    assert_eq!(a, b);
    assert_ne!(a, c);
}
