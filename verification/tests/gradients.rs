use lini::render::gradients::{parse, rewrite, GradientKind};
use lini::resolve::{Num, ResolvedCall, ResolvedValue};

fn grad(name: &str, args: Vec<ResolvedValue>) -> ResolvedValue {
    ResolvedValue::Call(ResolvedCall { name: name.into(), args })
}

fn hue(name: &str) -> ResolvedValue {
    ResolvedValue::LiveVar { name: name.into(), raw: false }
}

fn is_angle(kind: GradientKind, deg: i64) -> bool {
    match kind {
        GradientKind::Linear(a) => a.mant() == deg && a.exp() == 0,
        GradientKind::Radial => false,
    }
}

#[test]
fn gradients_gradient_defaults_to_135_linear() {
    let g = parse(&grad("gradient", vec![hue("teal"), hue("sky")])).unwrap();
    assert!(is_angle(g.kind, 135));
    assert_eq!(g.stops.len(), 2);
}

#[test]
fn gradients_linear_gradient_takes_a_leading_angle() {
    let g = parse(&grad(
        "linear-gradient",
        vec![ResolvedValue::Number(Num::whole(60)), hue("rose"), hue("amber")],
    ))
    .unwrap();
    assert!(is_angle(g.kind, 60));
    assert_eq!(g.stops.len(), 2);
}

#[test]
fn gradients_radial_and_multi_stop() {
    let g = parse(&grad("radial-gradient", vec![hue("rose"), hue("amber"), hue("sky")])).unwrap();
    assert!(matches!(g.kind, GradientKind::Radial));
    assert_eq!(g.stops.len(), 3);
}

#[test]
fn gradients_fewer_than_two_stops_is_not_a_gradient() {
    assert!(parse(&grad("gradient", vec![hue("teal")])).is_none());
}

#[test]
fn gradients_non_gradient_call_is_ignored() {
    assert!(parse(&grad("rgb", vec![ResolvedValue::Number(Num::whole(1))])).is_none());
}

#[test]
fn gradients_identical_gradients_share_one_id() {
    let mut defs = Vec::new();
    let mut keys = Vec::new();
    let mut a = grad("gradient", vec![hue("teal"), hue("sky")]);
    let mut b = grad("gradient", vec![hue("teal"), hue("sky")]);
    rewrite(&mut a, &mut defs, &mut keys);
    rewrite(&mut b, &mut defs, &mut keys);
    assert_eq!(defs.len(), 1, "identical gradients must dedup");
    assert!(matches!(&a, ResolvedValue::RawCss(s) if s == "url(#lini-gradient-1)"));
    assert!(matches!(&b, ResolvedValue::RawCss(s) if s == "url(#lini-gradient-1)"));
}

#[test]
fn different_stops_take_the_next_id() {
    let mut defs = Vec::new();
    let mut keys = Vec::new();
    let mut a = grad("gradient", vec![hue("teal"), hue("sky")]);
    let mut b = grad("gradient", vec![hue("sky"), hue("teal")]);
    let mut c = grad("linear-gradient", vec![ResolvedValue::Number(Num::new(1350, 1)), hue("teal"), hue("sky")]);
    rewrite(&mut a, &mut defs, &mut keys);
    rewrite(&mut b, &mut defs, &mut keys);
    rewrite(&mut c, &mut defs, &mut keys);
    assert_eq!(defs.len(), 2);
    assert!(matches!(&b, ResolvedValue::RawCss(s) if s == "url(#lini-gradient-2)"));
    // 135.0 is the default angle written out: the same gradient.
    assert!(matches!(&c, ResolvedValue::RawCss(s) if s == "url(#lini-gradient-1)"));
}

#[test]
fn a_non_gradient_value_is_left_alone() {
    let mut defs = Vec::new();
    let mut keys = Vec::new();
    let mut v = hue("teal");
    rewrite(&mut v, &mut defs, &mut keys);
    assert!(defs.is_empty());
    assert!(matches!(&v, ResolvedValue::LiveVar { name, raw: false } if name == "teal"));
}
