use lini::render::paints::{lower_clip, parse, parse_hatch, rewrite, GradientKind, Interner};
use lini::resolve::{AttrMap, Num, ResolvedCall, ResolvedValue};

fn grad(name: &str, args: Vec<ResolvedValue>) -> ResolvedValue {
    ResolvedValue::Call(ResolvedCall { name: name.into(), args })
}

fn hue(name: &str) -> ResolvedValue {
    ResolvedValue::LiveVar { name: name.into(), raw: false }
}

fn number(n: i64) -> ResolvedValue {
    ResolvedValue::Number(Num::whole(n))
}

fn is_angle(kind: GradientKind, deg: i64) -> bool {
    match kind {
        GradientKind::Linear(a) => a.mant() == deg && a.exp() == 0,
        GradientKind::Radial => false,
    }
}

fn whole(n: &Num) -> i64 {
    assert_eq!(n.exp(), 0);
    n.mant()
}

#[test]
fn paints_gradient_defaults_to_135_linear() {
    let g = parse(&grad("gradient", vec![hue("teal"), hue("sky")])).unwrap();
    assert!(is_angle(g.kind, 135));
    assert_eq!(g.stops.len(), 2);
}

#[test]
fn paints_linear_gradient_takes_a_leading_angle() {
    let g = parse(&grad("linear-gradient", vec![number(60), hue("rose"), hue("amber")])).unwrap();
    assert!(is_angle(g.kind, 60));
    assert_eq!(g.stops.len(), 2);
}

#[test]
fn paints_radial_and_multi_stop() {
    let g = parse(&grad("radial-gradient", vec![hue("rose"), hue("amber"), hue("sky")])).unwrap();
    assert!(matches!(g.kind, GradientKind::Radial));
    assert_eq!(g.stops.len(), 3);
}

#[test]
fn paints_fewer_than_two_stops_is_not_a_gradient() {
    assert!(parse(&grad("gradient", vec![hue("teal")])).is_none());
}

#[test]
fn paints_non_gradient_call_is_ignored() {
    assert!(parse(&grad("rgb", vec![number(1)])).is_none());
}

#[test]
fn hatch_parses_its_forms_and_dedups() {
    // Bare angle → pitch 6, `--stroke`.
    let h = parse_hatch(&grad("hatch", vec![number(45)])).unwrap();
    assert_eq!(h.angles.iter().map(whole).collect::<Vec<_>>(), vec![45]);
    assert_eq!(whole(&h.pitch), 6);
    assert!(matches!(&h.color, ResolvedValue::LiveVar { name, .. } if name == "stroke"));

    // A space-group of angles + explicit pitch — the cross-hatch.
    let cross = parse_hatch(&grad(
        "hatch",
        vec![ResolvedValue::Tuple(vec![number(45), number(-45)]), number(4)],
    ))
    .unwrap();
    assert_eq!(cross.angles.iter().map(whole).collect::<Vec<_>>(), vec![45, -45]);
    assert_eq!(whole(&cross.pitch), 4);

    // Same hatch interns once; a different pitch is a new def.
    let mut it = Interner::default();
    let mut a = grad("hatch", vec![number(45)]);
    let mut b = grad("hatch", vec![number(45)]);
    let mut c = grad("hatch", vec![number(45), number(4)]);
    rewrite(&mut a, &mut it);
    rewrite(&mut b, &mut it);
    rewrite(&mut c, &mut it);
    assert_eq!(it.hatches.len(), 2, "45/6 dedups; 45/4 is distinct");
    assert!(matches!(&a, ResolvedValue::RawCss(s) if s == "url(#lini-hatch-1)"));
    assert!(matches!(&b, ResolvedValue::RawCss(s) if s == "url(#lini-hatch-1)"));
    assert!(matches!(&c, ResolvedValue::RawCss(s) if s == "url(#lini-hatch-2)"));
}

#[test]
fn paints_identical_gradients_share_one_id() {
    let mut it = Interner::default();
    let mut a = grad("gradient", vec![hue("teal"), hue("sky")]);
    let mut b = grad("gradient", vec![hue("teal"), hue("sky")]);
    rewrite(&mut a, &mut it);
    rewrite(&mut b, &mut it);
    assert_eq!(it.gradients.len(), 1, "identical gradients must dedup");
    assert!(matches!(&a, ResolvedValue::RawCss(s) if s == "url(#lini-gradient-1)"));
    assert!(matches!(&b, ResolvedValue::RawCss(s) if s == "url(#lini-gradient-1)"));
}

#[test]
fn a_hatch_without_numeric_angles_is_no_hatch() {
    assert!(parse_hatch(&grad("hatch", vec![ResolvedValue::Tuple(vec![hue("x")])])).is_none());
    assert!(parse_hatch(&grad("hatch", vec![])).is_none());
    // A non-positive pitch falls back to the default.
    let h = parse_hatch(&grad("hatch", vec![number(30), number(-2)])).unwrap();
    assert_eq!(whole(&h.pitch), 6);
}

#[test]
fn clip_radii_intern_by_value() {
    let mut it = Interner::default();
    let mut a = AttrMap::new();
    a.insert("clip", ResolvedValue::Number(Num::new(125, 1)));
    let mut b = AttrMap::new();
    b.insert("clip", ResolvedValue::Number(Num::new(1250, 2)));
    let mut c = AttrMap::new();
    c.insert("clip", number(3));
    lower_clip(&mut a, &mut it);
    lower_clip(&mut b, &mut it);
    lower_clip(&mut c, &mut it);
    assert_eq!(it.clips.len(), 2);
    assert!(matches!(a.get("clip"), Some(ResolvedValue::RawCss(s)) if s == "url(#lini-clip-1)"));
    assert!(matches!(b.get("clip"), Some(ResolvedValue::RawCss(s)) if s == "url(#lini-clip-1)"));
    assert!(matches!(c.get("clip"), Some(ResolvedValue::RawCss(s)) if s == "url(#lini-clip-2)"));
}
