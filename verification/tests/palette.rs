use lini::palette::{hue_names, palette_vars, tier_suffixes};
use lini::resolve::ResolvedValue;

// The OKLCH seeds and tier targets the palette is tuned with: per hue its
// angle and chroma multiplier; per tier its light and dark `(L, C)`.
const SEEDS: [(f64, f64); 11] = [
    (28.0, 1.00),
    (2.0, 1.00),
    (56.0, 1.00),
    (85.0, 1.08),
    (124.0, 1.02),
    (158.0, 1.00),
    (188.0, 1.00),
    (222.0, 1.00),
    (255.0, 1.05),
    (285.0, 1.05),
    (250.0, 0.00),
];

const TIERS: [((f64, f64), (f64, f64)); 5] = [
    ((0.95, 0.03), (0.3, 0.05)),
    ((0.85, 0.08), (0.42, 0.08)),
    ((0.70, 0.13), (0.60, 0.13)),
    ((0.56, 0.16), (0.76, 0.135)),
    ((0.42, 0.14), (0.94, 0.14)),
];

fn gamma(x: f64) -> f64 {
    if x >= 0.003_130_8 {
        1.055 * x.powf(1.0 / 2.4) - 0.055
    } else {
        12.92 * x
    }
}

fn encode(channel: f64) -> u8 {
    (channel.clamp(0.0, 1.0) * 255.0).round() as u8
}

fn oklch_to_hex(l: f64, c: f64, h_deg: f64) -> String {
    let h = h_deg.to_radians();
    let (a, b) = (c * h.cos(), c * h.sin());
    let l_ = l + 0.396_337_777_4 * a + 0.215_803_757_3 * b;
    let m_ = l - 0.105_561_345_8 * a - 0.063_854_172_8 * b;
    let s_ = l - 0.089_484_177_5 * a - 1.291_485_548_0 * b;
    let (l3, m3, s3) = (l_ * l_ * l_, m_ * m_ * m_, s_ * s_ * s_);
    let r = 4.076_741_662_1 * l3 - 3.307_711_591_3 * m3 + 0.230_969_929_2 * s3;
    let g = -1.268_438_004_6 * l3 + 2.609_757_401_1 * m3 - 0.341_319_396_5 * s3;
    let bl = -0.004_196_086_3 * l3 - 0.703_418_614_7 * m3 + 1.707_614_701_0 * s3;
    format!("{:02x}{:02x}{:02x}", encode(gamma(r)), encode(gamma(g)), encode(gamma(bl)))
}

fn arms() -> Vec<(String, String)> {
    let mut out = Vec::new();
    for (hue, chroma) in SEEDS {
        for (light, dark) in TIERS {
            out.push((
                oklch_to_hex(light.0, light.1 * chroma, hue),
                oklch_to_hex(dark.0, dark.1 * chroma, hue),
            ));
        }
    }
    out
}

fn vars() -> Vec<(String, ResolvedValue)> {
    palette_vars(&arms())
}

#[test]
fn every_hue_has_five_tiers_plus_aliases() {
    let v = vars();
    assert_eq!(v.len(), hue_names().len() * tier_suffixes().len() + 4);
    for suffix in ["-wash", "-soft", "", "-deep", "-ink"] {
        assert!(v.iter().any(|(n, _)| *n == format!("teal{suffix}")), "missing teal{suffix}");
    }
}

#[test]
fn tiers_are_light_dark_literals() {
    let v = vars();
    let (_, teal) = v.iter().find(|(n, _)| n == "teal").unwrap();
    match teal {
        ResolvedValue::Call(c) => {
            assert_eq!(c.name, "light-dark");
            assert!(matches!(c.args[0], ResolvedValue::Hex(_)));
            assert!(matches!(c.args[1], ResolvedValue::Hex(_)));
        }
        other => panic!("expected light-dark(), got {other:?}"),
    }
}

#[test]
fn aliases_point_at_their_hue() {
    let v = vars();
    let (_, yellow) = v.iter().find(|(n, _)| n == "yellow").unwrap();
    assert!(matches!(yellow, ResolvedValue::LiveVar { name, .. } if name == "amber"));
}

#[test]
fn grey_is_neutral() {
    // Zero chroma → equal channels in both arms.
    let v = vars();
    let (_, gray) = v.iter().find(|(n, _)| n == "gray").unwrap();
    let ResolvedValue::Call(c) = gray else { panic!() };
    for arm in &c.args {
        let ResolvedValue::Hex(h) = arm else { panic!() };
        assert_eq!(&h[0..2], &h[2..4], "grey not neutral: {h}");
        assert_eq!(&h[2..4], &h[4..6], "grey not neutral: {h}");
    }
}

#[test]
fn the_arms_land_in_hue_then_tier_order() {
    let a = arms();
    let v = vars();
    // rose-deep is hue 1, tier 3.
    let (_, rose_deep) = v.iter().find(|(n, _)| n == "rose-deep").unwrap();
    let ResolvedValue::Call(c) = rose_deep else { panic!() };
    assert!(matches!(&c.args[0], ResolvedValue::Hex(h) if *h == a[8].0));
    assert!(matches!(&c.args[1], ResolvedValue::Hex(h) if *h == a[8].1));
}
