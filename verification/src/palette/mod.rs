//! The built-in named-hue palette: 11 hues × 5 job-named tiers. Each tier is a
//! `light-dark(#light, #dark)` literal — themeable like any `--lini-*` var,
//! flipping with the mode, baking for static renderers. Aliases catch the
//! conventional names this curated set renames or drops.
//!
//! The hues and tiers are chosen in OKLCH (perceptually even lightness and
//! chroma); the conversion of each seed to its `#rrggbb` arms is floating-point
//! colour science and happens outside this crate, which assembles the palette
//! from the converted arms.

pub mod css;

use crate::resolve::{ResolvedCall, ResolvedValue, Val, deep_seq};
use crate::text::push_str;
use vstd::prelude::*;

verus! {

/// The eleven hue names, warm → cool, grey last.
pub open spec fn hue_name(i: int) -> &'static str {
    if i == 0 {
        "red"
    } else if i == 1 {
        "rose"
    } else if i == 2 {
        "orange"
    } else if i == 3 {
        "amber"
    } else if i == 4 {
        "lime"
    } else if i == 5 {
        "green"
    } else if i == 6 {
        "teal"
    } else if i == 7 {
        "sky"
    } else if i == 8 {
        "blue"
    } else if i == 9 {
        "purple"
    } else {
        "gray"
    }
}

/// The five tier suffixes, light → dark: `wash soft base deep ink`, with
/// the bare hue (`""`) the base.
pub open spec fn tier_suffix(i: int) -> &'static str {
    if i == 0 {
        "-wash"
    } else if i == 1 {
        "-soft"
    } else if i == 2 {
        ""
    } else if i == 3 {
        "-deep"
    } else {
        "-ink"
    }
}

/// Conventional names this palette renames or drops → the hue they resolve
/// to.
pub open spec fn alias(i: int) -> (&'static str, &'static str) {
    if i == 0 {
        ("yellow", "amber")
    } else if i == 1 {
        ("pink", "rose")
    } else if i == 2 {
        ("indigo", "purple")
    } else {
        ("cyan", "teal")
    }
}

pub open spec fn hue_count() -> nat {
    11
}

pub open spec fn tier_count() -> nat {
    5
}

pub open spec fn alias_count() -> nat {
    4
}

fn hue_at(i: usize) -> (s: &'static str)
    requires
        i < 11,
    ensures
        s == hue_name(i as int),
{
    match i {
        0 => "red",
        1 => "rose",
        2 => "orange",
        3 => "amber",
        4 => "lime",
        5 => "green",
        6 => "teal",
        7 => "sky",
        8 => "blue",
        9 => "purple",
        _ => "gray",
    }
}

fn tier_at(i: usize) -> (s: &'static str)
    requires
        i < 5,
    ensures
        s == tier_suffix(i as int),
{
    match i {
        0 => "-wash",
        1 => "-soft",
        2 => "",
        3 => "-deep",
        _ => "-ink",
    }
}

fn alias_at(i: usize) -> (a: (&'static str, &'static str))
    requires
        i < 4,
    ensures
        a == alias(i as int),
{
    match i {
        0 => ("yellow", "amber"),
        1 => ("pink", "rose"),
        2 => ("indigo", "purple"),
        _ => ("cyan", "teal"),
    }
}

/// The hue names, in walk order.
pub fn hue_names() -> (v: Vec<&'static str>)
    ensures
        v@ == Seq::new(hue_count(), |i: int| hue_name(i)),
{
    let mut v: Vec<&'static str> = Vec::new();
    let mut i: usize = 0;
    while i < 11
        invariant
            i <= 11,
            v@ =~= Seq::new(i as nat, |k: int| hue_name(k)),
        decreases 11 - i,
    {
        v.push(hue_at(i));
        i = i + 1;
    }
    v
}

/// The tier suffixes, light → dark.
pub fn tier_suffixes() -> (v: Vec<&'static str>)
    ensures
        v@ == Seq::new(tier_count(), |i: int| tier_suffix(i)),
{
    let mut v: Vec<&'static str> = Vec::new();
    let mut i: usize = 0;
    while i < 5
        invariant
            i <= 5,
            v@ =~= Seq::new(i as nat, |k: int| tier_suffix(k)),
        decreases 5 - i,
    {
        v.push(tier_at(i));
        i = i + 1;
    }
    v
}

/// `light-dark(light, dark)`.
pub open spec fn light_dark_of(light: Seq<char>, dark: Seq<char>) -> Val {
    Val::Call("light-dark"@, seq![Val::Hex(light), Val::Hex(dark)])
}

/// Palette entry `k`: hue `k / 5`'s tier `k % 5` as a `light-dark()` of its
/// converted arms, for `k` below 55; past that, alias `k - 55` as a live
/// reference to its hue.
pub open spec fn palette_entry(k: int, arms: Seq<(String, String)>) -> (Seq<char>, Val) {
    if k < hue_count() * tier_count() {
        (
            hue_name(k / 5)@ + tier_suffix(k % 5)@,
            light_dark_of(arms[k].0@, arms[k].1@),
        )
    } else {
        let (a, target) = alias(k - hue_count() * tier_count());
        (a@, Val::LiveVar(target@, false))
    }
}

fn light_dark(light: ResolvedValue, dark: ResolvedValue) -> (v: ResolvedValue)
    ensures
        v.deep() == Val::Call("light-dark"@, seq![light.deep(), dark.deep()]),
{
    let mut name = String::new();
    push_str(&mut name, "light-dark");
    proof {
        assert(name@ =~= "light-dark"@);
    }
    let args = vec![light, dark];
    let v = ResolvedValue::Call(ResolvedCall { name, args });
    proof {
        crate::resolve::lemma_deep_seq(args@);
        assert(deep_seq(args@) =~= seq![light.deep(), dark.deep()]);
    }
    v
}

fn owned(s: &str) -> (r: String)
    ensures
        r@ == s@,
{
    let mut r = String::new();
    push_str(&mut r, s);
    proof {
        assert(r@ =~= s@);
    }
    r
}

/// Every palette variable as `(name_without_lini_prefix, value)`: each hue's
/// five tiers as `light-dark()` literals, then the aliases. `arms[k]` holds
/// the converted `(light, dark)` hex digits of hue `k / 5`'s tier `k % 5`.
pub fn palette_vars(arms: &Vec<(String, String)>) -> (out: Vec<(String, ResolvedValue)>)
    requires
        arms@.len() == hue_count() * tier_count(),
    ensures
        out@.len() == hue_count() * tier_count() + alias_count(),
        forall|k: int|
            0 <= k < out@.len() ==> (#[trigger] out@[k]).0@ == palette_entry(k, arms@).0
                && out@[k].1.deep() == palette_entry(k, arms@).1,
{
    let mut out: Vec<(String, ResolvedValue)> = Vec::new();
    let mut h: usize = 0;
    while h < 11
        invariant
            h <= 11,
            arms@.len() == 55,
            out@.len() == h * 5,
            forall|k: int|
                0 <= k < out@.len() ==> (#[trigger] out@[k]).0@ == palette_entry(k, arms@).0
                    && out@[k].1.deep() == palette_entry(k, arms@).1,
        decreases 11 - h,
    {
        let mut t: usize = 0;
        while t < 5
            invariant
                h < 11,
                t <= 5,
                arms@.len() == 55,
                out@.len() == h * 5 + t,
                forall|k: int|
                    0 <= k < out@.len() ==> (#[trigger] out@[k]).0@ == palette_entry(k, arms@).0
                        && out@[k].1.deep() == palette_entry(k, arms@).1,
            decreases 5 - t,
        {
            let k = h * 5 + t;
            let mut name = String::new();
            push_str(&mut name, hue_at(h));
            push_str(&mut name, tier_at(t));
            let light = ResolvedValue::Hex(arms[k].0.clone());
            let dark = ResolvedValue::Hex(arms[k].1.clone());
            let v = light_dark(light, dark);
            proof {
                assert(k / 5 == h as int && k % 5 == t as int);
                assert(name@ =~= palette_entry(k as int, arms@).0);
                assert(v.deep() =~~= palette_entry(k as int, arms@).1);
            }
            out.push((name, v));
            t = t + 1;
        }
        h = h + 1;
    }
    let mut a: usize = 0;
    while a < 4
        invariant
            a <= 4,
            arms@.len() == 55,
            out@.len() == 55 + a,
            forall|k: int|
                0 <= k < out@.len() ==> (#[trigger] out@[k]).0@ == palette_entry(k, arms@).0
                    && out@[k].1.deep() == palette_entry(k, arms@).1,
        decreases 4 - a,
    {
        let (alias_name, target) = alias_at(a);
        let v = ResolvedValue::LiveVar { name: owned(target), raw: false };
        out.push((owned(alias_name), v));
        a = a + 1;
    }
    out
}

} // verus!
