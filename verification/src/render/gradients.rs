//! Gradient paints on their own table: every distinct gradient is interned
//! once and the paint use-site rewritten to its `url(#lini-gradient-N)`
//! reference. Parsing and keys are the paint table's.

pub use super::paints::{key, parse, GradientDef, GradientKind};

use super::paints::{def_url, gradient_key, gradient_of, interned, slot, texts};
use crate::resolve::{deep_seq, ResolvedValue, Val};
use vstd::prelude::*;

verus! {

/// If `value` is a gradient, intern it and replace it with its `url(#…)`
/// reference; anything else is left alone.
pub fn rewrite(value: &mut ResolvedValue, defs: &mut Vec<GradientDef>, keys: &mut Vec<String>)
    requires
        old(defs)@.len() == old(keys)@.len(),
    ensures
        final(defs)@.len() == final(keys)@.len(),
        match gradient_of(old(value).deep()) {
            Some(g) => {
                let k = gradient_key(g.0, g.1);
                &&& final(value).deep() == Val::RawCss(def_url("gradient"@, slot(old(keys)@, k)))
                &&& texts(final(keys)@) == interned(old(keys)@, k)
                &&& final(defs)@.take(old(defs)@.len() as int) == old(defs)@
                &&& (final(defs)@.len() > old(defs)@.len() ==> final(defs)@.last().kind == g.0 && deep_seq(
                    final(defs)@.last().stops@,
                ) == g.1)
            },
            None => {
                &&& *final(value) == *old(value)
                &&& final(defs)@ == old(defs)@
                &&& final(keys)@ == old(keys)@
            },
        },
{
    let mut it = super::paints::Interner {
        gradient_keys: Vec::new(),
        gradients: Vec::new(),
        hatch_keys: Vec::new(),
        hatches: Vec::new(),
        clips: Vec::new(),
    };
    std::mem::swap(&mut it.gradient_keys, keys);
    std::mem::swap(&mut it.gradients, defs);
    let g = parse(value);
    if g.is_none() {
        std::mem::swap(&mut it.gradient_keys, keys);
        std::mem::swap(&mut it.gradients, defs);
        return;
    }
    super::paints::rewrite(value, &mut it);
    std::mem::swap(&mut it.gradient_keys, keys);
    std::mem::swap(&mut it.gradients, defs);
}

} // verus!
