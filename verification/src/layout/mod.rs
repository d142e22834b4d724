//! Layout's output as later stages read it, and the wire router's pure
//! bookkeeping: rules and violations, bundles and fan groups, channel-graph
//! ids, and the failure probe.

pub mod wires;

use crate::render::paints::GradientDef;
use crate::resolve::{AttrMap, Num, ResolvedValue, VarTable};
use vstd::prelude::*;

verus! {

/// A placed node as the style pass reads it: its attributes, the type names
/// it wears (most specific first), and its children (geometry is baked
/// elsewhere).
pub struct PlacedNode {
    pub attrs: AttrMap,
    pub type_chain: Vec<String>,
    pub children: Vec<PlacedNode>,
}

/// A wire's text as the style pass reads it.
pub struct RoutedText {
    pub attrs: AttrMap,
}

/// A routed wire as the style pass reads it: its attributes and its texts.
pub struct RoutedWire {
    pub attrs: AttrMap,
    pub texts: Vec<RoutedText>,
}

/// The document-level style sheet: the class rules desugar generated, the
/// wire defaults, the root text props, and the baked root font size.
pub struct Sheet {
    pub class_rules: Vec<(String, AttrMap)>,
    pub wire_defaults: AttrMap,
    pub root_text: AttrMap,
    pub root_font_size: Num,
}

/// A laid-out document as the style pass reads it.
pub struct LaidOut {
    pub nodes: Vec<PlacedNode>,
    pub wires: Vec<RoutedWire>,
    /// How many wires were drawn as airwires (no legal route).
    pub airwires: usize,
    pub sheet: Sheet,
    pub canvas_fill: Option<ResolvedValue>,
    /// The interned gradients, whose stops left the attrs.
    pub gradients: Vec<GradientDef>,
    pub vars: VarTable,
}

} // verus!
