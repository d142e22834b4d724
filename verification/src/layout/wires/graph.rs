//! Channel-graph vocabulary: the two travel axes and the adjacency between
//! cells that abut in a shared channel.

use vstd::prelude::*;

verus! {

#[derive(Clone, Copy, Debug, PartialEq, Eq, PartialOrd, Ord, Structural)]
pub enum Axis {
    H,
    V,
}

/// An axis's dense id: `H` is 0, `V` is 1.
pub open spec fn axis_index(axis: Axis) -> u8 {
    match axis {
        Axis::H => 0,
        Axis::V => 1,
    }
}

impl Axis {
    /// Dense id — the routing stages' map key.
    pub fn index(self) -> (i: u8)
        ensures
            i == axis_index(self),
    {
        match self {
            Axis::H => 0,
            Axis::V => 1,
        }
    }
}

/// Adjacency between two cells abutting in `channel` — the run between them.
#[derive(Clone, Copy, Debug, PartialEq, Eq, Structural)]
pub struct Edge {
    pub a: usize,
    pub b: usize,
    pub axis: Axis,
    pub channel: usize,
}

} // verus!
