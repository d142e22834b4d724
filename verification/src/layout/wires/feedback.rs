//! Layout feedback for gap growth: why did a wire stay impossible, and which
//! corridors are short?
//!
//! Each reported-impossible bundle is probed with one more route search,
//! observed rather than acted on. An end no stub can reach is **walled**; a
//! search that hit channels short of lanes names a **corridor deficit** — the
//! one case the layout may repair, by growing gaps by the missing lanes.

use super::bundle::End;
use super::graph::{axis_index, Axis};
use vstd::prelude::*;

verus! {

/// The order channels are keyed in: by world, then by axis.
pub open spec fn channel_lt(w1: usize, a1: Axis, w2: usize, a2: Axis) -> bool {
    w1 < w2 || (w1 == w2 && axis_index(a1) < axis_index(a2))
}

/// Shortfall rows in strictly increasing channel order.
pub open spec fn rows_sorted(rows: Seq<(usize, Axis, usize)>) -> bool {
    forall|i: int, j: int|
        0 <= i < j < rows.len() ==> channel_lt(#[trigger] rows[i].0, rows[i].1, #[trigger] rows[j].0, rows[j].1)
}

/// Whether `rows` has a row for channel `(world, axis)`.
pub open spec fn has_row(rows: Seq<(usize, Axis, usize)>, world: usize, axis: Axis) -> bool {
    exists|i: int| 0 <= i < rows.len() && #[trigger] rows[i].0 == world && rows[i].1 == axis
}

/// The shortfall recorded for channel `(world, axis)`.
pub open spec fn row_lanes(rows: Seq<(usize, Axis, usize)>, world: usize, axis: Axis) -> usize {
    rows[choose|i: int| 0 <= i < rows.len() && #[trigger] rows[i].0 == world && rows[i].1 == axis].2
}

/// The rows as a map from channel to worst shortfall.
pub open spec fn rows_map(rows: Seq<(usize, Axis, usize)>) -> Map<(usize, Axis), usize> {
    Map::new(|k: (usize, Axis)| has_row(rows, k.0, k.1), |k: (usize, Axis)| row_lanes(rows, k.0, k.1))
}

/// Observations from one probed route search: per end, whether any rung of
/// the world ladder offered entries; per channel the search consulted, the
/// worst lane shortfall.
pub struct Probe {
    offered_a: bool,
    offered_b: bool,
    short: Vec<(usize, Axis, usize)>,
}

impl Probe {
    #[verifier::type_invariant]
    spec fn inv(self) -> bool {
        rows_sorted(self.short@)
    }

    /// Whether end `end` was ever offered entries.
    pub closed spec fn offered(self, end: End) -> bool {
        match end {
            End::A => self.offered_a,
            End::B => self.offered_b,
        }
    }

    /// Per consulted channel `(world, axis)`, the worst lane shortfall seen.
    pub closed spec fn worst(self) -> Map<(usize, Axis), usize> {
        rows_map(self.short@)
    }

    /// Record one end's entry set at one rung of the world ladder.
    pub fn entries(&mut self, end: End, offered: bool)
        ensures
            final(self).offered(end) == (old(self).offered(end) || offered),
            forall|e: End| e != end ==> final(self).offered(e) == old(self).offered(e),
            final(self).worst() == old(self).worst(),
    {
        proof {
            use_type_invariant(&*self);
        }
        match end {
            End::A => self.offered_a = self.offered_a || offered,
            End::B => self.offered_b = self.offered_b || offered,
        }
    }

    /// Record a channel the search wanted but found short of lanes.
    pub fn lanes_short(&mut self, world: usize, axis: Axis, lanes: usize)
        ensures
            forall|e: End| final(self).offered(e) == old(self).offered(e),
            final(self).worst() == old(self).worst().insert(
                (world, axis),
                if old(self).worst().contains_key((world, axis)) && lanes < old(self).worst()[(world, axis)] {
                    old(self).worst()[(world, axis)]
                } else {
                    lanes
                },
            ),
    {
        proof {
            use_type_invariant(&*self);
        }
        let ghost rows = self.short@;
        let a = axis.index();
        let n = self.short.len();
        let mut k: usize = 0;
        while k < n
            invariant
                k <= n,
                n == rows.len(),
                self.short@ == rows,
                rows_sorted(rows),
                forall|i: int| 0 <= i < k ==> channel_lt(#[trigger] rows[i].0, rows[i].1, world, axis),
                a == axis_index(axis),
            ensures
                k <= n,
                forall|i: int| 0 <= i < k ==> channel_lt(#[trigger] rows[i].0, rows[i].1, world, axis),
                k < n ==> !channel_lt(rows[k as int].0, rows[k as int].1, world, axis),
            decreases n - k,
        {
            let (w, ax, _) = self.short[k];
            if !(w < world || (w == world && ax.index() < a)) {
                break;
            }
            k = k + 1;
        }
        proof {
            lemma_rows_map_facts(rows);
        }
        if k < n && self.short[k].0 == world && self.short[k].1 == axis {
            let old_lanes = self.short[k].2;
            let worst = if lanes < old_lanes { old_lanes } else { lanes };
            proof {
                assert(rows_map(rows).contains_key((world, axis)));
                assert(row_lanes(rows, world, axis) == old_lanes) by {
                    let j = choose|i: int| 0 <= i < rows.len() && #[trigger] rows[i].0 == world && rows[i].1 == axis;
                    lemma_row_unique(rows, j, k as int);
                }
            }
            let mut short: Vec<(usize, Axis, usize)> = Vec::new();
            std::mem::swap(&mut short, &mut self.short);
            short.set(k, (world, axis, worst));
            let ghost next = short@;
            proof {
                assert(rows_sorted(next)) by {
                    assert forall|i: int, j: int| 0 <= i < j < next.len() implies channel_lt(
                        #[trigger] next[i].0,
                        next[i].1,
                        #[trigger] next[j].0,
                        next[j].1,
                    ) by {
                        assert(channel_lt(rows[i].0, rows[i].1, rows[j].0, rows[j].1));
                    }
                }
                lemma_rows_map_facts(next);
                assert(rows_map(next) =~= rows_map(rows).insert((world, axis), worst)) by {
                    assert forall|key: (usize, Axis)| #[trigger] rows_map(next).contains_key(key) == rows_map(rows).insert((world, axis), worst).contains_key(key) by {
                        if has_row(next, key.0, key.1) {
                            let j = choose|i: int| 0 <= i < next.len() && #[trigger] next[i].0 == key.0 && next[i].1 == key.1;
                            if j != k {
                                assert(rows[j].0 == key.0 && rows[j].1 == key.1);
                            }
                        }
                        if has_row(rows, key.0, key.1) {
                            let j = choose|i: int| 0 <= i < rows.len() && #[trigger] rows[i].0 == key.0 && rows[i].1 == key.1;
                            if j != k {
                                assert(next[j].0 == key.0 && next[j].1 == key.1);
                            } else {
                                assert(next[k as int].0 == key.0 && next[k as int].1 == key.1);
                            }
                        }
                    }
                    assert forall|key: (usize, Axis)| #[trigger] rows_map(next).contains_key(key) implies rows_map(next)[key] == rows_map(rows).insert((world, axis), worst)[key] by {
                        let j = choose|i: int| 0 <= i < next.len() && #[trigger] next[i].0 == key.0 && next[i].1 == key.1;
                        if j == k {
                            assert(next[k as int].0 == key.0 && next[k as int].1 == key.1);
                        } else {
                            assert(rows[j].0 == key.0 && rows[j].1 == key.1);
                            lemma_row_unique(rows, j, choose|i: int| 0 <= i < rows.len() && #[trigger] rows[i].0 == key.0 && rows[i].1 == key.1);
                            if key.0 == world && key.1 == axis {
                                lemma_row_unique(next, j, k as int);
                            }
                        }
                    }
                }
            }
            self.short = short;
        } else {
            proof {
                assert(!rows_map(rows).contains_key((world, axis))) by {
                    if has_row(rows, world, axis) {
                        let j = choose|i: int| 0 <= i < rows.len() && #[trigger] rows[i].0 == world && rows[i].1 == axis;
                        if j < k {
                            assert(channel_lt(rows[j].0, rows[j].1, world, axis));
                        } else if j > k {
                            assert(channel_lt(rows[k as int].0, rows[k as int].1, rows[j].0, rows[j].1));
                        }
                    }
                }
            }
            let mut short: Vec<(usize, Axis, usize)> = Vec::new();
            std::mem::swap(&mut short, &mut self.short);
            short.insert(k, (world, axis, lanes));
            let ghost next = short@;
            proof {
                assert(next =~= rows.insert(k as int, (world, axis, lanes)));
                assert(rows_sorted(next)) by {
                    assert forall|i: int, j: int| 0 <= i < j < next.len() implies channel_lt(
                        #[trigger] next[i].0,
                        next[i].1,
                        #[trigger] next[j].0,
                        next[j].1,
                    ) by {
                        if j < k {
                            assert(channel_lt(rows[i].0, rows[i].1, rows[j].0, rows[j].1));
                        } else if j == k {
                            assert(channel_lt(rows[i].0, rows[i].1, world, axis));
                        } else if i == k {
                            if k < n {
                                assert(!channel_lt(rows[k as int].0, rows[k as int].1, world, axis));
                                if j - 1 > k {
                                    assert(channel_lt(rows[k as int].0, rows[k as int].1, rows[j - 1].0, rows[j - 1].1));
                                }
                            }
                        } else if i < k {
                            assert(channel_lt(rows[i].0, rows[i].1, rows[j - 1].0, rows[j - 1].1));
                        } else {
                            assert(channel_lt(rows[i - 1].0, rows[i - 1].1, rows[j - 1].0, rows[j - 1].1));
                        }
                    }
                }
                lemma_rows_map_facts(next);
                assert(rows_map(next) =~= rows_map(rows).insert((world, axis), lanes)) by {
                    assert forall|key: (usize, Axis)| #[trigger] rows_map(next).contains_key(key) == rows_map(rows).insert((world, axis), lanes).contains_key(key) by {
                        if has_row(next, key.0, key.1) {
                            let j = choose|i: int| 0 <= i < next.len() && #[trigger] next[i].0 == key.0 && next[i].1 == key.1;
                            if j < k {
                                assert(rows[j].0 == key.0 && rows[j].1 == key.1);
                            } else if j > k {
                                assert(rows[j - 1].0 == key.0 && rows[j - 1].1 == key.1);
                            }
                        }
                        if has_row(rows, key.0, key.1) {
                            let j = choose|i: int| 0 <= i < rows.len() && #[trigger] rows[i].0 == key.0 && rows[i].1 == key.1;
                            if j < k {
                                assert(next[j].0 == key.0 && next[j].1 == key.1);
                            } else {
                                assert(next[j + 1].0 == key.0 && next[j + 1].1 == key.1);
                            }
                        }
                        if key.0 == world && key.1 == axis {
                            assert(next[k as int].0 == key.0 && next[k as int].1 == key.1);
                        }
                    }
                    assert forall|key: (usize, Axis)| #[trigger] rows_map(next).contains_key(key) implies rows_map(next)[key] == rows_map(rows).insert((world, axis), lanes)[key] by {
                        let j = choose|i: int| 0 <= i < next.len() && #[trigger] next[i].0 == key.0 && next[i].1 == key.1;
                        if j == k {
                        } else {
                            let r = if j < k { j } else { j - 1 };
                            assert(rows[r].0 == key.0 && rows[r].1 == key.1);
                            lemma_row_unique(rows, r, choose|i: int| 0 <= i < rows.len() && #[trigger] rows[i].0 == key.0 && rows[i].1 == key.1);
                            if key.0 == world && key.1 == axis {
                                lemma_row_unique(next, j, k as int);
                            }
                        }
                    }
                }
            }
            self.short = short;
        }
    }

    /// The failure is a corridor deficit iff both ends could enter the graph
    /// somewhere — a walled end is unreachable at any width — and at least
    /// one consulted channel closed for lack of lanes alone. The deficits come
    /// back as `(world, axis, lanes)` rows in channel order.
    pub fn deficits(self) -> (d: Option<Vec<(usize, Axis, usize)>>)
        ensures
            d is Some <==> (self.offered(End::A) && self.offered(End::B) && self.worst().dom().len() > 0),
            d matches Some(rows) ==> rows_sorted(rows@) && rows_map(rows@) == self.worst(),
    {
        proof {
            use_type_invariant(&self);
            lemma_rows_map_facts(self.short@);
        }
        if self.offered_a && self.offered_b && self.short.len() > 0 {
            Some(self.short)
        } else {
            None
        }
    }
}

impl Default for Probe {
    fn default() -> (p: Probe)
        ensures
            !p.offered(End::A),
            !p.offered(End::B),
            p.worst() == Map::<(usize, Axis), usize>::empty(),
    {
        let p = Probe { offered_a: false, offered_b: false, short: Vec::new() };
        proof {
            assert(p.worst() =~= Map::<(usize, Axis), usize>::empty());
        }
        p
    }
}

/// In sorted rows, two rows for one channel are the same row.
proof fn lemma_row_unique(rows: Seq<(usize, Axis, usize)>, i: int, j: int)
    requires
        rows_sorted(rows),
        0 <= i < rows.len(),
        0 <= j < rows.len(),
        rows[i].0 == rows[j].0,
        rows[i].1 == rows[j].1,
    ensures
        i == j,
{
    if i < j {
        assert(channel_lt(rows[i].0, rows[i].1, rows[j].0, rows[j].1));
    } else if j < i {
        assert(channel_lt(rows[j].0, rows[j].1, rows[i].0, rows[i].1));
    }
}

/// The map of sorted rows is finite, holds one key per row, and reads each
/// row's lanes back.
proof fn lemma_rows_map_facts(rows: Seq<(usize, Axis, usize)>)
    requires
        rows_sorted(rows),
    ensures
        forall|i: int| 0 <= i < rows.len() ==> #[trigger] rows_map(rows).contains_key((rows[i].0, rows[i].1))
            && rows_map(rows)[(rows[i].0, rows[i].1)] == rows[i].2,
        rows_map(rows).dom().finite(),
        rows_map(rows).dom().len() == 0 <==> rows.len() == 0,
    decreases rows.len(),
{
    assert forall|i: int| 0 <= i < rows.len() implies #[trigger] rows_map(rows).contains_key((rows[i].0, rows[i].1))
        && rows_map(rows)[(rows[i].0, rows[i].1)] == rows[i].2 by {
        assert(has_row(rows, rows[i].0, rows[i].1));
        let j = choose|k: int| 0 <= k < rows.len() && #[trigger] rows[k].0 == rows[i].0 && rows[k].1 == rows[i].1;
        lemma_row_unique(rows, i, j);
    }
    let keys = rows.map_values(|r: (usize, Axis, usize)| (r.0, r.1));
    assert(rows_map(rows).dom() =~= keys.to_set()) by {
        assert forall|k: (usize, Axis)| #[trigger] rows_map(rows).dom().contains(k) implies keys.to_set().contains(k) by {
            let j = choose|i: int| 0 <= i < rows.len() && #[trigger] rows[i].0 == k.0 && rows[i].1 == k.1;
            assert(keys[j] == k);
        }
        assert forall|k: (usize, Axis)| keys.to_set().contains(k) implies #[trigger] rows_map(rows).dom().contains(k) by {
            let j = choose|i: int| 0 <= i < keys.len() && keys[i] == k;
            assert(rows[j].0 == k.0 && rows[j].1 == k.1);
        }
    }
    keys.lemma_cardinality_of_set();
    if rows.len() == 0 {
        assert(keys.to_set() =~= Set::empty());
    } else {
        assert(keys.to_set().contains(keys[0]));
    }
}

} // verus!
