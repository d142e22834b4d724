//! SVG emission helpers: value formatting, the defs-backed paint tables,
//! and first-appearance interning.

pub mod fonts;
pub mod gradients;
pub mod icon_fit;
pub mod intern;
pub mod paints;
pub mod rules;
pub mod style_block;
pub mod stylesheet;
pub mod used_vars;
pub mod values;

use crate::layout::PlacedNode;
use crate::lexer::spec::dec_value;
use crate::text::push_str;
use vstd::prelude::*;

verus! {

/// Declarations as the contracts read them.
pub open spec fn decl_views(decls: Seq<(&str, String)>) -> Seq<(Seq<char>, Seq<char>)> {
    decls.map_values(|d: (&str, String)| (d.0@, d.1@))
}

/// `prop: value` pairs joined with `; `.
pub open spec fn decls_joined(decls: Seq<(Seq<char>, Seq<char>)>) -> Seq<char>
    decreases decls.len(),
{
    if decls.len() == 0 {
        Seq::empty()
    } else {
        let last = decls.last();
        let item = last.0 + seq![':', ' '] + last.1;
        if decls.len() == 1 {
            item
        } else {
            decls_joined(decls.drop_last()) + seq![';', ' '] + item
        }
    }
}

/// ` style="…"` from prop declarations, or nothing when there are none.
pub open spec fn style_attr(decls: Seq<(Seq<char>, Seq<char>)>) -> Seq<char> {
    if decls.len() == 0 {
        Seq::empty()
    } else {
        seq![' ', 's', 't', 'y', 'l', 'e', '=', '"'] + decls_joined(decls) + seq!['"']
    }
}

/// ` style="…"` from prop declarations, or empty.
pub fn style_attr_from(decls: &[(&str, String)]) -> (s: String)
    ensures
        s@ == style_attr(decl_views(decls@)),
{
    let n = decls.len();
    if n == 0 {
        return String::new();
    }
    let mut s = String::new();
    s.push(' ');
    s.push('s');
    s.push('t');
    s.push('y');
    s.push('l');
    s.push('e');
    s.push('=');
    s.push('"');
    let ghost head = s@;
    let mut i: usize = 0;
    while i < n
        invariant
            n == decls@.len(),
            n > 0,
            i <= n,
            head == seq![' ', 's', 't', 'y', 'l', 'e', '=', '"'],
            s@ == head + decls_joined(decl_views(decls@).take(i as int)),
        decreases n - i,
    {
        let ghost before = s@;
        if i > 0 {
            s.push(';');
            s.push(' ');
        }
        push_str(&mut s, decls[i].0);
        s.push(':');
        s.push(' ');
        push_str(&mut s, decls[i].1.as_str());
        proof {
            let dv = decl_views(decls@);
            assert(dv.take(i + 1).drop_last() =~= dv.take(i as int));
            assert(dv.take(i + 1).last() == (decls@[i as int].0@, decls@[i as int].1@));
            assert(s@ =~= head + decls_joined(dv.take(i + 1)));
        }
        i = i + 1;
    }
    s.push('"');
    proof {
        assert(decl_views(decls@).take(n as int) =~= decl_views(decls@));
        assert(s@ =~= style_attr(decl_views(decls@)));
    }
    s
}

/// Whether every character is a decimal digit.
pub open spec fn all_digits(ds: Seq<char>) -> bool {
    forall|k: int| 0 <= k < ds.len() ==> '0' <= #[trigger] ds[k] <= '9'
}

/// The digits of a `tip-N` name: what follows `tip-`, past an optional `+`.
pub open spec fn tip_digits(t: Seq<char>) -> Seq<char> {
    let rest = t.skip(4);
    if rest.len() > 0 && rest[0] == '+' {
        rest.skip(1)
    } else {
        rest
    }
}

/// The card index a type name spells: `tip-N`, with `N` read as an
/// unsigned number (an optional `+`, then decimal digits) that fits a
/// `usize`.
pub open spec fn tip_index(t: Seq<char>) -> Option<nat> {
    if t.len() >= 4 && t.take(4) == seq!['t', 'i', 'p', '-'] && tip_digits(t).len() > 0 && all_digits(tip_digits(t))
        && dec_value(tip_digits(t)) <= usize::MAX {
        Some(dec_value(tip_digits(t)))
    } else {
        None
    }
}

/// The larger of two maybe-indices.
pub open spec fn max_opt(a: Option<nat>, b: Option<nat>) -> Option<nat> {
    match (a, b) {
        (Some(x), Some(y)) => Some(if x >= y { x } else { y }),
        (Some(x), None) => Some(x),
        (None, y) => y,
    }
}

/// The largest card index among type names.
pub open spec fn chain_max(ts: Seq<String>) -> Option<nat>
    decreases ts.len(),
{
    if ts.len() == 0 {
        None
    } else {
        max_opt(chain_max(ts.drop_last()), tip_index(ts.last()@))
    }
}

/// The largest card index a node or any node under it wears.
pub open spec fn node_tip_max(n: PlacedNode) -> Option<nat>
    decreases n,
{
    max_opt(chain_max(n.type_chain@), nodes_tip_max(n.children@))
}

/// The largest card index over a list of nodes.
pub open spec fn nodes_tip_max(ns: Seq<PlacedNode>) -> Option<nat>
    decreases ns,
{
    if ns.len() == 0 {
        None
    } else {
        max_opt(nodes_tip_max(ns.drop_last()), node_tip_max(ns.last()))
    }
}

fn max_of(a: Option<usize>, b: Option<usize>) -> (r: Option<usize>)
    ensures
        match (a, b) {
            (Some(x), Some(y)) => r == Some(if x >= y { x } else { y }),
            (Some(x), None) => r == Some(x),
            (None, y) => r == y,
        },
{
    match (a, b) {
        (Some(x), Some(y)) => Some(if x >= y { x } else { y }),
        (Some(x), None) => Some(x),
        (None, y) => y,
    }
}

/// The card index `t` spells, if any.
fn tip_of(t: &str) -> (r: Option<usize>)
    ensures
        match tip_index(t@) {
            Some(i) => r == Some(i as usize),
            None => r is None,
        },
{
    let cs = crate::text::chars_of(t);
    let n = cs.len();
    if n < 4 || cs[0] != 't' || cs[1] != 'i' || cs[2] != 'p' || cs[3] != '-' {
        proof {
            if t@.len() >= 4 && t@.take(4) == seq!['t', 'i', 'p', '-'] {
                assert(t@.take(4)[0] == 't' && t@.take(4)[1] == 'i' && t@.take(4)[2] == 'p' && t@.take(4)[3] == '-');
            }
        }
        return None;
    }
    proof {
        assert(t@.take(4) =~= seq!['t', 'i', 'p', '-']);
    }
    let ghost rest = t@.skip(4);
    let start: usize = if n > 4 && cs[4] == '+' { 5 } else { 4 };
    let ghost ds = t@.skip(start as int);
    proof {
        if n > 4 && cs[4] == '+' {
            assert(rest.skip(1) =~= ds);
        } else {
            assert(rest =~= ds);
        }
    }
    if start >= n {
        return None;
    }
    let mut v: usize = 0;
    let mut k = start;
    proof {
        assert(ds.take(0) =~= Seq::<char>::empty());
    }
    while k < n
        invariant
            cs@ == t@,
            n == t@.len(),
            start <= k <= n,
            ds == t@.skip(start as int),
            t@.len() >= 4,
            t@.take(4) == seq!['t', 'i', 'p', '-'],
            ds == tip_digits(t@),
            forall|q: int| start <= q < k ==> '0' <= #[trigger] t@[q] <= '9',
            v == dec_value(ds.take(k - start)),
        decreases n - k,
    {
        let c = cs[k];
        if c < '0' || c > '9' {
            proof {
                assert(ds[k - start] == c);
                assert(!('0' <= ds[k - start] <= '9'));
            }
            return None;
        }
        let d = (c as u32 - '0' as u32) as usize;
        proof {
            assert(ds.take(k + 1 - start).drop_last() =~= ds.take(k - start));
            assert(ds.take(k + 1 - start).last() == c);
        }
        match v.checked_mul(10) {
            Some(m) => match m.checked_add(d) {
                Some(s) => {
                    v = s;
                },
                None => {
                    proof {
                        if all_digits(ds) {
                            lemma_dec_prefix_bound(ds, k + 1 - start);
                        }
                    }
                    return None;
                },
            },
            None => {
                proof {
                    if all_digits(ds) {
                        lemma_dec_prefix_bound(ds, k + 1 - start);
                    }
                }
                return None;
            },
        }
        k = k + 1;
    }
    proof {
        assert(ds.take(n - start) =~= ds);
        assert forall|q: int| 0 <= q < ds.len() implies '0' <= #[trigger] ds[q] <= '9' by {
            assert(ds[q] == t@[start + q]);
        }
        assert(all_digits(ds));
    }
    Some(v)
}

/// A longer run of digits never reads smaller than its prefix.
proof fn lemma_dec_prefix_bound(ds: Seq<char>, k: int)
    requires
        0 <= k <= ds.len(),
        forall|q: int| 0 <= q < ds.len() ==> '0' <= #[trigger] ds[q] <= '9',
    ensures
        dec_value(ds.take(k)) <= dec_value(ds),
    decreases ds.len() - k,
{
    if k < ds.len() {
        lemma_dec_prefix_bound(ds, k + 1);
        assert(ds.take(k + 1).drop_last() =~= ds.take(k));
    } else {
        assert(ds.take(k) =~= ds);
    }
}

/// A maybe-index as the contracts read it.
pub open spec fn idx(o: Option<usize>) -> Option<nat> {
    match o {
        Some(i) => Some(i as nat),
        None => None,
    }
}

/// The largest card index among a node's type names.
fn chain_tip_max(ts: &Vec<String>) -> (r: Option<usize>)
    ensures
        idx(r) == chain_max(ts@),
{
    let mut best: Option<usize> = None;
    let mut i: usize = 0;
    proof {
        assert(ts@.take(0) =~= Seq::<String>::empty());
    }
    while i < ts.len()
        invariant
            i <= ts@.len(),
            idx(best) == chain_max(ts@.take(i as int)),
        decreases ts@.len() - i,
    {
        let here = tip_of(ts[i].as_str());
        best = max_of(best, here);
        proof {
            assert(ts@.take(i + 1).drop_last() =~= ts@.take(i as int));
            assert(ts@.take(i + 1).last() == ts@[i as int]);
        }
        i = i + 1;
    }
    proof {
        assert(ts@.take(ts@.len() as int) =~= ts@);
    }
    best
}

/// The largest card index a node or any node under it wears.
fn node_tips(n: &PlacedNode) -> (r: Option<usize>)
    ensures
        idx(r) == node_tip_max(*n),
    decreases n,
{
    let mut best = chain_tip_max(&n.type_chain);
    let ghost own = idx(best);
    let mut below: Option<usize> = None;
    let mut i: usize = 0;
    proof {
        assert(n.children@.take(0) =~= Seq::<PlacedNode>::empty());
    }
    while i < n.children.len()
        invariant
            i <= n.children@.len(),
            idx(below) == nodes_tip_max(n.children@.take(i as int)),
        decreases n.children@.len() - i,
    {
        assert(decreases_to!(n => n.children@[i as int]));
        let here = node_tips(&n.children[i]);
        below = max_of(below, here);
        proof {
            let c = n.children@;
            assert(c.take(i + 1).drop_last() =~= c.take(i as int));
            assert(c.take(i + 1).last() == c[i as int]);
        }
        i = i + 1;
    }
    proof {
        assert(n.children@.take(n.children@.len() as int) =~= n.children@);
    }
    best = max_of(best, below);
    best
}

/// The number of rich tooltip cards — the largest `tip-N` index any node
/// wears, plus one, or none at all. One reveal rule is emitted per card.
pub fn tooltip_count(nodes: &[PlacedNode]) -> (n: usize)
    requires
        nodes_tip_max(nodes@) matches Some(m) ==> m < usize::MAX,
    ensures
        n == (match nodes_tip_max(nodes@) {
            Some(m) => m + 1,
            None => 0,
        }),
{
    let mut best: Option<usize> = None;
    let mut i: usize = 0;
    proof {
        assert(nodes@.take(0) =~= Seq::<PlacedNode>::empty());
    }
    while i < nodes.len()
        invariant
            i <= nodes@.len(),
            idx(best) == nodes_tip_max(nodes@.take(i as int)),
        decreases nodes@.len() - i,
    {
        let here = node_tips(&nodes[i]);
        best = max_of(best, here);
        proof {
            assert(nodes@.take(i + 1).drop_last() =~= nodes@.take(i as int));
            assert(nodes@.take(i + 1).last() == nodes@[i as int]);
        }
        i = i + 1;
    }
    proof {
        assert(nodes@.take(nodes@.len() as int) =~= nodes@);
    }
    match best {
        Some(m) => m + 1,
        None => 0,
    }
}

} // verus!
