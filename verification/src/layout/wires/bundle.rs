//! Bundles and fan groups: which route requests travel together.
//!
//! Requests with the same unordered `(path, forced side)` endpoint pair form
//! one **bundle** (adjacent rails); requests of one statement sharing a
//! segment endpoint form a **fan group** (one shared port and stub).

use crate::error::Span;
use vstd::prelude::*;

verus! {

/// One end of a request, as later stages address it.
#[derive(Clone, Copy, Debug, PartialEq, Eq, Structural)]
pub enum End {
    A,
    B,
}

/// One bundle: requests with the same unordered `(path, side)` endpoint pair.
/// They route once and ride as `members.len()` adjacent rails.
pub struct Bundle {
    pub members: Vec<usize>,
}

/// How many of `k` members keep the slot when a bundle degrades: ⌈k/2⌉.
pub open spec fn kept_half(k: int) -> int {
    k / 2 + k % 2
}

/// The bundle members after bundle `bi` degrades: its first ⌈k/2⌉ keep the
/// slot, the rest become the next bundle in line.
pub open spec fn split_at(bs: Seq<Seq<usize>>, bi: int) -> Seq<Seq<usize>> {
    let k = kept_half(bs[bi].len() as int);
    bs.take(bi) + seq![bs[bi].take(k), bs[bi].skip(k)] + bs.skip(bi + 1)
}

/// Splitting keeps every request in declaration order: read bundle by
/// bundle, the members are the same before and after.
pub proof fn law_split_keeps_declaration_order(bs: Seq<Seq<usize>>, bi: int)
    requires
        0 <= bi < bs.len(),
    ensures
        split_at(bs, bi).flatten() == bs.flatten(),
        split_at(bs, bi).len() == bs.len() + 1,
{
    let k = kept_half(bs[bi].len() as int);
    let head = bs.take(bi);
    let tail = bs.skip(bi + 1);
    let pieces = seq![bs[bi].take(k), bs[bi].skip(k)];
    assert(bs =~= head + seq![bs[bi]] + tail);
    vstd::seq_lib::lemma_flatten_concat(head + pieces, tail);
    vstd::seq_lib::lemma_flatten_concat(head, pieces);
    vstd::seq_lib::lemma_flatten_concat(head + seq![bs[bi]], tail);
    vstd::seq_lib::lemma_flatten_concat(head, seq![bs[bi]]);
    seq![bs[bi].skip(k)].lemma_flatten_one_element();
    seq![bs[bi]].lemma_flatten_one_element();
    assert(pieces.flatten() =~= bs[bi].take(k) + bs[bi].skip(k)) by {
        assert(pieces.drop_first() =~= seq![bs[bi].skip(k)]);
    }
    assert(bs[bi].take(k) + bs[bi].skip(k) =~= bs[bi]);
}

/// Degrade bundle `bi` one step: the first ⌈k/2⌉ members keep the slot, the
/// rest become the next bundle in line, so the pieces still route in
/// declaration order. Adjacent rails are the preferred form; splitting beats
/// vanishing.
pub fn split(bundles: &mut Vec<Bundle>, bi: usize)
    requires
        bi < old(bundles).len(),
    ensures
        final(bundles).len() == old(bundles).len() + 1,
        forall|i: int| 0 <= i < bi ==> #[trigger] final(bundles)[i].members@ == old(bundles)[i].members@,
        final(bundles)[bi as int].members@ == old(bundles)[bi as int].members@.take(
            kept_half(old(bundles)[bi as int].members@.len() as int),
        ),
        final(bundles)[bi + 1].members@ == old(bundles)[bi as int].members@.skip(
            kept_half(old(bundles)[bi as int].members@.len() as int),
        ),
        forall|i: int|
            bi < i < old(bundles).len() ==> #[trigger] final(bundles)[i + 1].members@
                == old(bundles)[i].members@,
        members_of(final(bundles)@) == split_at(members_of(old(bundles)@), bi as int),
{
    let ghost before = bundles@;
    let mut head = bundles.remove(bi);
    let k = head.members.len();
    let keep = k / 2 + k % 2;
    let tail = head.members.split_off(keep);
    proof {
        assert(head.members@ =~= before[bi as int].members@.take(keep as int));
        assert(tail@ =~= before[bi as int].members@.skip(keep as int));
    }
    bundles.insert(bi, head);
    bundles.insert(bi + 1, Bundle { members: tail });
    proof {
        assert forall|i: int| bi < i < before.len() implies #[trigger] bundles@[i + 1].members@
            == before[i].members@ by {
            assert(bundles@[i + 1] == before[i]);
        }
        assert(members_of(bundles@) =~= split_at(members_of(before), bi as int));
    }
}

/// Fan groups: requests of one statement sharing a segment endpoint share that
/// end's port and stub. `groups[g]` lists members in expansion order; the
/// per-request entry holds `(group, end)` for each fanned end.
pub struct Fans {
    pub groups: Vec<Vec<usize>>,
    pub of: Vec<Vec<(usize, End)>>,
}

/// The group of the first entry at or after `i` that fans `end`.
pub open spec fn group_from(entries: Seq<(usize, End)>, end: End, i: int) -> Option<usize>
    decreases entries.len() - i,
{
    if i < 0 || i >= entries.len() {
        None
    } else if entries[i].1 == end {
        Some(entries[i].0)
    } else {
        group_from(entries, end, i + 1)
    }
}

impl Fans {
    /// The fan group that request `req`'s `end` belongs to, if it is fanned.
    pub fn group_at(&self, req: usize, end: End) -> (g: Option<usize>)
        requires
            req < self.of@.len(),
        ensures
            g == group_from(self.of@[req as int]@, end, 0),
    {
        let entries = &self.of[req];
        assert(entries@ == self.of@[req as int]@);
        let mut k: usize = 0;
        while k < entries.len()
            invariant
                k <= entries@.len(),
                req < self.of@.len(),
                entries@ == self.of@[req as int]@,
                group_from(entries@, end, 0) == group_from(entries@, end, k as int),
            decreases entries@.len() - k,
        {
            if entries[k].1 == end {
                assert(entries@[k as int].1 == end);
                return Some(entries[k].0);
            }
            k = k + 1;
        }
        None
    }
}

/// The side of a node an end is forced onto.
#[derive(Clone, Copy, Debug, PartialEq, Eq, Structural)]
pub enum Side {
    Top,
    Right,
    Bottom,
    Left,
}

/// One route request's endpoint identity: the two paths it joins, their
/// forced sides, and the statement / chain-segment / expansion position
/// every later stage ties on.
pub struct EdgeReq {
    pub a_path: String,
    pub b_path: String,
    pub side_a: Option<Side>,
    pub side_b: Option<Side>,
    /// The wire statement the request comes from.
    pub span: Span,
    pub stmt: usize,
    pub seg: usize,
    pub expansion: usize,
}

impl EdgeReq {
    pub open spec fn spec_path(self, end: End) -> Seq<char> {
        match end {
            End::A => self.a_path@,
            End::B => self.b_path@,
        }
    }

    pub open spec fn spec_side(self, end: End) -> Option<Side> {
        match end {
            End::A => self.side_a,
            End::B => self.side_b,
        }
    }

    /// The path at one end.
    pub fn path(&self, end: End) -> (p: &str)
        ensures
            p@ == self.spec_path(end),
    {
        match end {
            End::A => self.a_path.as_str(),
            End::B => self.b_path.as_str(),
        }
    }

    /// The forced side at one end.
    pub fn side(&self, end: End) -> (s: Option<Side>)
        ensures
            s == self.spec_side(end),
    {
        match end {
            End::A => self.side_a,
            End::B => self.side_b,
        }
    }
}

/// A request that starts and ends at one node.
pub open spec fn is_loop(r: EdgeReq) -> bool {
    r.a_path@ == r.b_path@
}

/// Two requests join the same unordered `(path, side)` pair.
pub open spec fn same_pair(r: EdgeReq, s: EdgeReq) -> bool {
    (r.a_path@ == s.a_path@ && r.side_a == s.side_a && r.b_path@ == s.b_path@ && r.side_b == s.side_b) || (
    r.a_path@ == s.b_path@ && r.side_a == s.side_b && r.b_path@ == s.a_path@ && r.side_b == s.side_a)
}

/// Requests `i` and `j` ride one bundle: the same request, or two that are
/// not self-loops and join the same unordered pair.
pub open spec fn together(reqs: Seq<EdgeReq>, i: int, j: int) -> bool {
    i == j || (!is_loop(reqs[i]) && !is_loop(reqs[j]) && same_pair(reqs[i], reqs[j]))
}

/// Request `i` sits somewhere in `bs`.
pub open spec fn placed(bs: Seq<Seq<usize>>, i: int) -> bool {
    exists|b: int, p: int| 0 <= b < bs.len() && 0 <= p < bs[b].len() && #[trigger] bs[b][p] == i
}

/// `bs` are the bundles of `reqs`: every request in exactly one, members
/// in declaration order, bundles in declaration order of their first
/// member, two requests sharing a bundle exactly when they ride together.
pub open spec fn bundled(reqs: Seq<EdgeReq>, bs: Seq<Seq<usize>>) -> bool {
    &&& forall|b: int| 0 <= b < bs.len() ==> (#[trigger] bs[b]).len() > 0
    &&& forall|b: int, p: int, q: int|
        0 <= b < bs.len() && 0 <= p < q < bs[b].len() ==> #[trigger] bs[b][p] < #[trigger] bs[b][q]
    &&& forall|b: int, p: int| 0 <= b < bs.len() && 0 <= p < bs[b].len() ==> #[trigger] bs[b][p] < reqs.len()
    &&& forall|i: int| 0 <= i < reqs.len() ==> #[trigger] placed(bs, i)
    &&& forall|b: int, p: int|
        0 <= b < bs.len() && 0 <= p < bs[b].len() ==> together(reqs, bs[b][0] as int, #[trigger] bs[b][p] as int)
    &&& forall|b1: int, b2: int|
        0 <= b1 < b2 < bs.len() ==> !together(reqs, #[trigger] bs[b1][0] as int, #[trigger] bs[b2][0] as int)
    &&& forall|b1: int, b2: int| 0 <= b1 < b2 < bs.len() ==> #[trigger] bs[b1][0] < #[trigger] bs[b2][0]
}

/// The members of each bundle.
pub open spec fn members_of(bs: Seq<Bundle>) -> Seq<Seq<usize>> {
    bs.map_values(|b: Bundle| b.members@)
}

fn same_side(a: Option<Side>, b: Option<Side>) -> (r: bool)
    ensures
        r == (a == b),
{
    match (a, b) {
        (Some(x), Some(y)) => x == y,
        (None, None) => true,
        _ => false,
    }
}

/// Whether two requests ride one bundle.
fn rides_with(r: &EdgeReq, s: &EdgeReq) -> (b: bool)
    ensures
        b == (!is_loop(*r) && !is_loop(*s) && same_pair(*r, *s)),
{
    if crate::text::str_eq(r.a_path.as_str(), r.b_path.as_str()) || crate::text::str_eq(
        s.a_path.as_str(),
        s.b_path.as_str(),
    ) {
        return false;
    }
    let straight = crate::text::str_eq(r.a_path.as_str(), s.a_path.as_str()) && same_side(r.side_a, s.side_a)
        && crate::text::str_eq(r.b_path.as_str(), s.b_path.as_str()) && same_side(r.side_b, s.side_b);
    let crossed = crate::text::str_eq(r.a_path.as_str(), s.b_path.as_str()) && same_side(r.side_a, s.side_b)
        && crate::text::str_eq(r.b_path.as_str(), s.a_path.as_str()) && same_side(r.side_b, s.side_a);
    straight || crossed
}

/// Bundles in declaration order of their first member; members in
/// declaration order within. Self-loops never bundle.
pub fn bundles(reqs: &[EdgeReq]) -> (out: Vec<Bundle>)
    ensures
        bundled(reqs@, members_of(out@)),
{
    let n = reqs.len();
    let mut out: Vec<Bundle> = Vec::new();
    let mut k: usize = 0;
    while k < n
        invariant
            n == reqs@.len(),
            k <= n,
            bundled(reqs@.take(k as int), members_of(out@)),
        decreases n - k,
    {
        let ghost before = members_of(out@);
        let ghost pre = reqs@.take(k as int);
        let ghost post = reqs@.take(k + 1);
        proof {
            assert forall|i: int, j: int| 0 <= i < k && 0 <= j < k implies together(pre, i, j) == together(post, i, j) by {
                assert(pre[i] == post[i] && pre[j] == post[j]);
            }
        }
        let m = out.len();
        let mut b: usize = 0;
        while b < m
            invariant
                m == out@.len(),
                b <= m,
                k < n,
                n == reqs@.len(),
                members_of(out@) == before,
                bundled(pre, before),
                pre == reqs@.take(k as int),
                forall|c: int| 0 <= c < b ==> !(!is_loop(reqs@[before[c][0] as int]) && !is_loop(reqs@[k as int])
                    && same_pair(reqs@[before[c][0] as int], reqs@[k as int])),
            ensures
                b <= m,
                b < m ==> (!is_loop(reqs@[before[b as int][0] as int]) && !is_loop(reqs@[k as int]) && same_pair(
                    reqs@[before[b as int][0] as int],
                    reqs@[k as int],
                )),
                forall|c: int| 0 <= c < b ==> !(!is_loop(reqs@[before[c][0] as int]) && !is_loop(reqs@[k as int])
                    && same_pair(reqs@[before[c][0] as int], reqs@[k as int])),
            decreases m - b,
        {
            proof {
                assert(before[b as int] == out@[b as int].members@);
                assert(before[b as int].len() > 0);
                assert(before[b as int][0] < k);
            }
            let head = out[b].members[0];
            if rides_with(&reqs[head], &reqs[k]) {
                break;
            }
            b = b + 1;
        }
        if b < m {
            let mut bd = out.remove(b);
            bd.members.push(k);
            out.insert(b, bd);
            proof {
                let after = members_of(out@);
                assert(after =~= before.update(b as int, before[b as int].push(k)));
                lemma_bundled_join(reqs@, k as int, before, b as int);
            }
        } else {
            let one = vec![k];
            assert(one@ =~= seq![k]);
            out.push(Bundle { members: one });
            proof {
                let after = members_of(out@);
                assert(after =~= before.push(seq![k]));
                lemma_bundled_open(reqs@, k as int, before);
            }
        }
        k = k + 1;
    }
    proof {
        assert(reqs@.take(n as int) =~= reqs@);
    }
    out
}

/// Riding together reads the same on a prefix of the requests.
proof fn lemma_together_prefix(reqs: Seq<EdgeReq>, k: int, i: int, j: int)
    requires
        0 <= i < k,
        0 <= j < k,
        k <= reqs.len(),
    ensures
        together(reqs.take(k), i, j) == together(reqs, i, j),
{
    assert(reqs.take(k)[i] == reqs[i]);
    assert(reqs.take(k)[j] == reqs[j]);
}

/// Adding request `k` to the bundle whose first member it rides with keeps
/// the bundling exact.
proof fn lemma_bundled_join(reqs: Seq<EdgeReq>, k: int, before: Seq<Seq<usize>>, b: int)
    requires
        0 <= k < reqs.len(),
        k < usize::MAX,
        bundled(reqs.take(k), before),
        0 <= b < before.len(),
        !is_loop(reqs[before[b][0] as int]) && !is_loop(reqs[k]) && same_pair(reqs[before[b][0] as int], reqs[k]),
    ensures
        bundled(reqs.take(k + 1), before.update(b, before[b].push(k as usize))),
{
    let pre = reqs.take(k);
    let post = reqs.take(k + 1);
    let after = before.update(b, before[b].push(k as usize));
    assert forall|c: int, p: int| 0 <= c < after.len() && 0 <= p < after[c].len() implies #[trigger] after[c][p] < post.len()
        && (c != b || p < before[b].len() ==> after[c][p] == before[c][p]) by {
        if c == b && p == before[b].len() {
        } else {
            assert(before[c][p] < pre.len());
        }
    }
    assert forall|c: int, p: int, q: int| 0 <= c < after.len() && 0 <= p < q < after[c].len() implies #[trigger] after[c][p]
        < #[trigger] after[c][q] by {
        if c == b && q == before[b].len() {
            assert(before[c][p] < pre.len());
        } else {
            assert(before[c][p] < before[c][q]);
        }
    }
    assert forall|i: int| 0 <= i < post.len() implies #[trigger] placed(after, i) by {
        if i == k {
            assert(after[b][before[b].len() as int] == i);
        } else {
            assert(placed(before, i));
            let (c, p) = choose|c: int, p: int| 0 <= c < before.len() && 0 <= p < before[c].len() && #[trigger] before[c][p] == i;
            assert(after[c][p] == i);
        }
    }
    assert forall|c: int, p: int| 0 <= c < after.len() && 0 <= p < after[c].len() implies together(post, after[c][0] as int, #[trigger] after[c][p] as int) by {
        assert(after[c][0] == before[c][0]);
        assert(before[c][0] < k);
        if c == b && p == before[b].len() {
            assert(post[before[b][0] as int] == reqs[before[b][0] as int]);
            assert(post[k] == reqs[k]);
        } else {
            assert(together(pre, before[c][0] as int, before[c][p] as int));
            assert(before[c][p] < k);
            lemma_together_prefix(reqs, k, before[c][0] as int, before[c][p] as int);
            lemma_together_prefix(reqs, k + 1, before[c][0] as int, before[c][p] as int);
        }
    }
    assert forall|b1: int, b2: int| 0 <= b1 < b2 < after.len() implies !together(post, #[trigger] after[b1][0] as int, #[trigger] after[b2][0] as int)
        && after[b1][0] < after[b2][0] by {
        assert(after[b1][0] == before[b1][0] && after[b2][0] == before[b2][0]);
        assert(!together(pre, before[b1][0] as int, before[b2][0] as int));
        assert(before[b1][0] < before[b2][0]);
        assert(before[b1][0] < k && before[b2][0] < k);
        lemma_together_prefix(reqs, k, before[b1][0] as int, before[b2][0] as int);
        lemma_together_prefix(reqs, k + 1, before[b1][0] as int, before[b2][0] as int);
    }
}

/// Opening a new bundle for a request that rides with no bundle's first
/// member keeps the bundling exact.
proof fn lemma_bundled_open(reqs: Seq<EdgeReq>, k: int, before: Seq<Seq<usize>>)
    requires
        0 <= k < reqs.len(),
        k < usize::MAX,
        bundled(reqs.take(k), before),
        forall|c: int| 0 <= c < before.len() ==> !(!is_loop(reqs[before[c][0] as int]) && !is_loop(reqs[k])
            && same_pair(reqs[before[c][0] as int], reqs[k])),
    ensures
        bundled(reqs.take(k + 1), before.push(seq![k as usize])),
{
    let pre = reqs.take(k);
    let post = reqs.take(k + 1);
    let after = before.push(seq![k as usize]);
    let last = before.len() as int;
    assert forall|c: int, p: int| 0 <= c < after.len() && 0 <= p < after[c].len() implies #[trigger] after[c][p] < post.len() by {
        if c < last {
            assert(before[c][p] < pre.len());
        }
    }
    assert forall|c: int, p: int, q: int| 0 <= c < after.len() && 0 <= p < q < after[c].len() implies #[trigger] after[c][p]
        < #[trigger] after[c][q] by {
        assert(c < last);
        assert(before[c][p] < before[c][q]);
    }
    assert forall|i: int| 0 <= i < post.len() implies #[trigger] placed(after, i) by {
        if i == k {
            assert(after[last][0] == i);
        } else {
            assert(placed(before, i));
            let (c, p) = choose|c: int, p: int| 0 <= c < before.len() && 0 <= p < before[c].len() && #[trigger] before[c][p] == i;
            assert(after[c][p] == i);
        }
    }
    assert forall|c: int, p: int| 0 <= c < after.len() && 0 <= p < after[c].len() implies together(post, after[c][0] as int, #[trigger] after[c][p] as int) by {
        if c < last {
            assert(together(pre, before[c][0] as int, before[c][p] as int));
            assert(before[c][0] < k && before[c][p] < k);
            lemma_together_prefix(reqs, k, before[c][0] as int, before[c][p] as int);
            lemma_together_prefix(reqs, k + 1, before[c][0] as int, before[c][p] as int);
        }
    }
    assert forall|b1: int, b2: int| 0 <= b1 < b2 < after.len() implies !together(post, #[trigger] after[b1][0] as int, #[trigger] after[b2][0] as int)
        && after[b1][0] < after[b2][0] by {
        assert(before[b1][0] < k);
        if b2 < last {
            assert(!together(pre, before[b1][0] as int, before[b2][0] as int));
            assert(before[b1][0] < before[b2][0]);
            assert(before[b2][0] < k);
            lemma_together_prefix(reqs, k, before[b1][0] as int, before[b2][0] as int);
            lemma_together_prefix(reqs, k + 1, before[b1][0] as int, before[b2][0] as int);
        } else {
            assert(post[before[b1][0] as int] == reqs[before[b1][0] as int]);
            assert(post[k] == reqs[k]);
        }
    }
}

/// Requests `i` and `j` share their `e` end within one statement segment:
/// the same statement, segment, path and forced side at that end.
pub open spec fn shares_end(reqs: Seq<EdgeReq>, i: int, j: int, e: End) -> bool {
    reqs[i].stmt == reqs[j].stmt && reqs[i].seg == reqs[j].seg && reqs[i].spec_path(e) == reqs[j].spec_path(e)
        && reqs[i].spec_side(e) == reqs[j].spec_side(e)
}

/// The requests among `0..n` sharing request `i`'s `e` end, ascending.
pub open spec fn mates_upto(reqs: Seq<EdgeReq>, i: int, e: End, n: int) -> Seq<usize>
    decreases n,
{
    if n <= 0 {
        Seq::empty()
    } else {
        let before = mates_upto(reqs, i, e, n - 1);
        if shares_end(reqs, i, n - 1, e) {
            before.push((n - 1) as usize)
        } else {
            before
        }
    }
}

/// All requests sharing request `i`'s `e` end, ascending.
pub open spec fn mates(reqs: Seq<EdgeReq>, i: int, e: End) -> Seq<usize> {
    mates_upto(reqs, i, e, reqs.len() as int)
}

/// The end each enumeration position names: `A` then `B` per request.
pub open spec fn end_at(t: int) -> End {
    if t % 2 == 0 {
        End::A
    } else {
        End::B
    }
}

/// Request `i`'s `e` end heads a fan: no earlier request shares it, and at
/// least one other does.
pub open spec fn leads(reqs: Seq<EdgeReq>, i: int, e: End) -> bool {
    &&& forall|j: int| 0 <= j < i ==> !#[trigger] shares_end(reqs, j, i, e)
    &&& mates(reqs, i, e).len() >= 2
}

/// The fan heads among the first `t` request ends (`(0, A), (0, B), (1,
/// A), …`), in that order.
pub open spec fn heads_upto(reqs: Seq<EdgeReq>, t: int) -> Seq<(usize, End)>
    decreases t,
{
    if t <= 0 {
        Seq::empty()
    } else {
        let before = heads_upto(reqs, t - 1);
        let i = (t - 1) / 2;
        if leads(reqs, i, end_at(t - 1)) {
            before.push((i as usize, end_at(t - 1)))
        } else {
            before
        }
    }
}

/// Where request end `(i, e)` sits in the enumeration.
pub open spec fn end_pos(i: int, e: End) -> int {
    2 * i + if e == End::A { 0int } else { 1int }
}

/// The fan groups: for each fan head in enumeration order, the requests
/// sharing that end.
pub open spec fn fan_groups_of(reqs: Seq<EdgeReq>) -> Seq<Seq<usize>> {
    heads_upto(reqs, 2 * reqs.len() as int).map_values(|h: (usize, End)| mates(reqs, h.0 as int, h.1))
}

/// Request `i`'s fanned ends, `A` before `B`: each with the index of its
/// fan — the number of fan heads before the fan's first member's end.
pub open spec fn fanned_ends(reqs: Seq<EdgeReq>, i: int) -> Seq<(usize, End)> {
    let at = |e: End|
        if mates(reqs, i, e).len() >= 2 {
            seq![(heads_upto(reqs, end_pos(mates(reqs, i, e)[0] as int, e)).len() as usize, e)]
        } else {
            Seq::<(usize, End)>::empty()
        };
    at(End::A) + at(End::B)
}

/// The entry lists of requests `0..n`.
pub open spec fn fan_entries(reqs: Seq<EdgeReq>, of: Seq<Vec<(usize, End)>>) -> bool {
    &&& of.len() == reqs.len()
    &&& forall|i: int| 0 <= i < reqs.len() ==> (#[trigger] of[i])@ == fanned_ends(reqs, i)
}

/// The group lists as sequences.
pub open spec fn group_views(groups: Seq<Vec<usize>>) -> Seq<Seq<usize>> {
    groups.map_values(|g: Vec<usize>| g@)
}

/// What `mates_upto` holds: exactly the requests below `n` sharing `i`'s
/// end, ascending.
proof fn lemma_mates_upto(reqs: Seq<EdgeReq>, i: int, e: End, n: int)
    requires
        0 <= n <= reqs.len(),
        reqs.len() <= usize::MAX,
    ensures
        forall|q: int| 0 <= q < mates_upto(reqs, i, e, n).len() ==> (#[trigger] mates_upto(reqs, i, e, n)[q]) < n
            && shares_end(reqs, i, mates_upto(reqs, i, e, n)[q] as int, e),
        forall|j: int| 0 <= j < n && shares_end(reqs, i, j, e) ==> mates_upto(reqs, i, e, n).contains(j as usize),
        forall|p: int, q: int|
            0 <= p < q < mates_upto(reqs, i, e, n).len() ==> #[trigger] mates_upto(reqs, i, e, n)[p]
                < #[trigger] mates_upto(reqs, i, e, n)[q],
    decreases n,
{
    if n > 0 {
        lemma_mates_upto(reqs, i, e, n - 1);
        let before = mates_upto(reqs, i, e, n - 1);
        if shares_end(reqs, i, n - 1, e) {
            let now = before.push((n - 1) as usize);
            assert(now[before.len() as int] == (n - 1) as usize);
            assert forall|j: int| 0 <= j < n && shares_end(reqs, i, j, e) implies now.contains(j as usize) by {
                if j < n - 1 {
                    let q = choose|q: int| 0 <= q < before.len() && before[q] == j as usize;
                    assert(now[q] == j as usize);
                }
            }
        }
    }
}

/// Requests sharing an end have the same mates there.
proof fn lemma_mates_same(reqs: Seq<EdgeReq>, i: int, j: int, e: End, n: int)
    requires
        shares_end(reqs, i, j, e),
    ensures
        mates_upto(reqs, i, e, n) == mates_upto(reqs, j, e, n),
    decreases n,
{
    if n > 0 {
        lemma_mates_same(reqs, i, j, e, n - 1);
    }
}

/// There are no more fan heads than request ends seen.
proof fn lemma_heads_len(reqs: Seq<EdgeReq>, t: int)
    requires
        0 <= t,
    ensures
        heads_upto(reqs, t).len() <= t,
    decreases t,
{
    if t > 0 {
        lemma_heads_len(reqs, t - 1);
    }
}

/// The fan heads seen by an earlier point are a prefix of those seen later.
proof fn lemma_heads_prefix(reqs: Seq<EdgeReq>, t1: int, t2: int)
    requires
        0 <= t1 <= t2,
    ensures
        heads_upto(reqs, t1).len() <= heads_upto(reqs, t2).len(),
        heads_upto(reqs, t2).len() <= t2,
        heads_upto(reqs, t2).take(heads_upto(reqs, t1).len() as int) == heads_upto(reqs, t1),
    decreases t2,
{
    lemma_heads_len(reqs, t2);
    if t1 < t2 {
        lemma_heads_prefix(reqs, t1, t2 - 1);
        let a = heads_upto(reqs, t1);
        let b = heads_upto(reqs, t2 - 1);
        let c = heads_upto(reqs, t2);
        if c.len() > b.len() {
            assert(c.take(b.len() as int) =~= b);
            assert(c.take(a.len() as int) =~= b.take(a.len() as int));
        }
    } else {
        assert(heads_upto(reqs, t2).take(heads_upto(reqs, t2).len() as int) =~= heads_upto(reqs, t2));
    }
}

/// Each fanned end of a request names a fan group that holds the request:
/// the entry `(g, e)` of request `i` points at `groups[g]`, and `i` is among
/// its members.
pub proof fn law_fan_entries_name_their_groups(reqs: Seq<EdgeReq>, i: int, k: int)
    requires
        2 * reqs.len() <= usize::MAX,
        0 <= i < reqs.len(),
        0 <= k < fanned_ends(reqs, i).len(),
    ensures
        (fanned_ends(reqs, i)[k].0 as int) < fan_groups_of(reqs).len(),
        fan_groups_of(reqs)[fanned_ends(reqs, i)[k].0 as int].contains(i as usize),
{
    let n = reqs.len() as int;
    let ea = if mates(reqs, i, End::A).len() >= 2 { 1int } else { 0int };
    let e = if k < ea { End::A } else { End::B };
    let ms = mates(reqs, i, e);
    lemma_mates_upto(reqs, i, e, n);
    assert(ms.len() >= 2);
    let m0 = ms[0] as int;
    assert(shares_end(reqs, i, m0, e));
    assert(0 <= m0 < n);
    let g = heads_upto(reqs, end_pos(m0, e)).len() as int;
    assert(fanned_ends(reqs, i)[k] == (g as usize, e));
    // `m0` heads the fan: no earlier request shares its end.
    assert(shares_end(reqs, m0, i, e));
    lemma_mates_same(reqs, m0, i, e, n);
    assert forall|j: int| 0 <= j < m0 implies !#[trigger] shares_end(reqs, j, m0, e) by {
        if shares_end(reqs, j, m0, e) {
            assert(shares_end(reqs, i, j, e));
            assert(ms.contains(j as usize));
            let q = choose|q: int| 0 <= q < ms.len() && ms[q] == j as usize;
            if q > 0 {
                assert(ms[0] < ms[q]);
            }
        }
    }
    assert(leads(reqs, m0, e));
    let p = end_pos(m0, e);
    assert(p / 2 == m0 && end_at(p) == e);
    assert(heads_upto(reqs, p + 1) == heads_upto(reqs, p).push((m0 as usize, e)));
    lemma_heads_prefix(reqs, p + 1, 2 * n);
    let all = heads_upto(reqs, 2 * n);
    assert(all.take(g + 1) == heads_upto(reqs, p + 1));
    assert(all[g] == heads_upto(reqs, p + 1)[g]);
    assert(all[g] == (m0 as usize, e));
    assert(fan_groups_of(reqs)[g] == mates(reqs, m0, e));
    assert(ms[0] as int == m0);
    assert(mates(reqs, m0, e).contains(i as usize)) by {
        assert(shares_end(reqs, m0, i, e));
        lemma_mates_upto(reqs, m0, e, n);
    }
}

/// Whether requests `i` and `j` share their `e` end.
fn share(reqs: &[EdgeReq], i: usize, j: usize, e: End) -> (b: bool)
    requires
        i < reqs@.len(),
        j < reqs@.len(),
    ensures
        b == shares_end(reqs@, i as int, j as int, e),
{
    let (r, s) = (&reqs[i], &reqs[j]);
    r.stmt == s.stmt && r.seg == s.seg && crate::text::str_eq(r.path(e), s.path(e)) && same_side(r.side(e), s.side(e))
}

/// The requests sharing request `i`'s `e` end, ascending.
fn mates_of(reqs: &[EdgeReq], i: usize, e: End) -> (m: Vec<usize>)
    requires
        i < reqs@.len(),
    ensures
        m@ == mates(reqs@, i as int, e),
{
    let mut m: Vec<usize> = Vec::new();
    let mut j: usize = 0;
    while j < reqs.len()
        invariant
            i < reqs@.len(),
            j <= reqs@.len(),
            m@ == mates_upto(reqs@, i as int, e, j as int),
        decreases reqs@.len() - j,
    {
        if share(reqs, i, j, e) {
            m.push(j);
        }
        j = j + 1;
    }
    m
}

/// Whether request `i`'s `e` end heads a fan.
fn leads_exec(reqs: &[EdgeReq], i: usize, e: End) -> (b: bool)
    requires
        i < reqs@.len(),
    ensures
        b == leads(reqs@, i as int, e),
{
    let mut j: usize = 0;
    while j < i
        invariant
            i < reqs@.len(),
            j <= i,
            forall|k: int| 0 <= k < j ==> !#[trigger] shares_end(reqs@, k, i as int, e),
        decreases i - j,
    {
        if share(reqs, j, i, e) {
            return false;
        }
        j = j + 1;
    }
    mates_of(reqs, i, e).len() >= 2
}

/// Fan groups: requests of one statement sharing a segment endpoint share
/// that end's port and stub. Only shared ends are fans; an end no other
/// request shares belongs to none.
pub fn fan_groups(reqs: &[EdgeReq]) -> (fans: Fans)
    ensures
        group_views(fans.groups@) == fan_groups_of(reqs@),
        fan_entries(reqs@, fans.of@),
{
    let n = reqs.len();
    let mut groups: Vec<Vec<usize>> = Vec::new();
    // How many fan heads precede each request's `A` and `B` ends.
    let mut before_a: Vec<usize> = Vec::new();
    let mut before_b: Vec<usize> = Vec::new();
    let mut i: usize = 0;
    while i < n
        invariant
            n == reqs@.len(),
            i <= n,
            group_views(groups@) == heads_upto(reqs@, 2 * i).map_values(
                |h: (usize, End)| mates(reqs@, h.0 as int, h.1),
            ),
            groups@.len() == heads_upto(reqs@, 2 * i).len(),
            before_a@.len() == i,
            before_b@.len() == i,
            forall|k: int| 0 <= k < i ==> (#[trigger] before_a@[k]) == heads_upto(reqs@, 2 * k).len(),
            forall|k: int| 0 <= k < i ==> (#[trigger] before_b@[k]) == heads_upto(reqs@, 2 * k + 1).len(),
        decreases n - i,
    {
        proof {
            assert((2 * i as int + 1 - 1) / 2 == i as int);
            assert((2 * i as int + 2 - 1) / 2 == i as int);
            assert(end_at(2 * i as int) == End::A);
            assert(end_at(2 * i as int + 1) == End::B);
        }
        before_a.push(groups.len());
        let ghost hs = heads_upto(reqs@, 2 * i as int);
        if leads_exec(reqs, i, End::A) {
            let m = mates_of(reqs, i, End::A);
            let ghost mv = m@;
            groups.push(m);
            proof {
                assert(group_views(groups@) =~= group_views(groups@.drop_last()).push(mv));
                assert(hs.push((i as usize, End::A)).map_values(|h: (usize, End)| mates(reqs@, h.0 as int, h.1))
                    =~= hs.map_values(|h: (usize, End)| mates(reqs@, h.0 as int, h.1)).push(mv));
            }
        }
        before_b.push(groups.len());
        let ghost hs1 = heads_upto(reqs@, 2 * i as int + 1);
        if leads_exec(reqs, i, End::B) {
            let m = mates_of(reqs, i, End::B);
            let ghost mv = m@;
            groups.push(m);
            proof {
                assert(group_views(groups@) =~= group_views(groups@.drop_last()).push(mv));
                assert(hs1.push((i as usize, End::B)).map_values(|h: (usize, End)| mates(reqs@, h.0 as int, h.1))
                    =~= hs1.map_values(|h: (usize, End)| mates(reqs@, h.0 as int, h.1)).push(mv));
            }
        }
        i = i + 1;
    }
    let mut of: Vec<Vec<(usize, End)>> = Vec::new();
    let mut i: usize = 0;
    while i < n
        invariant
            n == reqs@.len(),
            i <= n,
            before_a@.len() == n,
            before_b@.len() == n,
            forall|k: int| 0 <= k < n ==> (#[trigger] before_a@[k]) == heads_upto(reqs@, 2 * k).len(),
            forall|k: int| 0 <= k < n ==> (#[trigger] before_b@[k]) == heads_upto(reqs@, 2 * k + 1).len(),
            of@.len() == i,
            forall|k: int| 0 <= k < i ==> (#[trigger] of@[k])@ == fanned_ends(reqs@, k),
        decreases n - i,
    {
        let mut ends: Vec<(usize, End)> = Vec::new();
        let ma = mates_of(reqs, i, End::A);
        if ma.len() >= 2 {
            let h = ma[0];
            proof {
                lemma_mates_below(reqs@, i as int, End::A, n as int);
                assert(ma@[0] < n);
            }
            ends.push((before_a[h], End::A));
        }
        let mb = mates_of(reqs, i, End::B);
        if mb.len() >= 2 {
            let h = mb[0];
            proof {
                lemma_mates_below(reqs@, i as int, End::B, n as int);
                assert(mb@[0] < n);
            }
            ends.push((before_b[h], End::B));
        }
        proof {
            assert(ends@ =~= fanned_ends(reqs@, i as int));
        }
        of.push(ends);
        i = i + 1;
    }
    Fans { groups, of }
}

/// Every mate is a request.
proof fn lemma_mates_below(reqs: Seq<EdgeReq>, i: int, e: End, n: int)
    requires
        0 <= n <= reqs.len(),
    ensures
        forall|k: int| 0 <= k < mates_upto(reqs, i, e, n).len() ==> #[trigger] mates_upto(reqs, i, e, n)[k] < n,
    decreases n,
{
    if n > 0 {
        lemma_mates_below(reqs, i, e, n - 1);
        let before = mates_upto(reqs, i, e, n - 1);
        assert forall|k: int| 0 <= k < mates_upto(reqs, i, e, n).len() implies #[trigger] mates_upto(reqs, i, e, n)[k] < n by {
            if k < before.len() {
                assert(before[k] < n - 1);
            }
        }
    }
}

} // verus!
