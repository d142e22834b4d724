use lini::error::Span;
use lini::layout::wires::bundle::{bundles, fan_groups, split, EdgeReq, End, Side};

fn req(stmt: usize, seg: usize, expansion: usize, a: &str, b: &str) -> EdgeReq {
    EdgeReq {
        a_path: a.to_owned(),
        b_path: b.to_owned(),
        side_a: None,
        side_b: None,
        span: Span { start: 0, end: 0 },
        stmt,
        seg,
        expansion,
    }
}

#[test]
fn same_unordered_pair_forms_one_bundle_across_statements() {
    let reqs = vec![
        req(0, 0, 0, "a", "b"),
        req(1, 0, 0, "c", "d"),
        req(2, 0, 0, "b", "a"),
        req(3, 0, 0, "a", "b"),
    ];
    let bs = bundles(&reqs);
    assert_eq!(bs.len(), 2);
    assert_eq!(bs[0].members, vec![0, 2, 3]);
    assert_eq!(bs[1].members, vec![1]);
}

#[test]
fn forced_sides_split_bundles() {
    let mut r1 = req(0, 0, 0, "a", "b");
    r1.side_a = Some(Side::Left);
    let r2 = req(1, 0, 0, "a", "b");
    let bs = bundles(&[r1, r2]);
    assert_eq!(bs.len(), 2);
}

#[test]
fn split_halves_then_singles_in_declaration_order() {
    let reqs = vec![req(0, 0, 0, "a", "b"), req(1, 0, 0, "a", "b"), req(2, 0, 0, "a", "b")];
    let mut bs = bundles(&reqs);
    split(&mut bs, 0);
    let members: Vec<_> = bs.iter().map(|b| b.members.clone()).collect();
    assert_eq!(members, vec![vec![0, 1], vec![2]]);
    split(&mut bs, 0);
    let members: Vec<_> = bs.iter().map(|b| b.members.clone()).collect();
    assert_eq!(members, vec![vec![0], vec![1], vec![2]]);
}

#[test]
fn self_loops_never_bundle() {
    let reqs = vec![req(0, 0, 0, "a", "a"), req(1, 0, 0, "a", "a")];
    let bs = bundles(&reqs);
    assert_eq!(bs.len(), 2);
}

#[test]
fn a_reversed_pair_bundles_only_with_matching_sides() {
    let mut r1 = req(0, 0, 0, "a", "b");
    r1.side_a = Some(Side::Top);
    let mut r2 = req(1, 0, 0, "b", "a");
    r2.side_b = Some(Side::Top);
    let mut r3 = req(2, 0, 0, "b", "a");
    r3.side_a = Some(Side::Top);
    let bs = bundles(&[r1, r2, r3]);
    let members: Vec<_> = bs.iter().map(|b| b.members.clone()).collect();
    assert_eq!(members, vec![vec![0, 1], vec![2]]);
}

#[test]
fn request_ends_read_their_path_and_side() {
    let mut r = req(0, 0, 0, "a", "b");
    r.side_b = Some(Side::Bottom);
    assert_eq!(r.path(End::A), "a");
    assert_eq!(r.path(End::B), "b");
    assert_eq!(r.side(End::A), None);
    assert_eq!(r.side(End::B), Some(Side::Bottom));
}

#[test]
fn fan_groups_share_a_statement_segment_endpoint() {
    // a -> b & c (one statement, two expansions) + an unrelated a -> d.
    let reqs = vec![req(0, 0, 0, "a", "b"), req(0, 0, 1, "a", "c"), req(1, 0, 0, "a", "d")];
    let fans = fan_groups(&reqs);
    assert_eq!(fans.groups, vec![vec![0, 1]]);
    assert_eq!(fans.group_at(0, End::A), Some(0));
    assert_eq!(fans.group_at(1, End::A), Some(0));
    assert_eq!(fans.group_at(0, End::B), None);
    assert_eq!(fans.group_at(2, End::A), None);
}

#[test]
fn fan_in_groups_the_shared_target() {
    // fox & owl -> mouse.
    let reqs = vec![req(0, 0, 0, "fox", "mouse"), req(0, 0, 1, "owl", "mouse")];
    let fans = fan_groups(&reqs);
    assert_eq!(fans.groups, vec![vec![0, 1]]);
    assert_eq!(fans.group_at(0, End::B), Some(0));
    assert_eq!(fans.group_at(1, End::B), Some(0));
}

#[test]
fn chain_segments_do_not_fan() {
    // a -> b -> c: two segments of one statement share `b` but not a seg index.
    let reqs = vec![req(0, 0, 0, "a", "b"), req(0, 1, 0, "b", "c")];
    let fans = fan_groups(&reqs);
    assert!(fans.groups.is_empty());
}

#[test]
fn fans_number_in_first_appearance_order() {
    // x -> p & q and, in the same statement, both ends fanned.
    let reqs = vec![
        req(0, 0, 0, "x", "p"),
        req(0, 0, 1, "y", "p"),
        req(0, 0, 2, "x", "q"),
    ];
    let fans = fan_groups(&reqs);
    assert_eq!(fans.groups, vec![vec![0, 2], vec![0, 1]]);
    assert_eq!(fans.of[0], vec![(0, End::A), (1, End::B)]);
    assert_eq!(fans.of[1], vec![(1, End::B)]);
    assert_eq!(fans.of[2], vec![(0, End::A)]);
}
