use lini::error::Span;
use lini::layout::wires::bundle::{split, Bundle, EdgeReq, End, Fans};
use lini::layout::wires::feedback::Probe;
use lini::layout::wires::graph::{Axis, Edge};
use lini::layout::wires::bundle::Side;
use lini::layout::wires::{impossible, parent_path, self_loop_sides};
use lini::testing::{breaches, strays};
use lini::{Rule, Severity, Violation};

fn violation(rule: Rule, severity: Severity) -> Violation {
    Violation {
        rule,
        severity,
        wires: vec!["a -> b".to_string()],
        detail: String::new(),
        span: Span::empty(),
    }
}

#[test]
fn rule_ids_are_stable() {
    assert_eq!(Rule::Clearance.id(), "clearance");
    assert_eq!(Rule::Separation.id(), "separation");
    assert_eq!(Rule::Contact.id(), "contact");
    assert_eq!(Rule::Crossing.id(), "crossing");
    assert_eq!(Rule::Impossible.id(), "impossible");
}

#[test]
fn axes_have_dense_ids() {
    assert_eq!(Axis::H.index(), 0);
    assert_eq!(Axis::V.index(), 1);
    let e = Edge { a: 0, b: 1, axis: Axis::V, channel: 2 };
    assert_eq!(e.axis.index(), 1);
}

#[test]
fn split_keeps_the_larger_half_in_place() {
    let mut bs = vec![
        Bundle { members: vec![0, 1, 2] },
        Bundle { members: vec![3] },
    ];
    split(&mut bs, 0);
    let members: Vec<_> = bs.iter().map(|b| b.members.clone()).collect();
    assert_eq!(members, vec![vec![0, 1], vec![2], vec![3]]);
    split(&mut bs, 0);
    let members: Vec<_> = bs.iter().map(|b| b.members.clone()).collect();
    assert_eq!(members, vec![vec![0], vec![1], vec![2], vec![3]]);
}

#[test]
fn group_at_reads_the_fanned_end() {
    let fans = Fans { groups: vec![vec![0, 1]], of: vec![vec![(0, End::A)], vec![(0, End::A)], vec![]] };
    assert_eq!(fans.group_at(0, End::A), Some(0));
    assert_eq!(fans.group_at(1, End::A), Some(0));
    assert_eq!(fans.group_at(0, End::B), None);
    assert_eq!(fans.group_at(2, End::A), None);
}

#[test]
fn a_probe_names_a_deficit_only_when_both_ends_entered() {
    let mut p = Probe::default();
    p.lanes_short(1, Axis::V, 2);
    p.lanes_short(0, Axis::H, 1);
    p.lanes_short(1, Axis::V, 1);
    p.entries(End::A, true);
    p.entries(End::B, false);
    let mut q = Probe::default();
    q.entries(End::A, true);
    q.entries(End::B, true);
    q.lanes_short(1, Axis::V, 2);
    q.lanes_short(0, Axis::H, 1);
    q.lanes_short(1, Axis::V, 1);
    q.lanes_short(1, Axis::H, 3);
    assert!(p.deficits().is_none());
    let rows = q.deficits().unwrap();
    assert_eq!(rows, vec![(0, Axis::H, 1), (1, Axis::H, 3), (1, Axis::V, 2)]);
}

#[test]
fn a_probe_with_no_short_channel_has_no_deficit() {
    let mut p = Probe::default();
    p.entries(End::A, true);
    p.entries(End::B, true);
    assert!(p.deficits().is_none());
}

#[test]
fn breaches_skip_counted_crossings_and_strays() {
    let report = vec![
        violation(Rule::Crossing, Severity::Info),
        violation(Rule::Impossible, Severity::Warning),
        violation(Rule::Clearance, Severity::Warning),
        violation(Rule::Contact, Severity::Warning),
    ];
    assert_eq!(strays(&report), 1);
    let b = breaches(report);
    assert_eq!(b.len(), 2);
    assert_eq!(b[0].rule, Rule::Clearance);
    assert_eq!(b[1].rule, Rule::Contact);
}

#[test]
fn parent_paths_drop_the_last_segment() {
    assert_eq!(parent_path("a.b.c"), "a.b");
    assert_eq!(parent_path("a"), "");
    assert_eq!(parent_path(""), "");
}

#[test]
fn an_impossible_wire_is_a_warning_at_its_statement() {
    let req = EdgeReq {
        a_path: "rack.a".to_string(),
        b_path: "b".to_string(),
        side_a: None,
        side_b: None,
        span: Span { start: 4, end: 11 },
        stmt: 0,
        seg: 0,
        expansion: 0,
    };
    let v = impossible(&req, "no conflict-free route at this layout");
    assert_eq!(v.rule, Rule::Impossible);
    assert_eq!(v.severity, Severity::Warning);
    assert_eq!(v.wires, vec!["rack.a -> b".to_string()]);
    assert_eq!(v.detail, "no conflict-free route at this layout");
    assert_eq!((v.span.start, v.span.end), (4, 11));
}

#[test]
fn self_loops_default_right_then_top_and_reject_one_shared_side() {
    assert_eq!(self_loop_sides(None, None), Some((Side::Right, Side::Top)));
    assert_eq!(self_loop_sides(Some(Side::Top), None), Some((Side::Top, Side::Right)));
    assert_eq!(self_loop_sides(Some(Side::Left), None), Some((Side::Left, Side::Top)));
    assert_eq!(self_loop_sides(None, Some(Side::Right)), Some((Side::Top, Side::Right)));
    assert_eq!(self_loop_sides(None, Some(Side::Bottom)), Some((Side::Right, Side::Bottom)));
    assert_eq!(self_loop_sides(Some(Side::Left), Some(Side::Bottom)), Some((Side::Left, Side::Bottom)));
    assert_eq!(self_loop_sides(Some(Side::Top), Some(Side::Top)), None);
}
