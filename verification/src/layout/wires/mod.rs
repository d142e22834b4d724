//! Wire routing vocabulary: the four laws a drawn wire answers to, and the
//! violations the router and the independent checker report against them.

pub mod bundle;
pub mod feedback;
pub mod graph;

use crate::error::Span;
use vstd::prelude::*;

verus! {

/// The law a violation is judged under.
#[derive(Clone, Copy, Debug, PartialEq, Eq, Structural)]
pub enum Rule {
    /// Law 1 — a wire holds ≥ clearance from every node body.
    Clearance,
    /// Law 1 — a wire holds ≥ clearance from every other wire.
    Separation,
    /// Law 2 — every end lands perpendicular on a side, clear of corners.
    Contact,
    /// Law 3 — a kept, square-on crossing: counted output, not a defect.
    Crossing,
    /// A wire with no legal route at this layout: reported, never drawn.
    Impossible,
}

#[derive(Clone, Copy, Debug, PartialEq, Eq, Structural)]
pub enum Severity {
    /// Surfaced as a diagnostic; `--strict` escalates it to an error.
    Warning,
    /// Normal, counted output (crossings).
    Info,
}

#[derive(Clone, Debug)]
pub struct Violation {
    pub rule: Rule,
    /// `Info` for the router's own counted output (kept crossings); `Warning`
    /// for everything the diagnostic layer must surface — impossible wires
    /// and any law breach the independent checker finds.
    pub severity: Severity,
    pub wires: Vec<String>,
    pub detail: String,
    /// The declaration this violation points back to.
    pub span: Span,
}

/// The stable id each rule is reported under.
pub open spec fn rule_id(rule: Rule) -> &'static str {
    match rule {
        Rule::Clearance => "clearance",
        Rule::Separation => "separation",
        Rule::Contact => "contact",
        Rule::Crossing => "crossing",
        Rule::Impossible => "impossible",
    }
}

impl Rule {
    pub fn id(self) -> (s: &'static str)
        ensures
            s == rule_id(self),
    {
        match self {
            Rule::Clearance => "clearance",
            Rule::Separation => "separation",
            Rule::Contact => "contact",
            Rule::Crossing => "crossing",
            Rule::Impossible => "impossible",
        }
    }
}

/// Where the last `.` of a dot-path sits, if anywhere.
pub open spec fn last_dot(p: Seq<char>) -> Option<int> {
    if exists|i: int| 0 <= i < p.len() && p[i] == '.' {
        Some(choose|i: int| 0 <= i < p.len() && p[i] == '.' && forall|j: int| i < j < p.len() ==> p[j] != '.')
    } else {
        None
    }
}

/// The container a dot-path sits in: everything before its last `.`, or the
/// scene (`""`) for a top-level path.
pub open spec fn parent_of(p: Seq<char>) -> Seq<char> {
    match last_dot(p) {
        Some(i) => p.take(i),
        None => Seq::empty(),
    }
}

/// The parent container of `p`: the dot-path up to its last `.`.
pub fn parent_path(p: &str) -> (out: String)
    ensures
        out@ == parent_of(p@),
{
    let chars = crate::text::chars_of(p);
    let n = chars.len();
    let mut k: usize = n;
    while k > 0
        invariant
            k <= n,
            n == chars@.len(),
            chars@ == p@,
            forall|j: int| k <= j < n ==> chars@[j] != '.',
        ensures
            k <= n,
            forall|j: int| k <= j < n ==> chars@[j] != '.',
            k > 0 ==> chars@[k - 1] == '.',
        decreases k,
    {
        if chars[k - 1] == '.' {
            break;
        }
        k = k - 1;
    }
    let mut out = String::new();
    if k > 0 {
        let i = k - 1;
        let mut j: usize = 0;
        while j < i
            invariant
                j <= i,
                i < n,
                n == chars@.len(),
                out@ == chars@.take(j as int),
            decreases i - j,
        {
            out.push(chars[j]);
            proof {
                assert(chars@.take(j + 1) =~= chars@.take(j as int).push(chars@[j as int]));
            }
            j = j + 1;
        }
        proof {
            assert(chars@[i as int] == '.');
            let w = choose|w: int| 0 <= w < p@.len() && p@[w] == '.' && forall|m: int| w < m < p@.len() ==> p@[m] != '.';
            assert(w == i as int) by {
                if w < i { assert(p@[i as int] != '.'); }
                if w > i { assert(p@[w] != '.'); }
            }
        }
    } else {
        proof {
            assert(!exists|i: int| 0 <= i < p@.len() && p@[i] == '.');
            assert(out@ =~= Seq::<char>::empty());
        }
    }
    out
}

/// A wire with no legal route, as reported: an `impossible` warning naming
/// the wire `a -> b`, pointing back at its statement. It is never drawn
/// dirty; `--strict` escalates the warning.
pub fn impossible(req: &bundle::EdgeReq, detail: &str) -> (v: Violation)
    ensures
        v.rule == Rule::Impossible,
        v.severity == Severity::Warning,
        v.wires@.len() == 1,
        v.wires@[0]@ == req.a_path@ + seq![' ', '-', '>', ' '] + req.b_path@,
        v.detail@ == detail@,
        v.span == req.span,
{
    let mut name = String::new();
    crate::text::push_str(&mut name, req.a_path.as_str());
    name.push(' ');
    name.push('-');
    name.push('>');
    name.push(' ');
    crate::text::push_str(&mut name, req.b_path.as_str());
    proof {
        assert(name@ =~= req.a_path@ + seq![' ', '-', '>', ' '] + req.b_path@);
    }
    let mut wires: Vec<String> = Vec::new();
    wires.push(name);
    let mut d = String::new();
    crate::text::push_str(&mut d, detail);
    proof {
        assert(d@ =~= detail@);
    }
    Violation { rule: Rule::Impossible, severity: Severity::Warning, wires, detail: d, span: req.span }
}

/// The sides a self-loop leaves and enters by: right then top by default; a
/// forced side wins and its free partner takes the default that stays
/// adjacent; both ends on one side is no loop at all.
pub open spec fn loop_sides(a: Option<bundle::Side>, b: Option<bundle::Side>) -> Option<(bundle::Side, bundle::Side)> {
    let (sa, sb) = match (a, b) {
        (None, None) => (bundle::Side::Right, bundle::Side::Top),
        (Some(s), None) => (s, if s == bundle::Side::Top { bundle::Side::Right } else { bundle::Side::Top }),
        (None, Some(s)) => (if s == bundle::Side::Right { bundle::Side::Top } else { bundle::Side::Right }, s),
        (Some(x), Some(y)) => (x, y),
    };
    if sa != sb {
        Some((sa, sb))
    } else {
        None
    }
}

/// Self-loop side resolution: defaults right → top; a forced side wins and
/// its free partner takes the default that stays adjacent; one shared side
/// is invalid.
pub fn self_loop_sides(a: Option<bundle::Side>, b: Option<bundle::Side>) -> (r: Option<(bundle::Side, bundle::Side)>)
    ensures
        r == loop_sides(a, b),
{
    let (sa, sb) = match (a, b) {
        (None, None) => (bundle::Side::Right, bundle::Side::Top),
        (Some(s), None) => (s, if s == bundle::Side::Top { bundle::Side::Right } else { bundle::Side::Top }),
        (None, Some(s)) => (if s == bundle::Side::Right { bundle::Side::Top } else { bundle::Side::Right }, s),
        (Some(x), Some(y)) => (x, y),
    };
    if sa != sb {
        Some((sa, sb))
    } else {
        None
    }
}

/// Two sides meet at a corner: they differ and are not opposite.
pub open spec fn adjacent(x: bundle::Side, y: bundle::Side) -> bool {
    x != y && !((x == bundle::Side::Top && y == bundle::Side::Bottom) || (x == bundle::Side::Bottom && y
        == bundle::Side::Top) || (x == bundle::Side::Left && y == bundle::Side::Right) || (x == bundle::Side::Right
        && y == bundle::Side::Left))
}

/// A self-loop with at most one forced side always resolves, to two sides
/// meeting at a corner — except when the forced side is a start on the
/// bottom or an end on the left, whose default partner lies opposite.
pub proof fn law_self_loop_sides_meet(a: Option<bundle::Side>, b: Option<bundle::Side>)
    requires
        a is None || b is None,
        a != Some(bundle::Side::Bottom),
        b != Some(bundle::Side::Left),
    ensures
        loop_sides(a, b) is Some,
        adjacent(loop_sides(a, b)->Some_0.0, loop_sides(a, b)->Some_0.1),
{
}

} // verus!
