//! Hooks the routing suite judges a report by: what counts as a law breach
//! and what as an honest stray.

use crate::layout::wires::{Rule, Severity, Violation};
use vstd::prelude::*;

verus! {

/// A violation that flags a broken law: neither counted output (`Info`
/// crossings) nor an honest stray (`Impossible`).
pub open spec fn is_breach(v: Violation) -> bool {
    v.severity != Severity::Info && v.rule != Rule::Impossible
}

/// A link the router reported rather than drew.
pub open spec fn is_stray(v: Violation) -> bool {
    v.rule == Rule::Impossible
}

/// Law breaches: everything a report flags above counted output and honest
/// strays, in report order. The one predicate every law assertion judges by.
pub fn breaches(report: Vec<Violation>) -> (out: Vec<Violation>)
    ensures
        out@ == report@.filter(|v: Violation| is_breach(v)),
{
    let ghost orig = report@;
    let mut out: Vec<Violation> = Vec::new();
    for v in iter: report
        invariant
            iter.seq() == orig,
            out@ == orig.take(iter.index()).filter(|v: Violation| is_breach(v)),
    {
        proof {
            let k = iter.index();
            assert(orig.take(k + 1) =~= orig.take(k).push(orig[k]));
            orig.take(k).lemma_filter_push(orig[k], |v: Violation| is_breach(v));
        }
        if v.severity != Severity::Info && v.rule != Rule::Impossible {
            out.push(v);
        }
    }
    proof {
        assert(orig.take(orig.len() as int) =~= orig);
    }
    out
}

/// The number of honest strays in a report.
pub open spec fn stray_count(report: Seq<Violation>) -> nat {
    report.filter(|v: Violation| is_stray(v)).len()
}

/// Honest strays: links the router reported rather than drew.
pub fn strays(report: &[Violation]) -> (n: usize)
    ensures
        n == stray_count(report@),
{
    let mut n: usize = 0;
    let mut i: usize = 0;
    while i < report.len()
        invariant
            i <= report@.len(),
            n == report@.take(i as int).filter(|v: Violation| is_stray(v)).len(),
            n <= i,
        decreases report@.len() - i,
    {
        proof {
            assert(report@.take(i + 1) =~= report@.take(i as int).push(report@[i as int]));
            report@.take(i as int).lemma_filter_push(report@[i as int], |v: Violation| is_stray(v));
        }
        if report[i].rule == Rule::Impossible {
            n = n + 1;
        }
        i = i + 1;
    }
    proof {
        assert(report@.take(report@.len() as int) =~= report@);
    }
    n
}

} // verus!
