//! `fit` — how an icon's symbol (or an `|image|`) maps into its box. The box
//! is fixed by layout; `fit` only scales and centres the content inside it.

use crate::resolve::{entry_lookup, AttrMap, ResolvedValue};
use crate::text::str_eq;
use vstd::prelude::*;

verus! {

/// How content maps into its box. Default [`Fit::Auto`].
#[derive(Clone, Copy, PartialEq, Eq, Debug, Structural)]
pub enum Fit {
    Auto,
    Contain,
    Cover,
    Stretch,
}

/// The fit an attribute value spells: `contain`, `cover` or `stretch` as an
/// identifier; anything else (or nothing) is `auto`.
pub open spec fn fit_of(v: Option<ResolvedValue>) -> Fit {
    match v {
        Some(ResolvedValue::Ident(s)) => if s@ == "contain"@ {
            Fit::Contain
        } else if s@ == "cover"@ {
            Fit::Cover
        } else if s@ == "stretch"@ {
            Fit::Stretch
        } else {
            Fit::Auto
        },
        _ => Fit::Auto,
    }
}

impl Fit {
    /// The `fit:` a node's attributes ask for.
    pub fn of(attrs: &AttrMap) -> (f: Fit)
        ensures
            f == fit_of(entry_lookup(attrs.entries@, "fit"@)),
    {
        match attrs.get("fit") {
            Some(ResolvedValue::Ident(s)) => {
                if str_eq(s.as_str(), "contain") {
                    Fit::Contain
                } else if str_eq(s.as_str(), "cover") {
                    Fit::Cover
                } else if str_eq(s.as_str(), "stretch") {
                    Fit::Stretch
                } else {
                    Fit::Auto
                }
            },
            _ => Fit::Auto,
        }
    }
}

/// The first position at or after `i` where `pat` occurs in `s`.
pub open spec fn find_from(s: Seq<char>, pat: Seq<char>, i: int) -> Option<int>
    decreases s.len() + 1 - i,
{
    if i < 0 || i > s.len() || i + pat.len() > s.len() {
        None
    } else if s.subrange(i, i + pat.len()) == pat {
        Some(i)
    } else {
        find_from(s, pat, i + 1)
    }
}

/// The text that opens attribute `name` in a fragment: ` name="`. The
/// leading space anchors the name, so `r` never matches inside `rx`.
pub open spec fn attr_opening(name: Seq<char>) -> Seq<char> {
    seq![' '] + name + seq!['=', '"']
}

/// The value of a space-delimited `name="…"` attribute in `frag`: the text
/// from after the first opening up to the next `"`.
pub open spec fn attr_value(frag: Seq<char>, name: Seq<char>) -> Option<Seq<char>> {
    let pat = attr_opening(name);
    match find_from(frag, pat, 0) {
        None => None,
        Some(k) => match find_from(frag, seq!['"'], k + pat.len()) {
            None => None,
            Some(e) => Some(frag.subrange(k + pat.len(), e)),
        },
    }
}

/// Whether `pat` occurs in `s` at `i`.
fn occurs_at(s: &Vec<char>, pat: &Vec<char>, i: usize) -> (b: bool)
    requires
        i + pat@.len() <= s@.len(),
    ensures
        b == (s@.subrange(i as int, i + pat@.len()) == pat@),
{
    let m = pat.len();
    let _n = s.len();
    let mut k: usize = 0;
    while k < m
        invariant
            m == pat@.len(),
            _n == s@.len(),
            i + m <= s@.len(),
            k <= m,
            forall|j: int| 0 <= j < k ==> s@[i + j] == pat@[j],
        decreases m - k,
    {
        if s[i + k] != pat[k] {
            proof {
                assert(s@.subrange(i as int, i + m)[k as int] != pat@[k as int]);
            }
            return false;
        }
        k = k + 1;
    }
    proof {
        assert(s@.subrange(i as int, i + m) =~= pat@);
    }
    true
}

/// The first occurrence of `pat` in `s` at or after `i`.
fn find_in(s: &Vec<char>, pat: &Vec<char>, i: usize) -> (r: Option<usize>)
    requires
        i <= s@.len(),
    ensures
        match find_from(s@, pat@, i as int) {
            Some(k) => r is Some && r->Some_0 == k,
            None => r is None,
        },
        r is Some ==> i <= r->Some_0 && r->Some_0 + pat@.len() <= s@.len(),
{
    let n = s.len();
    let m = pat.len();
    let mut k = i;
    while k < n && n - k >= m
        invariant
            n == s@.len(),
            m == pat@.len(),
            i <= k <= n,
            find_from(s@, pat@, i as int) == find_from(s@, pat@, k as int),
        decreases n - k,
    {
        if occurs_at(s, pat, k) {
            return Some(k);
        }
        k = k + 1;
    }
    if m == 0 {
        assert(s@.subrange(k as int, k as int) =~= pat@);
    }
    if n - k >= m && occurs_at(s, pat, k) {
        Some(k)
    } else {
        None
    }
}

/// The value of a space-delimited `name="…"` attribute.
pub fn attr(frag: &str, name: &str) -> (r: Option<String>)
    ensures
        match attr_value(frag@, name@) {
            Some(v) => r is Some && r->Some_0@ == v,
            None => r is None,
        },
{
    let s = crate::text::chars_of(frag);
    let mut pat: Vec<char> = Vec::new();
    pat.push(' ');
    let nm = crate::text::chars_of(name);
    let mut j: usize = 0;
    while j < nm.len()
        invariant
            j <= nm@.len(),
            pat@ == seq![' '] + nm@.take(j as int),
        decreases nm@.len() - j,
    {
        pat.push(nm[j]);
        j = j + 1;
        proof {
            assert(pat@ =~= seq![' '] + nm@.take(j as int));
        }
    }
    pat.push('=');
    pat.push('"');
    proof {
        assert(nm@.take(nm@.len() as int) =~= nm@);
        assert(pat@ =~= attr_opening(name@));
    }
    let k = match find_in(&s, &pat, 0) {
        Some(k) => k,
        None => {
            return None;
        },
    };
    let _slen = s.len();
    let start = k + pat.len();
    let mut quote: Vec<char> = Vec::new();
    quote.push('"');
    proof {
        assert(quote@ =~= seq!['"']);
    }
    match find_in(&s, &quote, start) {
        Some(e) => Some(crate::render::rules::string_of(&s, start, e)),
        None => None,
    }
}

} // verus!
