//! The resolved value model every later stage reads: typed property values,
//! attribute maps, and the variable table.

use crate::text::{pow10, str_eq};
use vstd::prelude::*;

verus! {

/// An exact decimal number: `mant × 10^-exp`, with at most 18 places —
/// what a numeric literal in the source spells.
#[derive(Clone, Copy, Debug, PartialEq, Eq, Structural)]
pub struct Num {
    mant: i64,
    exp: u32,
}

impl Num {
    #[verifier::type_invariant]
    spec fn well_formed(self) -> bool {
        self.exp <= 18
    }

    /// The digits, read as an integer.
    pub closed spec fn spec_mant(self) -> int {
        self.mant as int
    }

    /// The number of decimal places.
    pub closed spec fn spec_exp(self) -> nat {
        self.exp as nat
    }

    /// The number `mant × 10^-exp`, as a value.
    pub closed spec fn spec_new(mant: i64, exp: u32) -> Num {
        Num { mant, exp }
    }

    /// `mant × 10^-exp`.
    pub fn new(mant: i64, exp: u32) -> (n: Num)
        requires
            exp <= 18,
        ensures
            n.spec_mant() == mant,
            n.spec_exp() == exp,
            n == Num::spec_new(mant, exp),
    {
        Num { mant, exp }
    }

    /// The whole number `n`, as a value.
    pub closed spec fn spec_whole(n: i64) -> Num {
        Num { mant: n, exp: 0 }
    }

    /// A whole number.
    pub fn whole(n: i64) -> (r: Num)
        ensures
            r.spec_mant() == n,
            r.spec_exp() == 0,
            r == Num::spec_whole(n),
    {
        Num { mant: n, exp: 0 }
    }

    pub fn mant(&self) -> (m: i64)
        ensures
            m == self.spec_mant(),
    {
        self.mant
    }

    pub fn exp(&self) -> (e: u32)
        ensures
            e == self.spec_exp(),
            e <= 18,
    {
        proof {
            use_type_invariant(self);
        }
        self.exp
    }

    /// The whole number this is, when it has no fractional part.
    pub open spec fn whole_value(self) -> Option<int> {
        if self.spec_mant() % pow10(self.spec_exp()) == 0 {
            Some(self.spec_mant() / pow10(self.spec_exp()))
        } else {
            None
        }
    }

    /// The whole number this is, when it has no fractional part.
    pub fn as_whole(&self) -> (r: Option<i64>)
        ensures
            match r {
                Some(v) => self.whole_value() == Some(v as int),
                None => self.whole_value() is None,
            },
    {
        proof {
            use_type_invariant(self);
        }
        let p = pow10_i64(self.exp) as u64;
        let neg = self.mant < 0;
        let m: u64 = if neg {
            ((-(self.mant + 1)) as u64) + 1
        } else {
            self.mant as u64
        };
        let q = m / p;
        let rem = m % p;
        proof {
            vstd::arithmetic::div_mod::lemma_fundamental_div_mod(m as int, p as int);
            vstd::arithmetic::div_mod::lemma_fundamental_div_mod(self.mant as int, p as int);
            lemma_pow10_bound(self.exp as nat);
        }
        if rem == 0 {
            proof {
                assert(m == p * q) by (nonlinear_arith)
                    requires m == p * (m / p) + m % p, m % p == 0, q == m / p;
                if neg {
                    assert(self.mant == (-(q as int)) * p) by (nonlinear_arith)
                        requires self.mant == -(m as int), m == p * q;
                    vstd::arithmetic::div_mod::lemma_fundamental_div_mod_converse(
                        self.mant as int,
                        p as int,
                        -(q as int),
                        0,
                    );
                } else {
                    vstd::arithmetic::div_mod::lemma_fundamental_div_mod_converse(
                        self.mant as int,
                        p as int,
                        q as int,
                        0,
                    );
                }
            }
            if neg {
                Some(-((q - 1) as i64) - 1)
            } else {
                Some(q as i64)
            }
        } else {
            proof {
                if (self.mant as int) % (p as int) == 0 {
                    let k = (self.mant as int) / (p as int);
                    if neg {
                        assert(m == (-k) * p) by (nonlinear_arith)
                            requires self.mant == p * k, m == -(self.mant as int);
                        vstd::arithmetic::div_mod::lemma_fundamental_div_mod_converse(
                            m as int,
                            p as int,
                            -k,
                            0,
                        );
                    } else {
                        vstd::arithmetic::div_mod::lemma_fundamental_div_mod_converse(
                            m as int,
                            p as int,
                            k,
                            0,
                        );
                    }
                }
            }
            None
        }
    }

    /// Whether two numbers are the same written value (same digits, same
    /// places).
    pub fn same(&self, other: &Num) -> (r: bool)
        ensures
            r == (self.spec_mant() == other.spec_mant() && self.spec_exp() == other.spec_exp()),
    {
        self.mant == other.mant && self.exp == other.exp
    }
}

/// Ten to the power `e`, for `e` up to 18.
pub fn pow10_i64(e: u32) -> (p: i64)
    requires
        e <= 18,
    ensures
        p == pow10(e as nat),
        p >= 1,
{
    let mut p: i64 = 1;
    let mut k: u32 = 0;
    while k < e
        invariant
            k <= e <= 18,
            p == pow10(k as nat),
            1 <= p,
        decreases e - k,
    {
        proof {
            lemma_pow10_bound((k + 1) as nat);
        }
        p = p * 10;
        k = k + 1;
    }
    p
}

/// Powers of ten up to the 18th fit an `i64`.
pub proof fn lemma_pow10_bound(k: nat)
    requires
        k <= 18,
    ensures
        1 <= pow10(k) <= 1_000_000_000_000_000_000,
        k >= 1 ==> pow10(k) == 10 * pow10((k - 1) as nat),
    decreases 18 - k,
{
    if k < 18 {
        lemma_pow10_bound(k + 1);
    } else {
        reveal_with_fuel(pow10, 19);
    }
}

/// A call that survived resolve as a typed value (a builder: a colour, a
/// gradient, a track repeat, a hatch).
#[derive(Debug)]
pub struct ResolvedCall {
    pub name: String,
    pub args: Vec<ResolvedValue>,
}

/// A resolved property value.
#[derive(Debug)]
pub enum ResolvedValue {
    Number(Num),
    Percent(Num),
    /// Quoted text.
    String(String),
    /// A hex colour, digits only (no `#`).
    Hex(String),
    Ident(String),
    /// CSS emitted verbatim.
    RawCss(String),
    /// A space-separated group.
    Tuple(Vec<ResolvedValue>),
    /// A comma-separated list of groups.
    List(Vec<ResolvedValue>),
    Call(ResolvedCall),
    /// A `--var` reference: a Lini variable, or a raw CSS one.
    LiveVar { name: String, raw: bool },
}

/// A resolved value as the contracts read it: text by its characters.
pub enum Val {
    Number(Num),
    Percent(Num),
    String(Seq<char>),
    Hex(Seq<char>),
    Ident(Seq<char>),
    RawCss(Seq<char>),
    Tuple(Seq<Val>),
    List(Seq<Val>),
    Call(Seq<char>, Seq<Val>),
    LiveVar(Seq<char>, bool),
}

impl ResolvedValue {
    /// The value as the contracts read it.
    pub open spec fn deep(self) -> Val
        decreases self,
    {
        match self {
            ResolvedValue::Number(n) => Val::Number(n),
            ResolvedValue::Percent(n) => Val::Percent(n),
            ResolvedValue::String(s) => Val::String(s@),
            ResolvedValue::Hex(s) => Val::Hex(s@),
            ResolvedValue::Ident(s) => Val::Ident(s@),
            ResolvedValue::RawCss(s) => Val::RawCss(s@),
            ResolvedValue::Tuple(items) => Val::Tuple(deep_seq(items@)),
            ResolvedValue::List(items) => Val::List(deep_seq(items@)),
            ResolvedValue::Call(c) => Val::Call(c.name@, deep_seq(c.args@)),
            ResolvedValue::LiveVar { name, raw } => Val::LiveVar(name@, raw),
        }
    }

    /// An independent copy with the same contents.
    pub fn deep_clone(&self) -> (r: ResolvedValue)
        ensures
            r.deep() == self.deep(),
        decreases self,
    {
        match self {
            ResolvedValue::Number(n) => ResolvedValue::Number(*n),
            ResolvedValue::Percent(n) => ResolvedValue::Percent(*n),
            ResolvedValue::String(s) => ResolvedValue::String(s.clone()),
            ResolvedValue::Hex(s) => ResolvedValue::Hex(s.clone()),
            ResolvedValue::Ident(s) => ResolvedValue::Ident(s.clone()),
            ResolvedValue::RawCss(s) => ResolvedValue::RawCss(s.clone()),
            ResolvedValue::Tuple(items) => ResolvedValue::Tuple(clone_values(items)),
            ResolvedValue::List(items) => ResolvedValue::List(clone_values(items)),
            ResolvedValue::Call(c) => ResolvedValue::Call(
                ResolvedCall { name: c.name.clone(), args: clone_values(&c.args) },
            ),
            ResolvedValue::LiveVar { name, raw } => ResolvedValue::LiveVar {
                name: name.clone(),
                raw: *raw,
            },
        }
    }

    /// The number this value is, if it is one.
    pub fn as_number(&self) -> (r: Option<Num>)
        ensures
            r == (match self {
                ResolvedValue::Number(n) => Some(*n),
                _ => None::<Num>,
            }),
    {
        match self {
            ResolvedValue::Number(n) => Some(*n),
            _ => None,
        }
    }
}

/// Each value of a sequence as the contracts read it.
pub open spec fn deep_seq(items: Seq<ResolvedValue>) -> Seq<Val>
    decreases items,
{
    if items.len() == 0 {
        Seq::empty()
    } else {
        deep_seq(items.drop_last()).push(items.last().deep())
    }
}

/// Reading a sequence element by element agrees with reading it whole.
pub proof fn lemma_deep_seq(items: Seq<ResolvedValue>)
    ensures
        deep_seq(items).len() == items.len(),
        forall|i: int| 0 <= i < items.len() ==> #[trigger] deep_seq(items)[i] == items[i].deep(),
    decreases items.len(),
{
    if items.len() > 0 {
        lemma_deep_seq(items.drop_last());
    }
}

/// Independent copies of `items`, in order.
pub fn clone_values(items: &Vec<ResolvedValue>) -> (r: Vec<ResolvedValue>)
    ensures
        deep_seq(r@) == deep_seq(items@),
        r@.len() == items@.len(),
    decreases items,
{
    let n = items.len();
    let mut out: Vec<ResolvedValue> = Vec::new();
    let mut i: usize = 0;
    while i < n
        invariant
            n == items@.len(),
            i <= n,
            out@.len() == i,
            deep_seq(out@) == deep_seq(items@.take(i as int)),
        decreases n - i,
    {
        assert(decreases_to!(items => items@[i as int]));
        let c = items[i].deep_clone();
        proof {
            assert(out@.push(c).drop_last() =~= out@);
            assert(items@.take(i + 1).drop_last() =~= items@.take(i as int));
        }
        out.push(c);
        i = i + 1;
    }
    proof {
        assert(items@.take(n as int) =~= items@);
    }
    out
}

impl Clone for ResolvedValue {
    fn clone(&self) -> Self {
        self.deep_clone()
    }
}

/// The first value stored under `key`.
pub open spec fn entry_lookup(entries: Seq<(String, ResolvedValue)>, key: Seq<char>) -> Option<
    ResolvedValue,
>
    decreases entries.len(),
{
    if entries.len() == 0 {
        None
    } else if entries[0].0@ == key {
        Some(entries[0].1)
    } else {
        entry_lookup(entries.drop_first(), key)
    }
}

/// Which index of `entries` holds `key` first, if any.
fn find_entry(entries: &Vec<(String, ResolvedValue)>, key: &str) -> (r: Option<usize>)
    ensures
        match r {
            Some(i) => i < entries@.len() && entries@[i as int].0@ == key@ && entry_lookup(
                entries@,
                key@,
            ) == Some(entries@[i as int].1) && forall|j: int|
                0 <= j < i ==> (#[trigger] entries@[j]).0@ != key@,
            None => entry_lookup(entries@, key@) is None && forall|j: int|
                0 <= j < entries@.len() ==> (#[trigger] entries@[j]).0@ != key@,
        },
{
    let n = entries.len();
    let mut i: usize = 0;
    proof {
        assert(entries@.skip(0) =~= entries@);
    }
    while i < n
        invariant
            n == entries@.len(),
            i <= n,
            forall|j: int| 0 <= j < i ==> (#[trigger] entries@[j]).0@ != key@,
            entry_lookup(entries@, key@) == entry_lookup(entries@.skip(i as int), key@),
        decreases n - i,
    {
        proof {
            assert(entries@.skip(i as int).drop_first() =~= entries@.skip(i + 1));
        }
        if str_eq(entries[i].0.as_str(), key) {
            return Some(i);
        }
        i = i + 1;
    }
    None
}

/// An attribute map: property name → resolved value.
#[derive(Debug)]
pub struct AttrMap {
    pub entries: Vec<(String, ResolvedValue)>,
}

impl AttrMap {
    pub fn new() -> (m: AttrMap)
        ensures
            m.entries@.len() == 0,
    {
        AttrMap { entries: Vec::new() }
    }

    /// The value stored under `name`, if any.
    pub fn get(&self, name: &str) -> (r: Option<&ResolvedValue>)
        ensures
            match r {
                Some(v) => entry_lookup(self.entries@, name@) == Some(*v),
                None => entry_lookup(self.entries@, name@) is None,
            },
    {
        match find_entry(&self.entries, name) {
            Some(i) => Some(&self.entries[i].1),
            None => None,
        }
    }

    /// The number stored under `name`, if the value there is one.
    pub fn number(&self, name: &str) -> (r: Option<Num>)
        ensures
            r == (match entry_lookup(self.entries@, name@) {
                Some(ResolvedValue::Number(n)) => Some(n),
                _ => None::<Num>,
            }),
    {
        match self.get(name) {
            Some(v) => v.as_number(),
            None => None,
        }
    }

    /// Store `value` under `name`, replacing any value already there.
    pub fn insert(&mut self, name: &str, value: ResolvedValue)
        ensures
            entry_lookup(final(self).entries@, name@) == Some(value),
            forall|k: Seq<char>|
                k != name@ ==> entry_lookup(final(self).entries@, k) == entry_lookup(
                    old(self).entries@,
                    k,
                ),
    {
        let key = name.to_owned();
        match find_entry(&self.entries, name) {
            Some(i) => {
                self.entries.set(i, (key, value));
                proof {
                    lemma_lookup_after_set(old(self).entries@, i as int, (key, value));
                }
            },
            None => {
                self.entries.push((key, value));
                proof {
                    lemma_lookup_after_push(old(self).entries@, (key, value));
                }
            },
        }
    }
}

proof fn lemma_lookup_after_set(
    entries: Seq<(String, ResolvedValue)>,
    i: int,
    e: (String, ResolvedValue),
)
    requires
        0 <= i < entries.len(),
        entries[i].0@ == e.0@,
        forall|j: int| 0 <= j < i ==> (#[trigger] entries[j]).0@ != e.0@,
    ensures
        entry_lookup(entries.update(i, e), e.0@) == Some(e.1),
        forall|k: Seq<char>|
            k != e.0@ ==> entry_lookup(entries.update(i, e), k) == entry_lookup(entries, k),
    decreases entries.len(),
{
    if i > 0 {
        lemma_lookup_after_set(entries.drop_first(), i - 1, e);
        assert(entries.update(i, e).drop_first() =~= entries.drop_first().update(i - 1, e));
        assert forall|k: Seq<char>| k != e.0@ implies entry_lookup(entries.update(i, e), k)
            == entry_lookup(entries, k) by {
            assert(entries.update(i, e)[0] == entries[0]);
            assert(entry_lookup(entries.drop_first().update(i - 1, e), k) == entry_lookup(entries.drop_first(), k));
        }
    } else {
        assert(entries.update(i, e).drop_first() =~= entries.drop_first());
        assert forall|k: Seq<char>| k != e.0@ implies entry_lookup(entries.update(i, e), k)
            == entry_lookup(entries, k) by {
            assert(entries.update(i, e)[0] == e);
        }
    }
}

proof fn lemma_lookup_after_push(entries: Seq<(String, ResolvedValue)>, e: (String, ResolvedValue))
    requires
        forall|j: int| 0 <= j < entries.len() ==> (#[trigger] entries[j]).0@ != e.0@,
    ensures
        entry_lookup(entries.push(e), e.0@) == Some(e.1),
        forall|k: Seq<char>|
            k != e.0@ ==> entry_lookup(entries.push(e), k) == entry_lookup(entries, k),
    decreases entries.len(),
{
    if entries.len() > 0 {
        lemma_lookup_after_push(entries.drop_first(), e);
        assert(entries.push(e).drop_first() =~= entries.drop_first().push(e));
        assert forall|k: Seq<char>| k != e.0@ implies entry_lookup(entries.push(e), k)
            == entry_lookup(entries, k) by {
            assert(entries.push(e)[0] == entries[0]);
            assert(entry_lookup(entries.drop_first().push(e), k) == entry_lookup(entries.drop_first(), k));
            if entries[0].0@ != k {
                assert(entry_lookup(entries.push(e), k) == entry_lookup(entries.push(e).drop_first(), k));
            }
        }
    } else {
        assert(entries.push(e).drop_first() =~= entries);
    }
}

/// The variable table: a Lini variable's name (no `--lini-` prefix) → its
/// value.
#[derive(Debug)]
pub struct VarTable {
    pub entries: Vec<(String, ResolvedValue)>,
}

impl VarTable {
    pub fn new() -> (t: VarTable)
        ensures
            t.entries@.len() == 0,
    {
        VarTable { entries: Vec::new() }
    }

    /// The value of variable `name`, if defined.
    pub fn get(&self, name: &str) -> (r: Option<&ResolvedValue>)
        ensures
            match r {
                Some(v) => entry_lookup(self.entries@, name@) == Some(*v),
                None => entry_lookup(self.entries@, name@) is None,
            },
    {
        match find_entry(&self.entries, name) {
            Some(i) => Some(&self.entries[i].1),
            None => None,
        }
    }
}

} // verus!
