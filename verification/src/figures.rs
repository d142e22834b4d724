//! Exact decimal figures: rounding a written number to a number of places
//! and spelling it as fixed-point text — the one number formatter every
//! emitter shares, so the same value never reads two ways.

use crate::resolve::{Num, pow10_i64, lemma_pow10_bound};
use crate::text::{chars_of, digit, digit_char, digits_of, pow10};
use vstd::prelude::*;

verus! {

/// `a / 10^k` rounded to the nearest whole number, ties to even.
pub open spec fn half_even_div(a: nat, k: nat) -> nat {
    let p = pow10(k);
    let q = (a as int) / p;
    let r = (a as int) % p;
    if 2 * r > p || (2 * r == p && q % 2 == 1) {
        (q + 1) as nat
    } else {
        q as nat
    }
}

/// `|n|` counted in units of `10^-d`, rounded half-to-even.
pub open spec fn units(n: Num, d: nat) -> nat {
    let a = if n.spec_mant() < 0 { -n.spec_mant() } else { n.spec_mant() };
    if d >= n.spec_exp() {
        (a * pow10((d - n.spec_exp()) as nat)) as nat
    } else {
        half_even_div(a as nat, (n.spec_exp() - d) as nat)
    }
}

/// `v` as exactly `width` digits, zero-padded on the left.
pub open spec fn padded(v: nat, width: nat) -> Seq<char>
    decreases width,
{
    if width == 0 {
        Seq::empty()
    } else {
        padded(v / 10, (width - 1) as nat).push(digit_char((v % 10) as int))
    }
}

/// The `width` fraction digits of `v`, trailing zeros dropped.
pub open spec fn trimmed(v: nat, width: nat) -> Seq<char>
    decreases width,
{
    if width > 0 && v % 10 == 0 {
        trimmed(v / 10, (width - 1) as nat)
    } else {
        padded(v, width)
    }
}

/// Fixed-point text: an optional `-`, the whole digits of `u / 10^d`, then
/// `.` and exactly `d` fraction digits when `d > 0`.
pub open spec fn fixed_text(neg: bool, u: nat, d: nat) -> Seq<char> {
    (if neg { seq!['-'] } else { Seq::empty() }) + digits_of(((u as int) / pow10(d)) as nat) + (if d > 0 {
        seq!['.'] + padded(((u as int) % pow10(d)) as nat, d)
    } else {
        Seq::empty()
    })
}

/// A number with minimal precision: whole numbers stay whole; anything else
/// rounds to 4 places and drops trailing zeros (a negative that rounds to
/// nothing keeps its sign: `-0`).
pub open spec fn num_text(n: Num) -> Seq<char> {
    match n.whole_value() {
        Some(w) => crate::text::decimal(w),
        None => {
            let u = units(n, 4);
            let f = u % 10000;
            (if n.spec_mant() < 0 { seq!['-'] } else { Seq::empty() }) + digits_of(u / 10000) + (if f
                == 0 {
                Seq::empty()
            } else {
                seq!['.'] + trimmed(f as nat, 4)
            })
        },
    }
}

/// `|mant|` of a number, as an unsigned magnitude.
fn magnitude(n: &Num) -> (a: u64)
    ensures
        a == (if n.spec_mant() < 0 { -n.spec_mant() } else { n.spec_mant() }),
        a <= 9_223_372_036_854_775_808u64,
{
    let m = n.mant();
    if m < 0 {
        ((-(m + 1)) as u64) + 1
    } else {
        m as u64
    }
}

/// `|n|` in units of `10^-d`, rounded half-to-even.
pub fn units_of(n: &Num, d: u32) -> (u: u128)
    requires
        d <= 18,
    ensures
        u == units(*n, d as nat),
{
    let a = magnitude(n) as u128;
    let e = n.exp();
    if d >= e {
        let p = pow10_i64(d - e) as u128;
        proof {
            lemma_pow10_bound((d - e) as nat);
            assert(a * p <= 9_223_372_036_854_775_808u128 * 1_000_000_000_000_000_000u128) by (nonlinear_arith)
                requires a <= 9_223_372_036_854_775_808u128, p <= 1_000_000_000_000_000_000u128;
        }
        a * p
    } else {
        let p = pow10_i64(e - d) as u128;
        let q = a / p;
        let r = a % p;
        if 2 * r > p || (2 * r == p && q % 2 == 1) {
            q + 1
        } else {
            q
        }
    }
}

/// Append `v` as exactly `width` zero-padded digits.
pub fn push_padded(s: &mut String, v: u128, width: u32)
    ensures
        final(s)@ == old(s)@ + padded(v as nat, width as nat),
    decreases width,
{
    if width > 0 {
        push_padded(s, v / 10, width - 1);
        s.push(digit((v % 10) as u64));
        proof {
            assert(final(s)@ =~= old(s)@ + padded(v as nat, width as nat));
        }
    } else {
        proof {
            assert(final(s)@ =~= old(s)@ + padded(v as nat, width as nat));
        }
    }
}

/// Append the `width` fraction digits of `v` without trailing zeros.
pub fn push_trimmed(s: &mut String, v: u128, width: u32)
    ensures
        final(s)@ == old(s)@ + trimmed(v as nat, width as nat),
    decreases width,
{
    if width > 0 && v % 10 == 0 {
        push_trimmed(s, v / 10, width - 1);
    } else {
        push_padded(s, v, width);
    }
}

/// Append the decimal digits of a magnitude.
pub fn push_big_digits(s: &mut String, n: u128)
    ensures
        final(s)@ == old(s)@ + digits_of(n as nat),
    decreases n,
{
    if n >= 10 {
        push_big_digits(s, n / 10);
    }
    s.push(digit((n % 10) as u64));
    proof {
        assert(final(s)@ =~= old(s)@ + digits_of(n as nat));
    }
}

/// Append fixed-point text: sign, whole digits, and `d` fraction digits.
pub fn push_fixed(s: &mut String, neg: bool, u: u128, d: u32)
    requires
        d <= 18,
    ensures
        final(s)@ == old(s)@ + fixed_text(neg, u as nat, d as nat),
{
    if neg {
        s.push('-');
    }
    let ghost s0 = s@;
    let p = pow10_i64(d) as u128;
    push_big_digits(s, u / p);
    let ghost s1 = s@;
    if d > 0 {
        s.push('.');
        push_padded(s, u % p, d);
        proof {
            assert(s@ =~= s1 + (seq!['.'] + padded(((u as int) % pow10(d as nat)) as nat, d as nat)));
        }
    } else {
        proof {
            assert(s@ =~= s1 + Seq::<char>::empty());
        }
    }
    proof {
        let sign: Seq<char> = if neg { seq!['-'] } else { Seq::empty() };
        assert(s0 =~= old(s)@ + sign);
        assert(s1 =~= s0 + digits_of(((u as int) / pow10(d as nat)) as nat));
        assert(final(s)@ =~= old(s)@ + fixed_text(neg, u as nat, d as nat));
    }
}

/// Format a number with minimal precision (whole numbers stay whole;
/// others round to 4 places and trim trailing zeros) — compact,
/// snapshot-stable text.
pub fn num(n: &Num) -> (t: String)
    ensures
        t@ == num_text(*n),
{
    let mut s = String::new();
    match n.as_whole() {
        Some(w) => {
            crate::text::push_int(&mut s, w);
        },
        None => {
            let u = units_of(n, 4);
            if n.mant() < 0 {
                s.push('-');
            }
            let ghost s0 = s@;
            push_big_digits(&mut s, u / 10000);
            let ghost s1 = s@;
            let f = u % 10000;
            if f != 0 {
                s.push('.');
                push_trimmed(&mut s, f, 4);
                proof {
                    assert(s@ =~= s1 + (seq!['.'] + trimmed(f as nat, 4)));
                }
            }
            proof {
                let sign: Seq<char> = if n.spec_mant() < 0 { seq!['-'] } else { Seq::empty() };
                assert(s0 =~= sign);
                assert(s1 =~= sign + digits_of((u / 10000) as nat));
            }
        },
    }
    proof {
        assert(s@ =~= num_text(*n));
    }
    s
}

/// The minimal reading of `m × 10^-e` for any digits `m` and places `e`:
/// whole numbers stay whole; anything else rounds to 4 places and drops
/// trailing zeros (a negative that rounds to nothing keeps its sign).
pub open spec fn reading(m: int, e: nat) -> Seq<char> {
    let p = pow10(e);
    if m % p == 0 {
        crate::text::decimal(m / p)
    } else {
        let a = (if m < 0 { -m } else { m }) as nat;
        let u: nat = if 4 >= e {
            (a * pow10((4 - e) as nat)) as nat
        } else {
            half_even_div(a, (e - 4) as nat)
        };
        let f = u % 10000;
        (if m < 0 { seq!['-'] } else { Seq::empty() }) + digits_of(u / 10000) + (if f == 0 {
            Seq::empty()
        } else {
            seq!['.'] + trimmed(f as nat, 4)
        })
    }
}

/// A number reads as its digits and places do.
pub proof fn lemma_num_text_reading(n: Num)
    ensures
        num_text(n) == reading(n.spec_mant(), n.spec_exp()),
{
}

/// A multiple of `p` negated is still one.
proof fn lemma_mod_neg(m: int, p: int)
    requires
        p >= 1,
    ensures
        (m % p == 0) == ((-m) % p == 0),
{
    vstd::arithmetic::div_mod::lemma_fundamental_div_mod(m, p);
    vstd::arithmetic::div_mod::lemma_fundamental_div_mod(-m, p);
    if m % p == 0 {
        assert(-m == (-(m / p)) * p) by (nonlinear_arith) requires m == p * (m / p) + m % p, m % p == 0;
        vstd::arithmetic::div_mod::lemma_fundamental_div_mod_converse(-m, p, -(m / p), 0);
    }
    if (-m) % p == 0 {
        assert(m == (-((-m) / p)) * p) by (nonlinear_arith) requires -m == p * ((-m) / p) + (-m) % p, (-m) % p == 0;
        vstd::arithmetic::div_mod::lemma_fundamental_div_mod_converse(m, p, -((-m) / p), 0);
    }
}

/// Append the minimal reading of `m × 10^-e`.
pub fn push_reading(s: &mut String, m: i128, e: u32)
    requires
        e <= 20,
        -0x1_0000_0000_0000_0000_0000_0000_0000 < m < 0x1_0000_0000_0000_0000_0000_0000_0000,
    ensures
        final(s)@ == old(s)@ + reading(m as int, e as nat),
{
    let p = crate::ledger::format::numbers::pow10_u128(e);
    let neg = m < 0;
    let a: u128 = if neg { (-m) as u128 } else { m as u128 };
    proof {
        lemma_mod_neg(m as int, p as int);
    }
    if a % p == 0 {
        proof {
            vstd::arithmetic::div_mod::lemma_fundamental_div_mod(a as int, p as int);
            if neg {
                assert(m as int == (-((a / p) as int)) * p) by (nonlinear_arith)
                    requires a == p * (a / p) + a % p, a % p == 0, m == -(a as int);
                vstd::arithmetic::div_mod::lemma_fundamental_div_mod_converse(m as int, p as int, -((a / p) as int), 0);
            } else {
                vstd::arithmetic::div_mod::lemma_fundamental_div_mod_converse(m as int, p as int, (a / p) as int, 0);
            }
        }
        if neg {
            s.push('-');
        }
        push_big_digits(s, a / p);
        proof {
            assert(final(s)@ =~= old(s)@ + reading(m as int, e as nat));
        }
    } else {
        let u: u128 = if e <= 4 {
            let k = crate::ledger::format::numbers::pow10_u128(4 - e);
            proof {
                crate::ledger::format::numbers::lemma_pow10_mono((4 - e) as nat, 4);
                reveal_with_fuel(pow10, 5);
                assert(a * k <= 0x1_0000_0000_0000_0000_0000_0000_0000u128 * 10000) by (nonlinear_arith)
                    requires a <= 0x1_0000_0000_0000_0000_0000_0000_0000u128, k <= 10000;
            }
            a * k
        } else {
            crate::ledger::format::numbers::round_half_even(a, e - 4)
        };
        if neg {
            s.push('-');
        }
        let ghost s0 = s@;
        push_big_digits(s, u / 10000);
        let ghost s1 = s@;
        let f = u % 10000;
        if f != 0 {
            s.push('.');
            push_trimmed(s, f, 4);
            proof {
                assert(s@ =~= s1 + (seq!['.'] + trimmed(f as nat, 4)));
            }
        }
        proof {
            assert(final(s)@ =~= old(s)@ + reading(m as int, e as nat));
        }
    }
}

/// Whether `t` begins with a minus sign.
pub open spec fn minus_sign(t: Seq<char>) -> bool {
    t.len() > 0 && t[0] == '-'
}

/// `t` without its minus sign.
pub open spec fn unsigned_text(t: Seq<char>) -> Seq<char> {
    if minus_sign(t) {
        t.skip(1)
    } else {
        t
    }
}

/// The index of the first `.` in `u`, or its length when it has none.
pub open spec fn first_dot(u: Seq<char>) -> int
    decreases u.len(),
{
    if u.len() == 0 {
        0
    } else if u[0] == '.' {
        0
    } else {
        1 + first_dot(u.skip(1))
    }
}

/// The digits before the first `.`.
pub open spec fn whole_digits(u: Seq<char>) -> Seq<char> {
    u.take(first_dot(u))
}

/// The digits after the first `.`, none without one.
pub open spec fn fraction_digits(u: Seq<char>) -> Seq<char> {
    if first_dot(u) < u.len() {
        u.skip(first_dot(u) + 1)
    } else {
        Seq::empty()
    }
}

/// `s` with its trailing zeros dropped.
pub open spec fn trim_zeros(s: Seq<char>) -> Seq<char>
    decreases s.len(),
{
    if s.len() > 0 && s.last() == '0' {
        trim_zeros(s.drop_last())
    } else {
        s
    }
}

/// Whether every character of `s` is an ASCII digit.
pub open spec fn all_digits(s: Seq<char>) -> bool {
    forall|i: int| 0 <= i < s.len() ==> '0' <= #[trigger] s[i] <= '9'
}

/// The number the decimal digits `s` spell.
pub open spec fn digits_number(s: Seq<char>) -> int
    decreases s.len(),
{
    if s.len() == 0 {
        0
    } else {
        digits_number(s.drop_last()) * 10 + (s.last() as int - '0' as int)
    }
}

/// The significant digits of a decimal text: the whole part, then the
/// fraction without trailing zeros.
pub open spec fn mantissa_digits(t: Seq<char>) -> Seq<char> {
    whole_digits(unsigned_text(t)) + trim_zeros(fraction_digits(unsigned_text(t)))
}

/// Whether a decimal text reads as a mantissa that fits an `i64`.
pub open spec fn decimal_readable(t: Seq<char>) -> bool {
    all_digits(mantissa_digits(t)) && digits_number(mantissa_digits(t)) <= i64::MAX
}

/// A digit prefix spells no more than the whole.
proof fn lemma_digits_prefix(s: Seq<char>, k: int)
    requires
        all_digits(s),
        0 <= k <= s.len(),
    ensures
        0 <= digits_number(s.take(k)) <= digits_number(s),
    decreases s.len(),
{
    if k == s.len() {
        assert(s.take(k) =~= s);
        if s.len() > 0 {
            lemma_digits_prefix(s.drop_last(), s.len() - 1);
            assert(s.drop_last().take(s.len() - 1) =~= s.drop_last());
            assert('0' <= s[s.len() - 1] <= '9');
        }
    } else {
        lemma_digits_prefix(s.drop_last(), k);
        assert(s.drop_last().take(k) =~= s.take(k));
        lemma_digits_prefix(s.drop_last(), s.len() - 1);
        assert(s.drop_last().take(s.len() - 1) =~= s.drop_last());
        assert('0' <= s[s.len() - 1] <= '9');
    }
}

/// The first `.` is where a scan for it stops.
proof fn lemma_first_dot_at(u: Seq<char>, p: int)
    requires
        0 <= p <= u.len(),
        forall|k: int| 0 <= k < p ==> u[k] != '.',
        p == u.len() || u[p] == '.',
    ensures
        first_dot(u) == p,
    decreases p,
{
    if p > 0 {
        lemma_first_dot_at(u.skip(1), p - 1);
    }
}

/// Append the digits `cs[lo..hi]` to a mantissa spelled by the digits `p`:
/// the mantissa of `p` and the segment together, or `None` when the segment
/// holds a non-digit or the mantissa outgrows an `i64`.
fn accumulate_digits(cs: &Vec<char>, lo: usize, hi: usize, mant: i64, Ghost(p): Ghost<Seq<char>>) -> (r: Option<i64>)
    requires
        lo <= hi <= cs@.len(),
        all_digits(p),
        mant == digits_number(p),
        mant >= 0,
    ensures
        match r {
            Some(m) => all_digits(p + cs@.subrange(lo as int, hi as int)) && m == digits_number(
                p + cs@.subrange(lo as int, hi as int),
            ) && m >= 0,
            None => !(all_digits(p + cs@.subrange(lo as int, hi as int)) && digits_number(
                p + cs@.subrange(lo as int, hi as int),
            ) <= i64::MAX),
        },
{
    let ghost q = p + cs@.subrange(lo as int, hi as int);
    let mut mant = mant;
    let mut k = lo;
    proof {
        assert(q.take(p.len() as int) =~= p);
    }
    while k < hi
        invariant
            lo <= k <= hi <= cs@.len(),
            q == p + cs@.subrange(lo as int, hi as int),
            all_digits(q.take(p.len() + k - lo)),
            mant == digits_number(q.take(p.len() + k - lo)),
            mant >= 0,
        decreases hi - k,
    {
        let c = cs[k];
        let ghost t = p.len() + k - lo;
        proof {
            assert(q[t] == c);
            assert(q.take(t + 1).drop_last() =~= q.take(t));
        }
        if !('0' <= c && c <= '9') {
            return None;
        }
        let d = (c as u32 - '0' as u32) as i64;
        if mant > (i64::MAX - d) / 10 {
            proof {
                if all_digits(q) {
                    lemma_digits_prefix(q, t + 1);
                }
            }
            return None;
        }
        mant = mant * 10 + d;
        k = k + 1;
    }
    proof {
        assert(q.take(q.len() as int) =~= q);
    }
    Some(mant)
}

/// Read a decimal text — an optional minus sign, digits, and optionally a
/// `.` and more digits — as its mantissa and number of places, trailing
/// fraction zeros dropped. `None` when a character is not a digit or the
/// mantissa does not fit an `i64`.
pub fn parse_decimal(text: &str) -> (r: Option<(i64, u32)>)
    requires
        text@.len() <= u32::MAX,
    ensures
        match r {
            Some((m, e)) => decimal_readable(text@) && m == (if minus_sign(text@) {
                -digits_number(mantissa_digits(text@))
            } else {
                digits_number(mantissa_digits(text@))
            }) && e == trim_zeros(fraction_digits(unsigned_text(text@))).len(),
            None => !decimal_readable(text@),
        },
{
    let cs = chars_of(text);
    let n = cs.len();
    let neg = n > 0 && cs[0] == '-';
    let start: usize = if neg { 1 } else { 0 };
    let ghost u = unsigned_text(text@);
    assert(u =~= cs@.skip(start as int));
    let mut dot = start;
    while dot < n && cs[dot] != '.'
        invariant
            start <= dot <= n,
            n == cs@.len(),
            forall|k: int| start <= k < dot ==> cs@[k] != '.',
        decreases n - dot,
    {
        dot = dot + 1;
    }
    proof {
        lemma_first_dot_at(u, dot - start);
    }
    let mut end = n;
    proof {
        if dot < n {
            assert(fraction_digits(u) =~= cs@.subrange(dot + 1, n as int));
        }
    }
    if dot < n {
        while end > dot + 1 && cs[end - 1] == '0'
            invariant
                dot + 1 <= end <= n,
                n == cs@.len(),
                trim_zeros(fraction_digits(u)) == trim_zeros(cs@.subrange(dot + 1, end as int)),
            decreases end,
        {
            proof {
                assert(cs@.subrange(dot + 1, end - 1) =~= cs@.subrange(dot + 1, end as int).drop_last());
            }
            end = end - 1;
        }
    } else {
        proof {
            assert(fraction_digits(u) =~= cs@.subrange(dot + 1, end as int).take(0));
        }
    }
    let frac_start: usize = if dot < n { dot + 1 } else { n };
    let ghost tz = trim_zeros(fraction_digits(u));
    proof {
        if dot < n {
            assert(tz == cs@.subrange(dot + 1, end as int));
        } else {
            assert(fraction_digits(u) == Seq::<char>::empty());
            assert(tz == Seq::<char>::empty());
        }
        assert(tz =~= cs@.subrange(frac_start as int, end as int));
    }
    let ghost ds = mantissa_digits(text@);
    let ghost whole = cs@.subrange(start as int, dot as int);
    assert(ds =~= whole + cs@.subrange(frac_start as int, end as int));
    assert(Seq::<char>::empty() + whole =~= whole);
    let mant = match accumulate_digits(&cs, start, dot, 0, Ghost(Seq::empty())) {
        Some(m) => m,
        None => {
            proof {
                if all_digits(ds) {
                    assert(ds.take(whole.len() as int) =~= whole);
                    lemma_digits_prefix(ds, whole.len() as int);
                }
            }
            return None;
        },
    };
    let mant = match accumulate_digits(&cs, frac_start, end, mant, Ghost(whole)) {
        Some(m) => m,
        None => return None,
    };
    let places = (end - frac_start) as u32;
    if neg {
        Some((-mant, places))
    } else {
        Some((mant, places))
    }
}

} // verus!
