//! Rendering a number under a `format:` — exact decimal arithmetic on the
//! written digits: `mant × 10^-exp`, rounded the way each family rounds.

use super::Format;
use crate::figures::{fixed_text, half_even_div, num, num_text, padded, push_big_digits, push_padded};
use crate::resolve::Num;
use crate::text::{decimal, digits_of, pow10, push_int};
use vstd::prelude::*;

verus! {

/// `a / 10^k` rounded to the nearest whole number, ties away from zero.
pub open spec fn half_away_div(a: nat, k: nat) -> nat {
    ((2 * a + pow10(k)) / (2 * pow10(k))) as nat
}

/// The magnitude `a × 10^-p` counted in units of `10^-d`, rounded half to
/// even (fixed-point text rounding).
pub open spec fn places(a: nat, p: int, d: nat) -> nat {
    if d >= p {
        (a * pow10((d - p) as nat)) as nat
    } else {
        half_even_div(a, (p - d) as nat)
    }
}

/// The magnitude `a × 10^-p` counted in units of `10^-d`, rounded half away
/// from zero (the whole-number rounding the families check carries with).
pub open spec fn away_places(a: nat, p: int, d: nat) -> nat {
    if d >= p {
        (a * pow10((d - p) as nat)) as nat
    } else {
        half_away_div(a, (p - d) as nat)
    }
}

/// `d`-place fixed-point text of `± a × 10^-p`; a sign on an all-zero
/// reading is dropped (`-0.00` reads `0.00`).
pub open spec fn fixed(neg: bool, a: nat, p: int, d: nat) -> Seq<char> {
    fixed_text(neg && places(a, p, d) != 0, places(a, p, d), d)
}

/// `k` zero digits.
pub open spec fn zeros(k: nat) -> Seq<char> {
    Seq::new(k, |i: int| '0')
}

/// How many decimal digits `a` has (`0` has one).
pub open spec fn ndigits(a: nat) -> nat
    decreases a,
{
    if a < 10 {
        1
    } else {
        1 + ndigits(a / 10)
    }
}

pub proof fn lemma_pow10_pos(n: nat)
    ensures
        pow10(n) >= 1,
    decreases n,
{
    if n > 0 {
        lemma_pow10_pos((n - 1) as nat);
    }
}

pub proof fn lemma_pow10_add(m: nat, n: nat)
    ensures
        pow10(m + n) == pow10(m) * pow10(n),
    decreases n,
{
    if n > 0 {
        lemma_pow10_add(m, (n - 1) as nat);
        assert(pow10(m + n) == 10 * pow10((m + n - 1) as nat));
        assert(pow10(m) * pow10(n) == pow10(m) * (10 * pow10((n - 1) as nat)));
        assert(pow10(m) * (10 * pow10((n - 1) as nat)) == 10 * (pow10(m) * pow10((n - 1) as nat)))
            by (nonlinear_arith);
    }
}

pub proof fn lemma_pow10_mono(m: nat, n: nat)
    requires
        m <= n,
    ensures
        pow10(m) <= pow10(n),
{
    lemma_pow10_add(m, (n - m) as nat);
    lemma_pow10_pos(m);
    lemma_pow10_pos((n - m) as nat);
    assert(pow10(m) * pow10((n - m) as nat) >= pow10(m) * 1) by (nonlinear_arith)
        requires pow10((n - m) as nat) >= 1, pow10(m) >= 1;
}

/// A number is below ten to the number of its digits, and at least ten to
/// one fewer.
pub proof fn lemma_ndigits(a: nat)
    ensures
        a < pow10(ndigits(a)),
        a >= 1 ==> pow10((ndigits(a) - 1) as nat) <= a,
        ndigits(a) >= 1,
    decreases a,
{
    if a >= 10 {
        let b = a / 10;
        lemma_ndigits(b);
        assert(pow10(ndigits(a)) == 10 * pow10(ndigits(b)));
        assert(pow10(ndigits(b)) == 10 * pow10((ndigits(b) - 1) as nat));
        assert(a < 10 * pow10(ndigits(b)));
        assert(10 * pow10((ndigits(b) - 1) as nat) <= a);
    } else {
        reveal_with_fuel(pow10, 2);
    }
}

/// Digit counts are bounded by the power of ten a number sits below.
pub proof fn lemma_ndigits_bound(a: nat, k: nat)
    requires
        a < pow10(k),
        k >= 1,
    ensures
        ndigits(a) <= k,
    decreases a,
{
    if a >= 10 {
        assert(pow10(k) == 10 * pow10((k - 1) as nat));
        if k == 1 {
            assert(pow10(0) == 1);
        } else {
            lemma_ndigits_bound(a / 10, (k - 1) as nat);
        }
    }
}

/// Ten to the power `e`, for `e` up to 38.
#[verifier::spinoff_prover]
#[verifier::rlimit(30)]
pub fn pow10_u128(e: u32) -> (p: u128)
    requires
        e <= 38,
    ensures
        p == pow10(e as nat),
        p >= 1,
{
    let mut p: u128 = 1;
    let mut k: u32 = 0;
    while k < e
        invariant
            k <= e <= 38,
            p == pow10(k as nat),
            1 <= p,
        decreases e - k,
    {
        proof {
            lemma_pow10_mono((k + 1) as nat, 38);
            reveal_with_fuel(pow10, 39);
            assert(pow10(38) == 100_000_000_000_000_000_000_000_000_000_000_000_000);
        }
        p = p * 10;
        k = k + 1;
    }
    p
}

/// Append `k` zero digits.
pub fn push_zeros(s: &mut String, k: u32)
    ensures
        final(s)@ == old(s)@ + zeros(k as nat),
{
    let mut i: u32 = 0;
    while i < k
        invariant
            i <= k,
            s@ == old(s)@ + zeros(i as nat),
        decreases k - i,
    {
        s.push('0');
        i = i + 1;
        proof {
            assert(s@ =~= old(s)@ + zeros(i as nat));
        }
    }
}

/// Padding `x · 10^k` to `w + k` places is padding `x` to `w` and adding
/// `k` zeros.
proof fn lemma_padded_shift(x: nat, w: nat, k: nat)
    ensures
        padded((x * pow10(k)) as nat, w + k) == padded(x, w) + zeros(k),
    decreases k,
{
    if k == 0 {
        assert(x * pow10(0) == x);
        assert(padded(x, w) + zeros(0) =~= padded(x, w));
    } else {
        let v = x * pow10(k);
        assert(pow10(k) == 10 * pow10((k - 1) as nat));
        let v1 = x * pow10((k - 1) as nat);
        assert(v == v1 * 10) by (nonlinear_arith)
            requires v == x * pow10(k), pow10(k) == 10 * pow10((k - 1) as nat), v1 == x * pow10((k - 1) as nat);
        lemma_pow10_pos((k - 1) as nat);
        assert(v1 >= 0) by (nonlinear_arith) requires v1 == x * pow10((k - 1) as nat), pow10((k - 1) as nat) >= 1;
        assert(v / 10 == v1 && v % 10 == 0) by (nonlinear_arith) requires v == v1 * 10, v1 >= 0;
        lemma_padded_shift(x, w, (k - 1) as nat);
        assert(padded(v as nat, w + k) == padded((v / 10) as nat, (w + k - 1) as nat).push(
            crate::text::digit_char((v % 10) as int),
        ));
        assert(crate::text::digit_char(0) == '0');
        assert(padded(x, w) + zeros(k) =~= (padded(x, w) + zeros((k - 1) as nat)).push('0'));
    }
}

/// Fixed-point text of `q · 10^(w+k) + x · 10^k` at `w + k` places: the
/// whole digits of `q`, then `x` padded to `w` places and `k` zeros.
proof fn lemma_fixed_exact(neg: bool, q: nat, x: nat, w: nat, k: nat)
    requires
        x < pow10(w),
    ensures
        fixed_text(neg, (q * pow10(w + k) + x * pow10(k)) as nat, w + k) == (if neg {
            seq!['-']
        } else {
            Seq::<char>::empty()
        }) + digits_of(q) + (if w + k > 0 {
            seq!['.'] + padded(x, w) + zeros(k)
        } else {
            Seq::<char>::empty()
        }),
{
    let p = pow10(w + k);
    let pk = pow10(k);
    lemma_pow10_add(w, k);
    lemma_pow10_pos(w);
    lemma_pow10_pos(k);
    let u = q * p + x * pk;
    assert(x * pk < p) by (nonlinear_arith)
        requires x < pow10(w), p == pow10(w) * pk, pk >= 1;
    assert(x * pk >= 0) by (nonlinear_arith) requires pk >= 1;
    assert(q * p >= 0) by (nonlinear_arith) requires p >= 1;
    vstd::arithmetic::div_mod::lemma_fundamental_div_mod_converse(u, p, q as int, x * pk);
    lemma_padded_shift(x, w, k);
    assert(seq!['.'] + padded(x, w) + zeros(k) =~= seq!['.'] + (padded(x, w) + zeros(k)));
}

/// Append `± (q · 10^(w+k) + x · 10^k) / 10^(w+k)` as fixed-point text.
fn push_exact(s: &mut String, neg: bool, q: u128, x: u128, w: u32, k: u32)
    requires
        x < pow10(w as nat),
    ensures
        final(s)@ == old(s)@ + fixed_text(
            neg,
            (q * pow10((w + k) as nat) + x * pow10(k as nat)) as nat,
            (w + k) as nat,
        ),
{
    if neg {
        s.push('-');
    }
    let ghost s0 = s@;
    push_big_digits(s, q);
    let ghost s1 = s@;
    if w as u64 + k as u64 > 0 {
        s.push('.');
        push_padded(s, x, w);
        push_zeros(s, k);
    }
    proof {
        lemma_fixed_exact(neg, q as nat, x as nat, w as nat, k as nat);
        let sign: Seq<char> = if neg { seq!['-'] } else { Seq::empty() };
        assert(s0 =~= old(s)@ + sign);
        if w + k > 0 {
            assert(s@ =~= old(s)@ + sign + digits_of(q as nat) + (seq!['.'] + padded(x as nat, w as nat) + zeros(k as nat)));
        } else {
            assert(s@ =~= old(s)@ + sign + digits_of(q as nat) + Seq::<char>::empty());
        }
    }
}

/// `a / 10^k` rounded half to even, for `k` up to 38.
pub fn round_half_even(a: u128, k: u32) -> (u: u128)
    requires
        k <= 38,
    ensures
        u == half_even_div(a as nat, k as nat),
        u <= a,
{
    let p = pow10_u128(k);
    let q = a / p;
    let r = a % p;
    proof {
        vstd::arithmetic::div_mod::lemma_fundamental_div_mod(a as int, p as int);
        assert(q <= a) by (nonlinear_arith) requires q == a / p, p >= 1;
    }
    if r > p - r || (r == p - r && q % 2 == 1) {
        proof {
            if q == a {
                assert(q * p + r == a);
                assert(q * p >= q) by (nonlinear_arith) requires p >= 1, q >= 0;
                assert(r == 0);
            }
        }
        q + 1
    } else {
        q
    }
}

/// `a / 10^k` rounded half away from zero, for `k` up to 38.
fn round_half_away(a: u128, k: u32) -> (u: u128)
    requires
        k <= 38,
        a < 0x1_0000_0000_0000_0000_0000_0000_0000,
    ensures
        u == half_away_div(a as nat, k as nat),
        u <= a + 1,
{
    let p = pow10_u128(k);
    proof {
        lemma_pow10_mono(k as nat, 38);
        reveal_with_fuel(pow10, 39);
    }
    let u = (2 * a + p) / (2 * p);
    proof {
        assert(u * (2 * p) <= 2 * a + p) by (nonlinear_arith) requires u == (2 * a + p) / (2 * p), p >= 1;
        assert(u <= a + 1) by (nonlinear_arith) requires u * (2 * p) <= 2 * a + p, p >= 1, u >= 0;
    }
    u
}

/// Append `d`-place fixed-point text of `± a × 10^-p`, no negative zero.
fn push_places(s: &mut String, neg: bool, a: u64, p: i32, d: u32)
    requires
        -3 <= p <= 22,
    ensures
        final(s)@ == old(s)@ + fixed(neg, a as nat, p as int, d as nat),
{
    if (d as i64) < (p as i64) {
        let k = (p as i64 - d as i64) as u32;
        let u = round_half_even(a as u128, k);
        let pd = pow10_u128(d);
        proof {
            vstd::arithmetic::div_mod::lemma_fundamental_div_mod(u as int, pd as int);
            assert(pow10(0) == 1);
            assert(u == (u / pd) * pow10((d + 0) as nat) + (u % pd) * pow10(0)) by (nonlinear_arith)
                requires u == pd * (u / pd) + u % pd, pd == pow10((d + 0) as nat), pow10(0) == 1;
        }
        push_exact(s, neg && u != 0, u / pd, u % pd, d, 0);
    } else if p <= 0 {
        let m = pow10_u128((-p) as u32);
        proof {
            lemma_pow10_mono((-p) as nat, 3);
            reveal_with_fuel(pow10, 4);
            assert(a * m <= 0xffff_ffff_ffff_ffff * 1000) by (nonlinear_arith) requires m <= 1000, a <= 0xffff_ffff_ffff_ffff;
        }
        let q = (a as u128) * m;
        proof {
            lemma_pow10_add((-p) as nat, d as nat);
            assert(((d as int) - (p as int)) as nat == ((-p) as nat + d as nat));
            assert(q * pow10((0 + d) as nat) + 0 * pow10(d as nat) == (a as int) * pow10(((d as int) - (p as int)) as nat)) by (nonlinear_arith)
                requires q == a * m, m == pow10((-p) as nat),
                    pow10(((d as int) - (p as int)) as nat) == m * pow10(d as nat);
            lemma_pow10_pos(((d as int) - (p as int)) as nat);
            assert((a != 0) == ((a as int) * pow10(((d as int) - (p as int)) as nat) != 0)) by (nonlinear_arith)
                requires pow10(((d as int) - (p as int)) as nat) >= 1;
            lemma_pow10_pos(0);
        }
        push_exact(s, neg && a != 0, q, 0, 0, d);
    } else {
        let w = p as u32;
        let pw = pow10_u128(w);
        let q = (a as u128) / pw;
        let x = (a as u128) % pw;
        proof {
            vstd::arithmetic::div_mod::lemma_fundamental_div_mod(a as int, pw as int);
            let k = (d - w) as nat;
            lemma_pow10_add(w as nat, k);
            assert((q * pow10((w + (d - w)) as nat) + x * pow10(k)) == (a as int) * pow10(k)) by (nonlinear_arith)
                requires a == pw * q + x, pow10((w + (d - w)) as nat) == pw * pow10(k);
            lemma_pow10_pos(k);
            assert((a != 0) == ((a as int) * pow10(k) != 0)) by (nonlinear_arith)
                requires pow10(k) >= 1;
        }
        push_exact(s, neg && a != 0, q, x, w, d - w);
    }
}

/// The magnitude of a number's digits.
pub open spec fn mag(n: Num) -> nat {
    (if n.spec_mant() < 0 { -n.spec_mant() } else { n.spec_mant() }) as nat
}

/// Whether a number is below zero.
pub open spec fn is_neg(n: Num) -> bool {
    n.spec_mant() < 0
}

/// `significant S`: `S` significant digits. Rounding above the decimal
/// point snaps to the significant place (ties away from zero) and reads as a
/// whole number; otherwise the value prints with the decimals the digits
/// reach, trailing zeros kept.
pub open spec fn significant_text(n: Num, s: nat) -> Seq<char> {
    let a = mag(n);
    let e = n.spec_exp();
    if a == 0 {
        num_text(n)
    } else {
        let l = ndigits(a);
        let dec = s - l + e;
        if dec < 0 {
            let k = (l - s) as nat;
            let v = half_away_div(a, k) * pow10((k - e) as nat);
            decimal(if is_neg(n) { -v } else { v })
        } else {
            fixed(is_neg(n), a, e as int, dec as nat)
        }
    }
}

/// The exponent and the mantissa's places of `a × 10^-e` in exponential
/// form with `d` mantissa decimals: the mantissa is `a × 10^-p`, in `[1, 10)`
/// — or, for engineering, in `[1, 1000)` with the exponent a multiple of 3 —
/// once rounding carries are taken into account.
pub open spec fn exponent_and_places(a: nat, e: nat, d: nat, eng: bool) -> (int, int) {
    let l = ndigits(a);
    let x0 = l - 1 - e;
    let p0 = l - 1;
    let carry = away_places(a, p0, d) >= pow10(d + 1);
    let x1 = if carry { x0 + 1 } else { x0 };
    let p1 = if carry { p0 + 1 } else { p0 };
    if !eng {
        (x1, p1)
    } else {
        let down = x1 % 3;
        let x2 = x1 - down;
        let p2 = p1 - down;
        if away_places(a, p2, d) >= 1000 * pow10(d) {
            (x2 + 3, p2 + 3)
        } else {
            (x2, p2)
        }
    }
}

/// `scientific D` / `engineering D`: `m e x`, the mantissa with `D`
/// decimals; zero reads `0e0` with the decimals.
pub open spec fn exponential_text(n: Num, d: nat, eng: bool) -> Seq<char> {
    let a = mag(n);
    if a == 0 {
        fixed(false, 0, 0, d) + seq!['e', '0']
    } else {
        let xp = exponent_and_places(a, n.spec_exp(), d, eng);
        fixed(is_neg(n), a, xp.1, d) + seq!['e'] + decimal(xp.0)
    }
}

/// Greatest common divisor, by Euclid.
pub open spec fn gcd(a: nat, b: nat) -> nat
    decreases b,
{
    if b == 0 {
        a
    } else {
        gcd(b, a % b)
    }
}

/// A fraction's parts: the nearest multiple of `1/den` (ties away from
/// zero), reduced — `(negative, whole, numerator, denominator)`; a zero
/// numerator is a whole reading.
pub open spec fn fraction_of(n: Num, den: nat) -> (bool, nat, nat, nat) {
    let total = half_away_div(mag(n) * den, n.spec_exp());
    let whole = total / den;
    let num = total % den;
    let g = gcd(num, den);
    (
        is_neg(n) && total > 0,
        whole,
        if num != 0 { num / g } else { 0 },
        if num != 0 { den / g } else { den },
    )
}

/// `fraction D` flattened: `[-]whole`, `[-]num/den` or `[-]whole num/den`.
pub open spec fn fraction_text(n: Num, den: nat) -> Seq<char> {
    let parts = fraction_of(n, den);
    let sign: Seq<char> = if parts.0 { seq!['-'] } else { Seq::empty() };
    if parts.2 == 0 {
        sign + digits_of(parts.1)
    } else if parts.1 == 0 {
        sign + digits_of(parts.2) + seq!['/'] + digits_of(parts.3)
    } else {
        sign + digits_of(parts.1) + seq![' '] + digits_of(parts.2) + seq!['/'] + digits_of(parts.3)
    }
}

/// A number as it reads under a format. A date preset reads as `auto`.
pub open spec fn render_text(n: Num, f: Format) -> Seq<char> {
    match f {
        Format::Auto => num_text(n),
        Format::Date(_) => num_text(n),
        Format::Decimal(d) => fixed(is_neg(n), mag(n), n.spec_exp() as int, d as nat),
        Format::Significant(s) => significant_text(n, s as nat),
        Format::Scientific(d) => exponential_text(n, d as nat, false),
        Format::Engineering(d) => exponential_text(n, d as nat, true),
        Format::Percent(d) => fixed(is_neg(n), mag(n), n.spec_exp() - 2, d as nat) + seq!['%'],
        Format::Fraction(den) => fraction_text(n, den as nat),
    }
}

/// The magnitude of a number's digits, as an unsigned integer.
fn magnitude_of(n: &Num) -> (a: u64)
    ensures
        a == mag(*n),
        a <= 9_223_372_036_854_775_808u64,
{
    let m = n.mant();
    if m < 0 {
        ((-(m + 1)) as u64) + 1
    } else {
        m as u64
    }
}

/// The number of decimal digits of `a`.
fn digit_count(a: u64) -> (l: u32)
    ensures
        l == ndigits(a as nat),
        1 <= l <= 20,
{
    let mut v = a;
    let mut l: u32 = 1;
    proof {
        reveal_with_fuel(pow10, 21);
        assert(pow10(20) == 100_000_000_000_000_000_000);
    }
    while v >= 10
        invariant
            ndigits(a as nat) == l - 1 + ndigits(v as nat),
            1 <= l <= 20,
            v < pow10((21 - l) as nat),
        decreases v,
    {
        proof {
            assert(pow10((21 - l) as nat) == 10 * pow10((20 - l) as nat));
            if l == 20 {
                assert(pow10(1) == 10) by { reveal_with_fuel(pow10, 2); }
            }
        }
        v = v / 10;
        l = l + 1;
    }
    proof {
        if l == 1 {
            assert(a < 0x1_0000_0000_0000_0000);
        }
    }
    l
}

/// The `auto` reading: integers stay integers, decimals print to 4 places
/// and trim trailing zeros.
pub fn auto(n: &Num) -> (t: String)
    ensures
        t@ == num_text(*n),
{
    num(n)
}

/// Numbers have at most 19 digits.
proof fn lemma_mag_digits(a: nat)
    requires
        a <= 9_223_372_036_854_775_808,
    ensures
        ndigits(a) <= 19,
        a < pow10(ndigits(a)),
        a >= 1 ==> pow10((ndigits(a) - 1) as nat) <= a,
{
    reveal_with_fuel(pow10, 20);
    assert(pow10(19) == 10_000_000_000_000_000_000);
    lemma_ndigits_bound(a, 19);
    lemma_ndigits(a);
}

/// Append the `significant S` reading of a number.
fn push_significant(out: &mut String, n: &Num, s: u8)
    ensures
        final(out)@ == old(out)@ + significant_text(*n, s as nat),
{
    let a = magnitude_of(n);
    if a == 0 {
        let t = num(n);
        out.append(t.as_str());
        return;
    }
    let e = n.exp();
    let l = digit_count(a);
    proof {
        lemma_mag_digits(a as nat);
    }
    let dec: i64 = s as i64 - l as i64 + e as i64;
    if dec < 0 {
        let k = l - s as u32;
        let q = round_half_away(a as u128, k);
        let m = pow10_u128(k - e);
        proof {
            lemma_pow10_mono((k - e) as nat, 19);
            reveal_with_fuel(pow10, 20);
            assert(q * m <= 9_223_372_036_854_775_809u128 * 10_000_000_000_000_000_000u128) by (nonlinear_arith)
                requires q <= 9_223_372_036_854_775_809u128, m <= 10_000_000_000_000_000_000u128;
        }
        let v = q * m;
        let ghost s0 = out@;
        if n.mant() < 0 && v != 0 {
            out.push('-');
        }
        push_big_digits(out, v);
        proof {
            let w: int = if is_neg(*n) { -(v as int) } else { v as int };
            if is_neg(*n) && v != 0 {
                assert(out@ =~= s0 + decimal(w));
            } else {
                assert(out@ =~= s0 + decimal(w));
            }
        }
    } else {
        push_places(out, n.mant() < 0, a, e as i32, dec as u32);
    }
}

/// `a × 10^-p` never reaches `10^t` places-rounded when it is exact and `a`
/// sits below `10^(p + t - d)`.
proof fn lemma_exact_below(a: nat, p: int, d: nat, t: nat)
    requires
        d >= p,
        p + t - d >= 0,
        a < pow10((p + t - d) as nat),
    ensures
        away_places(a, p, d) < pow10(t),
{
    let k = (d - p) as nat;
    let j = (p + t - d) as nat;
    lemma_pow10_add(j, k);
    assert(j + k == t);
    lemma_pow10_pos(k);
    assert(a * pow10(k) < pow10(j) * pow10(k)) by (nonlinear_arith)
        requires a < pow10(j), pow10(k) >= 1;
}

/// Whether `a × 10^-p`, rounded to `d` places (ties away from zero),
/// reaches `10^t` — a carry past the mantissa band's top.
fn reaches(a: u64, p: i32, d: u32, t: u32) -> (b: bool)
    requires
        -2 <= p <= 19,
        1 <= t <= 3,
        p + t >= 0,
        a < pow10((p + t) as nat),
    ensures
        b == (away_places(a as nat, p as int, d as nat) >= pow10((d + t) as nat)),
{
    if (d as i64) < (p as i64) {
        let r = round_half_away(a as u128, (p as i64 - d as i64) as u32);
        r >= pow10_u128(d + t)
    } else {
        proof {
            lemma_exact_below(a as nat, p as int, d as nat, (d + t) as nat);
        }
        false
    }
}

/// The exponent and mantissa places of a nonzero magnitude in exponential
/// form.
fn exponent_places(a: u64, e: u32, d: u8, eng: bool) -> (xp: (i64, i32))
    requires
        1 <= a <= 9_223_372_036_854_775_808u64,
        e <= 18,
    ensures
        xp.0 == exponent_and_places(a as nat, e as nat, d as nat, eng).0,
        xp.1 == exponent_and_places(a as nat, e as nat, d as nat, eng).1,
        -2 <= xp.1 <= 22,
{
    let l = digit_count(a);
    proof {
        lemma_mag_digits(a as nat);
    }
    let x0: i64 = l as i64 - 1 - e as i64;
    let p0: i32 = l as i32 - 1;
    // Mantissa rounding may carry past the band's top (9.99 → 10.0 at d = 1).
    let carry = reaches(a, p0, d as u32, 1);
    proof {
        assert(pow10((d + 1) as nat) == pow10((d as nat + 1) as nat));
    }
    let x1 = if carry { x0 + 1 } else { x0 };
    let p1 = if carry { p0 + 1 } else { p0 };
    if !eng {
        return (x1, p1);
    }
    let down = ((x1 + 21) as u64 % 3) as i64;
    proof {
        assert((x1 + 21) % 3 == x1 % 3) by (nonlinear_arith)
            requires x1 + 21 >= 0;
    }
    let x2 = x1 - down;
    let p2 = p1 - down as i32;
    proof {
        lemma_pow10_mono(l as nat, (p2 + 3) as nat);
        lemma_pow10_add(d as nat, 3);
        reveal_with_fuel(pow10, 4);
    }
    if reaches(a, p2, d as u32, 3) {
        (x2 + 3, p2 + 3)
    } else {
        (x2, p2)
    }
}

/// Append the exponential reading of a number: `scientific D`, or with
/// `eng` the `engineering D` one.
fn push_exponential(out: &mut String, n: &Num, d: u8, eng: bool)
    ensures
        final(out)@ == old(out)@ + exponential_text(*n, d as nat, eng),
{
    let a = magnitude_of(n);
    if a == 0 {
        push_places(out, false, 0, 0, d as u32);
        out.push('e');
        out.push('0');
        proof {
            assert(out@ =~= old(out)@ + (fixed(false, 0, 0, d as nat) + seq!['e', '0']));
        }
        return;
    }
    let (x, p) = exponent_places(a, n.exp(), d, eng);
    push_places(out, n.mant() < 0, a, p, d as u32);
    out.push('e');
    push_int(out, x);
    proof {
        assert(out@ =~= old(out)@ + (fixed(is_neg(*n), a as nat, p as int, d as nat) + seq!['e'] + decimal(x as int)));
    }
}

/// Euclid's greatest common divisor.
fn gcd_of(a: u32, b: u32) -> (g: u32)
    ensures
        g == gcd(a as nat, b as nat),
{
    let mut x = a;
    let mut y = b;
    while y != 0
        invariant
            gcd(x as nat, y as nat) == gcd(a as nat, b as nat),
        decreases y,
    {
        let t = x % y;
        x = y;
        y = t;
    }
    x
}

/// The greatest common divisor of two naturals, not both zero, is positive.
proof fn lemma_gcd_pos(a: nat, b: nat)
    requires
        a > 0 || b > 0,
    ensures
        gcd(a, b) > 0,
    decreases b,
{
    if b > 0 {
        lemma_gcd_pos(b, a % b);
    }
}

/// A fraction's parts: the nearest multiple of `1/den`, reduced —
/// `(negative, whole, numerator, denominator)`; a zero numerator is a whole
/// reading. The dimension typography arranges these; [`render`] flattens
/// them.
pub fn fraction_parts(n: &Num, den: u32) -> (r: (bool, u64, u32, u32))
    requires
        den > 0,
    ensures
        r.0 == fraction_of(*n, den as nat).0,
        r.1 == fraction_of(*n, den as nat).1,
        r.2 == fraction_of(*n, den as nat).2,
        r.3 == fraction_of(*n, den as nat).3,
{
    let a = magnitude_of(n);
    proof {
        assert(a as int * den as int <= 9_223_372_036_854_775_808int * 0xffff_ffff) by (nonlinear_arith)
            requires a <= 9_223_372_036_854_775_808u64, den <= 0xffff_ffffu32;
    }
    let total = round_half_away(a as u128 * den as u128, n.exp());
    let whole = total / den as u128;
    let num = (total % den as u128) as u32;
    proof {
        assert(total <= (a as u128) * (den as u128) + 1);
        assert((a as u128) * (den as u128) <= 9_223_372_036_854_775_808u128 * (den as u128)) by (nonlinear_arith)
            requires a <= 9_223_372_036_854_775_808u64;
        assert(whole * den <= total) by (nonlinear_arith) requires whole == total / (den as u128), den >= 1;
        assert(whole <= 9_223_372_036_854_775_809u128) by (nonlinear_arith)
            requires whole * den <= total, total <= 9_223_372_036_854_775_808u128 * (den as u128) + 1,
                den >= 1;
    }
    let mut nm = num;
    let mut d = den;
    if num != 0 {
        let g = gcd_of(num, d);
        proof {
            lemma_gcd_pos(num as nat, d as nat);
        }
        nm = num / g;
        d = d / g;
    }
    (n.mant() < 0 && total > 0, whole as u64, nm, d)
}

/// Append `fraction D`, flattened to one run of text.
fn push_fraction(out: &mut String, n: &Num, den: u32)
    requires
        den > 0,
    ensures
        final(out)@ == old(out)@ + fraction_text(*n, den as nat),
{
    let (neg, whole, num, d) = fraction_parts(n, den);
    let ghost parts = fraction_of(*n, den as nat);
    let ghost sign: Seq<char> = if parts.0 { seq!['-'] } else { Seq::empty() };
    if neg {
        out.push('-');
    }
    let ghost s0 = out@;
    proof {
        assert(s0 =~= old(out)@ + sign);
    }
    if num == 0 {
        crate::text::push_digits(out, whole);
        proof {
            assert(out@ =~= old(out)@ + (sign + digits_of(parts.1)));
        }
    } else if whole == 0 {
        crate::text::push_digits(out, num as u64);
        out.push('/');
        crate::text::push_digits(out, d as u64);
        proof {
            assert(out@ =~= old(out)@ + (sign + digits_of(parts.2) + seq!['/'] + digits_of(parts.3)));
        }
    } else {
        crate::text::push_digits(out, whole);
        out.push(' ');
        crate::text::push_digits(out, num as u64);
        out.push('/');
        crate::text::push_digits(out, d as u64);
        proof {
            assert(out@ =~= old(out)@ + (sign + digits_of(parts.1) + seq![' '] + digits_of(parts.2) + seq!['/']
                + digits_of(parts.3)));
        }
    }
}

/// Render a numeric value under a format. A date preset never reaches here
/// — consumers gate it — but reads `auto` rather than lying. A fraction
/// needs a denominator of at least one.
pub fn render(n: &Num, f: Format) -> (t: String)
    requires
        f matches Format::Fraction(den) ==> den > 0,
    ensures
        t@ == render_text(*n, f),
{
    let mut out = String::new();
    match f {
        Format::Auto | Format::Date(_) => {
            out = num(n);
        },
        Format::Decimal(d) => {
            push_places(&mut out, n.mant() < 0, magnitude_of(n), n.exp() as i32, d as u32);
        },
        Format::Significant(s) => {
            push_significant(&mut out, n, s);
        },
        Format::Scientific(d) => {
            push_exponential(&mut out, n, d, false);
        },
        Format::Engineering(d) => {
            push_exponential(&mut out, n, d, true);
        },
        Format::Percent(d) => {
            push_places(&mut out, n.mant() < 0, magnitude_of(n), n.exp() as i32 - 2, d as u32);
            out.push('%');
        },
        Format::Fraction(den) => {
            push_fraction(&mut out, n, den);
        },
    }
    proof {
        assert(out@ =~= render_text(*n, f));
    }
    out
}

/// Half-to-even rounding lands on the floor or one above it, never above
/// half-away rounding.
proof fn lemma_rounding_bounds(a: nat, k: nat)
    ensures
        (a as int) / pow10(k) <= half_even_div(a, k) <= (a as int) / pow10(k) + 1,
        half_even_div(a, k) <= half_away_div(a, k),
        (a as int) / pow10(k) <= half_away_div(a, k),
{
    let p = pow10(k);
    lemma_pow10_pos(k);
    let q = (a as int) / p;
    let r = (a as int) % p;
    vstd::arithmetic::div_mod::lemma_fundamental_div_mod(a as int, p);
    let h = (2 * a + p) / (2 * p);
    if 2 * r >= p {
        assert(2 * a + p == (q + 1) * (2 * p) + (2 * r - p)) by (nonlinear_arith)
            requires a == p * q + r;
        vstd::arithmetic::div_mod::lemma_fundamental_div_mod_converse(2 * a + p, 2 * p, q + 1, 2 * r - p);
    } else {
        assert(2 * a + p == q * (2 * p) + (2 * r + p)) by (nonlinear_arith)
            requires a == p * q + r;
        vstd::arithmetic::div_mod::lemma_fundamental_div_mod_converse(2 * a + p, 2 * p, q, 2 * r + p);
    }
}

/// With `d` mantissa decimals, a scientific mantissa reads in `[1, 10)`:
/// its `d`-place count of units lies in `[10^d, 10^(d+1))`.
pub proof fn law_scientific_mantissa_in_band(a: nat, e: nat, d: nat)
    requires
        a >= 1,
    ensures
        pow10(d) <= places(a, exponent_and_places(a, e, d, false).1, d) < pow10(d + 1),
{
    let l = ndigits(a);
    lemma_ndigits(a);
    let p0 = l - 1;
    lemma_pow10_add(d, 1);
    assert(pow10(1) == 10) by {
        reveal_with_fuel(pow10, 2);
    }
    if d >= p0 {
        // Exact: a·10^(d−p0) sits in [10^d, 10^(d+1)), so no carry.
        let k = (d - p0) as nat;
        lemma_pow10_add(p0 as nat, k);
        lemma_pow10_add(l, k);
        lemma_pow10_pos(k);
        assert(pow10(p0 as nat) * pow10(k) <= a * pow10(k) < pow10(l) * pow10(k)) by (nonlinear_arith)
            requires pow10(p0 as nat) <= a < pow10(l), pow10(k) >= 1;
        assert(p0 as nat + k == d);
        assert(l + k == d + 1);
    } else {
        let k = (p0 - d) as nat;
        let pk = pow10(k);
        lemma_pow10_pos(k);
        lemma_pow10_add(d, k);
        lemma_pow10_add(d + 1, k);
        assert(d + k == p0 && d + 1 + k == l);
        lemma_rounding_bounds(a, k);
        let q = (a as int) / pk;
        vstd::arithmetic::div_mod::lemma_fundamental_div_mod(a as int, pk);
        // q in [10^d, 10^(d+1)).
        assert(pow10(d) <= q < pow10(d + 1)) by (nonlinear_arith)
            requires pow10(d) * pk <= a < pow10(d + 1) * pk, a == pk * q + (a as int) % pk,
                0 <= (a as int) % pk < pk, pk >= 1;
        let carry = away_places(a, p0 as int, d) >= pow10(d + 1);
        if !carry {
            assert(places(a, p0 as int, d) == half_even_div(a, k));
        } else {
            // The half-away rounding reached 10^(d+1): one more digit left of
            // the point, and the half-even count at `l` places is exactly 10^d.
            let k1 = k + 1;
            let pk1 = pow10(k1);
            assert(pk1 == 10 * pk);
            lemma_pow10_add(d, k1);
            assert(d + k1 == l);
            lemma_rounding_bounds(a, k1);
            let q1 = (a as int) / pk1;
            vstd::arithmetic::div_mod::lemma_fundamental_div_mod(a as int, pk1);
            let r1 = (a as int) % pk1;
            assert(half_away_div(a, k) >= pow10(d + 1));
            assert((2 * a + pk) / (2 * pk) >= pow10(d + 1));
            vstd::arithmetic::div_mod::lemma_fundamental_div_mod(2 * a + pk, 2 * pk);
            assert(2 * a + pk >= 2 * pk * pow10(d + 1)) by (nonlinear_arith)
                requires (2 * a + pk) / (2 * pk) >= pow10(d + 1), 2 * a + pk == (2 * pk) * ((2 * a + pk) / (2 * pk)) + (2 * a + pk) % (2 * pk),
                    (2 * a + pk) % (2 * pk) >= 0, pk >= 1;
            assert(pow10(d + 1) == 10 * pow10(d));
            assert(pow10(l) == pow10(d) * pk1);
            assert(q1 == pow10(d) - 1 || q1 >= pow10(d)) by (nonlinear_arith)
                requires 2 * a + pk >= 2 * pk * (10 * pow10(d)), a == pk1 * q1 + r1, 0 <= r1 < pk1, pk1 == 10 * pk, pk >= 1;
            assert(q1 < pow10(d)) by (nonlinear_arith)
                requires a < pow10(d) * pk1, a == pk1 * q1 + r1, 0 <= r1, pk1 >= 1;
            if q1 == pow10(d) - 1 {
                assert(2 * r1 > pk1) by (nonlinear_arith)
                    requires 2 * a + pk >= 2 * pk * (10 * pow10(d)), a == pk1 * q1 + r1, pk1 == 10 * pk,
                        q1 == pow10(d) - 1, pk >= 1;
            }
            assert(places(a, l as int, d) == half_even_div(a, k1));
        }
    }
}

/// The engineering exponent is a multiple of 3.
pub proof fn law_engineering_exponent_steps_by_three(a: nat, e: nat, d: nat)
    ensures
        exponent_and_places(a, e, d, true).0 % 3 == 0,
{
}

/// Integers stay integers: `auto` reads a whole number as its decimal
/// digits.
pub proof fn law_auto_keeps_integers(n: Num)
    requires
        n.whole_value() is Some,
    ensures
        render_text(n, Format::Auto) == decimal(n.whole_value().unwrap()),
{
}

/// No negative zero: a fixed reading carries a sign only when some digit of
/// it is not zero.
pub proof fn law_no_negative_zero(neg: bool, a: nat, p: int, d: nat)
    ensures
        places(a, p, d) == 0 ==> fixed(neg, a, p, d) == fixed(false, a, p, d),
{
}

/// The greatest common divisor divides both numbers, so it is at most
/// either positive one.
proof fn lemma_gcd_divides(a: nat, b: nat)
    requires
        a > 0 || b > 0,
    ensures
        gcd(a, b) > 0,
        a % gcd(a, b) == 0,
        b % gcd(a, b) == 0,
        a > 0 ==> gcd(a, b) <= a,
    decreases b,
{
    lemma_gcd_pos(a, b);
    let g = gcd(a, b);
    if b > 0 {
        lemma_gcd_divides(b, a % b);
        assert(g == gcd(b, a % b));
        let r = a % b;
        vstd::arithmetic::div_mod::lemma_fundamental_div_mod(a as int, b as int);
        vstd::arithmetic::div_mod::lemma_fundamental_div_mod(b as int, g as int);
        vstd::arithmetic::div_mod::lemma_fundamental_div_mod(r as int, g as int);
        let q = (a / b) * (b / g) + r / g;
        assert(a == g * q) by (nonlinear_arith)
            requires
                a == b * (a / b) + r,
                b == g * (b / g) + b % g,
                r == g * (r / g) + r % g,
                b % g == 0,
                r % g == 0,
                q == (a / b) * (b / g) + r / g,
        ;
        vstd::arithmetic::div_mod::lemma_mod_multiples_basic(q as int, g as int);
        assert(a % g == 0) by {
            assert(g * q == q * g) by (nonlinear_arith);
        }
        if a > 0 {
            assert(g <= a) by (nonlinear_arith)
                requires
                    a == g * q,
                    a > 0,
                    g > 0,
                    q >= 0,
            ;
        }
    } else {
        vstd::arithmetic::div_mod::lemma_mod_self_0(a as int);
        vstd::arithmetic::div_mod::lemma_small_mod(0, a);
    }
}

/// Every common divisor of two numbers divides their greatest common
/// divisor.
proof fn lemma_common_divisor(a: nat, b: nat, c: nat)
    requires
        c > 0,
        a % c == 0,
        b % c == 0,
    ensures
        gcd(a, b) % c == 0,
    decreases b,
{
    if b > 0 {
        let r = a % b;
        vstd::arithmetic::div_mod::lemma_fundamental_div_mod(a as int, b as int);
        vstd::arithmetic::div_mod::lemma_fundamental_div_mod(a as int, c as int);
        vstd::arithmetic::div_mod::lemma_fundamental_div_mod(b as int, c as int);
        let q = (a / c) as int - (a / b) as int * (b / c) as int;
        assert(r == c * q) by (nonlinear_arith)
            requires
                a == b * (a / b) + r,
                a == c * (a / c),
                b == c * (b / c),
                q == (a / c) as int - (a / b) as int * (b / c) as int,
        ;
        assert(q >= 0) by (nonlinear_arith)
            requires
                r == c * q,
                r >= 0,
                c > 0,
        ;
        vstd::arithmetic::div_mod::lemma_mod_multiples_basic(q, c as int);
        assert(c * q == q * c) by (nonlinear_arith);
        lemma_common_divisor(b, r, c);
    }
}

/// Dividing both numbers by their greatest common divisor leaves no common
/// factor above one.
proof fn lemma_reduced_coprime(num: nat, dn: nat, k: nat)
    requires
        num > 0,
        dn > 0,
        k > 1,
    ensures
        !((num / gcd(num, dn)) % k == 0 && (dn / gcd(num, dn)) % k == 0),
{
    lemma_gcd_divides(num, dn);
    let g = gcd(num, dn);
    if (num / g) % k == 0 && (dn / g) % k == 0 {
        vstd::arithmetic::div_mod::lemma_fundamental_div_mod(num as int, g as int);
        vstd::arithmetic::div_mod::lemma_fundamental_div_mod(dn as int, g as int);
        vstd::arithmetic::div_mod::lemma_fundamental_div_mod((num / g) as int, k as int);
        vstd::arithmetic::div_mod::lemma_fundamental_div_mod((dn / g) as int, k as int);
        let kg = k * g;
        let x = (num / g) / k;
        let y = (dn / g) / k;
        assert(num == kg * x && dn == kg * y) by (nonlinear_arith)
            requires
                num == g * (num / g),
                dn == g * (dn / g),
                num / g == k * x,
                dn / g == k * y,
                kg == k * g,
        ;
        assert(kg > 0) by (nonlinear_arith)
            requires
                kg == k * g,
                k > 1,
                g > 0,
        ;
        vstd::arithmetic::div_mod::lemma_mod_multiples_basic(x as int, kg as int);
        vstd::arithmetic::div_mod::lemma_mod_multiples_basic(y as int, kg as int);
        assert(kg * x == x * kg && kg * y == y * kg) by (nonlinear_arith);
        lemma_common_divisor(num, dn, kg);
        vstd::arithmetic::div_mod::lemma_fundamental_div_mod(g as int, kg as int);
        let z = g / kg;
        assert(g == kg * z);
        assert(false) by (nonlinear_arith)
            requires
                g == kg * z,
                kg == k * g,
                k > 1,
                g > 0,
        ;
    }
}

/// The digits of a number are a single `0` only for zero.
proof fn lemma_digits_of_zero(w: nat)
    ensures
        (digits_of(w) == seq!['0']) == (w == 0),
        digits_of(w).len() >= 1,
    decreases w,
{
    if w >= 10 {
        lemma_digits_of_zero(w / 10);
        assert(digits_of(w).len() >= 2);
    } else {
        assert(digits_of(w) == seq![crate::text::digit_char(w as int)]);
        assert(crate::text::digit_char(w as int) as int == w + 48);
        if w != 0 {
            assert(digits_of(w)[0] != '0');
        }
    }
}

/// A fraction's sign follows the number's: negating a positive number
/// leaves its whole part, numerator and denominator alone and sets the sign
/// exactly when the reading is not zero — with or without a whole part — so
/// the negative reads as `-` before the positive's text, and a negative
/// that rounds to zero reads `0` like its positive.
pub proof fn law_fraction_sign(n: Num, m: Num, den: u32)
    requires
        den > 0,
        n.spec_mant() > 0,
        m.spec_mant() == -n.spec_mant(),
        m.spec_exp() == n.spec_exp(),
    ensures
        !fraction_of(n, den as nat).0,
        fraction_of(m, den as nat).0 == (fraction_of(n, den as nat).1 > 0 || fraction_of(n, den as nat).2 > 0),
        fraction_of(m, den as nat).1 == fraction_of(n, den as nat).1,
        fraction_of(m, den as nat).2 == fraction_of(n, den as nat).2,
        fraction_of(m, den as nat).3 == fraction_of(n, den as nat).3,
        render_text(m, Format::Fraction(den)) == (if render_text(n, Format::Fraction(den)) == seq!['0'] {
            seq!['0']
        } else {
            seq!['-'] + render_text(n, Format::Fraction(den))
        }),
{
    let dn = den as nat;
    let p = fraction_of(n, dn);
    let total = half_away_div(mag(n) * dn, n.spec_exp());
    let num = total % dn;
    assert(mag(m) == mag(n));
    assert(total == p.1 * dn + num) by (nonlinear_arith)
        requires
            p.1 == total / dn,
            num == total % dn,
            dn > 0,
    ;
    if num != 0 {
        lemma_gcd_divides(num, dn);
        assert(num / gcd(num, dn) > 0) by (nonlinear_arith)
            requires
                gcd(num, dn) <= num,
                gcd(num, dn) > 0,
        ;
    }
    assert(p.1 > 0 ==> total >= dn) by (nonlinear_arith)
        requires
            total == p.1 * dn + num,
            dn > 0,
    ;
    assert((num > 0) == (p.2 > 0));
    assert(fraction_of(m, dn).0 == (total > 0));
    assert((total > 0) == (p.1 > 0 || p.2 > 0));
    let q = fraction_of(m, dn);
    assert(q.1 == p.1 && q.2 == p.2 && q.3 == p.3);
    let body: Seq<char> = if p.2 == 0 {
        digits_of(p.1)
    } else if p.1 == 0 {
        digits_of(p.2) + seq!['/'] + digits_of(p.3)
    } else {
        digits_of(p.1) + seq![' '] + digits_of(p.2) + seq!['/'] + digits_of(p.3)
    };
    let tn = render_text(n, Format::Fraction(den));
    let tm = render_text(m, Format::Fraction(den));
    assert(tn =~= body);
    lemma_digits_of_zero(p.1);
    lemma_digits_of_zero(p.2);
    lemma_digits_of_zero(p.3);
    if q.0 {
        assert(tm =~= seq!['-'] + body);
        if p.2 == 0 {
            assert(body != seq!['0']);
        } else {
            assert(body.len() >= 2);
            assert(body != seq!['0']);
        }
    } else {
        assert(tm =~= body);
        assert(p.1 == 0 && p.2 == 0);
        assert(body == seq!['0']);
    }
}

/// The fraction reading is the nearest multiple of `1/den` to the number,
/// ties away from zero, written as a whole part and a proper fraction whose
/// denominator divides `den` and whose value is the leftover count of
/// `1/den` steps; a whole reading keeps `den` as its denominator; and the
/// sign is set exactly when the number is negative and the reading is not
/// zero.
pub proof fn law_fraction_nearest(n: Num, den: u32)
    requires
        den > 0,
    ensures
        ({
            let p = fraction_of(n, den as nat);
            let big = pow10(n.spec_exp());
            let dn = den as nat;
            let steps = p.1 * dn + p.2 * (dn / p.3);
            &&& 1 <= p.3 <= dn
            &&& dn % p.3 == 0
            &&& p.2 < p.3
            &&& (p.2 == 0 ==> p.3 == den)
            &&& 2 * mag(n) * den - big < 2 * steps * big <= 2 * mag(n) * den + big
            &&& p.0 == (is_neg(n) && steps > 0)
        }),
{
    let dn = den as nat;
    let p = fraction_of(n, dn);
    let big = pow10(n.spec_exp());
    let a = mag(n) * dn;
    let total = half_away_div(a, n.spec_exp());
    let num = total % dn;
    lemma_pow10_pos(n.spec_exp());
    assert(total == p.1 * dn + num) by (nonlinear_arith)
        requires
            p.1 == total / dn,
            num == total % dn,
            dn > 0,
    ;
    if num != 0 {
        lemma_gcd_divides(num, dn);
        let g = gcd(num, dn);
        vstd::arithmetic::div_mod::lemma_fundamental_div_mod(num as int, g as int);
        vstd::arithmetic::div_mod::lemma_fundamental_div_mod(dn as int, g as int);
        assert(p.2 == num / g && p.3 == dn / g);
        assert(p.2 > 0 && p.3 >= 1 && p.3 <= dn && p.2 < p.3) by (nonlinear_arith)
            requires
                num == g * (num / g),
                dn == g * (dn / g),
                p.2 == num / g,
                p.3 == dn / g,
                g >= 1,
                0 < num < dn,
        ;
        assert(dn / p.3 == g) by (nonlinear_arith)
            requires
                dn == g * p.3,
                p.3 >= 1,
        ;
        assert(dn % p.3 == 0) by (nonlinear_arith)
            requires
                dn == g * p.3,
                p.3 >= 1,
        ;
        assert forall|k: nat| k > 1 implies !(#[trigger] (p.2 % k) == 0 && p.3 % k == 0) by {
            lemma_reduced_coprime(num, dn, k);
        }
        assert(p.2 * (dn / p.3) == num) by (nonlinear_arith)
            requires
                dn / p.3 == g,
                num == g * (num / g),
                p.2 == num / g,
        ;
    } else {
        vstd::arithmetic::div_mod::lemma_mod_self_0(dn as int);
    }
    let steps = p.1 * dn + p.2 * (dn / p.3);
    assert(steps == total);
    vstd::arithmetic::div_mod::lemma_fundamental_div_mod((2 * a + big) as int, (2 * big) as int);
    assert(2 * a - big < 2 * steps * big <= 2 * a + big) by (nonlinear_arith)
        requires
            steps == (2 * a + big) / (2 * big),
            2 * a + big == (2 * big) * ((2 * a + big) / (2 * big)) + (2 * a + big) % (2 * big),
            0 <= (2 * a + big) % (2 * big) < 2 * big,
            big > 0,
    ;
    assert(2 * mag(n) * den == 2 * a) by (nonlinear_arith)
        requires
            a == mag(n) * dn,
            dn == den,
    ;
}

} // verus!
