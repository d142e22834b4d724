//! The tokenizer itself: a loop over the characters that takes one step at
//! a time, each step proved to be the one `spec::step` describes.

use super::spec::{
    at, blank_end, comment_end, dec_value, digit_at, digits_end, ident_continue, ident_end, ident_start, is_digit, max_mant,
    first_byte, hex_digits, line_at, link_step, marker_at, num_of, punct, step, lexed, lex_from, ident_ends_at, number_end, number_step, number_value, off, quoted, span, string_from, toks_view, Kind,
    Side, Step,
};
use crate::render::fonts::trim;
use super::{DrawOp, LineStyle, LinkMarker, LinkOp, TokKind, Token};
use crate::error::{Error, Span};
use crate::resolve::Num;
use crate::text::chars_of;
use vstd::prelude::*;
use vstd::utf8::{char_is_scalar, encode_scalar, encode_utf8};

verus! {

// ───────────────────────── byte offsets ─────────────────────────

/// Encoding a text one character longer appends that character's bytes.
proof fn lemma_encode_push(a: Seq<char>, c: char)
    ensures
        encode_utf8(a.push(c)) == encode_utf8(a) + encode_scalar(c as u32),
    decreases a.len(),
{
    if a.len() == 0 {
        assert(a.push(c).drop_first() =~= Seq::<char>::empty());
        assert(encode_utf8(Seq::<char>::empty()) =~= Seq::<u8>::empty());
        assert(encode_utf8(a) =~= Seq::<u8>::empty());
        assert(encode_utf8(a.push(c)) =~= encode_scalar(c as u32));
    } else {
        assert(a.push(c).drop_first() =~= a.drop_first().push(c));
        lemma_encode_push(a.drop_first(), c);
        assert(encode_utf8(a.push(c)) =~= encode_utf8(a) + encode_scalar(c as u32));
    }
}

/// The UTF-8 width of a character.
pub open spec fn width(c: char) -> nat {
    encode_scalar(c as u32).len()
}

/// Each character takes one to four bytes.
proof fn lemma_width(c: char)
    ensures
        1 <= width(c) <= 4,
        (c as u32) <= 0x7f ==> width(c) == 1,
        0x80 <= (c as u32) <= 0x7ff ==> width(c) == 2,
        0x800 <= (c as u32) <= 0xffff ==> width(c) == 3,
        0x10000 <= (c as u32) ==> width(c) == 4,
{
    char_is_scalar(c);
}

/// The next character's offset is this one's plus its width.
proof fn lemma_off_step(s: Seq<char>, k: int)
    requires
        0 <= k < s.len(),
    ensures
        off(s, k + 1) == off(s, k) + width(s[k]),
{
    assert(s.take(k + 1) =~= s.take(k).push(s[k]));
    lemma_encode_push(s.take(k), s[k]);
}

/// Offsets grow with the position, strictly.
proof fn lemma_off_mono(s: Seq<char>, k: int, m: int)
    requires
        0 <= k <= m <= s.len(),
    ensures
        off(s, k) <= off(s, m),
        k < m ==> off(s, k) < off(s, m),
        off(s, k) + (m - k) <= off(s, m),
    decreases m - k,
{
    if k < m {
        lemma_off_mono(s, k + 1, m);
        lemma_off_step(s, k);
        lemma_width(s[k]);
    }
}

/// The whole text's offset is its byte length.
proof fn lemma_off_all(s: Seq<char>)
    ensures
        off(s, s.len() as int) == encode_utf8(s).len(),
{
    assert(s.take(s.len() as int) =~= s);
}

/// The UTF-8 width of `c`.
fn width_of(c: char) -> (w: usize)
    ensures
        w == width(c),
{
    proof {
        lemma_width(c);
    }
    let v = c as u32;
    if v <= 0x7f {
        1
    } else if v <= 0x7ff {
        2
    } else if v <= 0xffff {
        3
    } else {
        4
    }
}

/// The text, its characters, and the byte offset of every position.
struct Text {
    chars: Vec<char>,
    offs: Vec<usize>,
}

impl Text {
    spec fn wf(&self) -> bool {
        &&& self.offs@.len() == self.chars@.len() + 1
        &&& forall|k: int| 0 <= k <= self.chars@.len() ==> #[trigger] self.offs@[k] == off(self.chars@, k)
        &&& off(self.chars@, self.chars@.len() as int) <= usize::MAX
        &&& self.chars@.len() <= usize::MAX
    }

    spec fn s(&self) -> Seq<char> {
        self.chars@
    }

    fn new(src: &str) -> (t: Text)
        ensures
            t.wf(),
            t.chars@ == src@,
    {
        let chars = chars_of(src);
        let bytes = src.as_bytes();
        let nb = bytes.len();
        proof {
            broadcast use vstd::slice::axiom_spec_len;

            lemma_off_all(src@);
            assert(nb == bytes@.len());
        }
        let n = chars.len();
        let mut offs: Vec<usize> = Vec::new();
        let mut b: usize = 0;
        let mut k: usize = 0;
        proof {
            assert(src@.take(0) =~= Seq::<char>::empty());
        }
        while k < n
            invariant
                n == chars@.len(),
                chars@ == src@,
                k <= n,
                offs@.len() == k,
                b == off(src@, k as int),
                forall|j: int| 0 <= j < k ==> #[trigger] offs@[j] == off(src@, j),
                off(src@, n as int) <= usize::MAX,
            decreases n - k,
        {
            offs.push(b);
            proof {
                lemma_off_step(src@, k as int);
                lemma_off_mono(src@, k + 1, n as int);
            }
            let w = width_of(chars[k]);
            b = b + w;
            k = k + 1;
        }
        offs.push(b);
        proof {
            lemma_off_mono(src@, 0, n as int);
        }
        Text { chars, offs }
    }

    fn len(&self) -> (n: usize)
        ensures
            n == self.chars@.len(),
    {
        self.chars.len()
    }

    /// The span of characters `i..j`.
    fn span(&self, i: usize, j: usize) -> (sp: Span)
        requires
            self.wf(),
            i <= j <= self.chars@.len(),
        ensures
            sp == span(self.chars@, i as int, j as int),
            sp.start == off(self.chars@, i as int),
            sp.end == off(self.chars@, j as int),
            sp.start <= sp.end,
    {
        proof {
            lemma_off_mono(self.chars@, i as int, j as int);
        }
        Span { start: self.offs[i], end: self.offs[j] }
    }

    /// The one-byte span at character `i`'s first byte, `extra` bytes wider.
    fn byte_span(&self, i: usize, extra: usize) -> (sp: Span)
        requires
            self.wf(),
            i < self.chars@.len(),
            extra <= 1,
            extra == 1 ==> i + 1 < self.chars@.len(),
        ensures
            sp == (Span { start: off(self.chars@, i as int) as usize, end: (off(self.chars@, i as int) + 1 + extra) as usize }),
    {
        proof {
            lemma_off_mono(self.chars@, i as int, self.chars@.len() as int);
            if extra == 1 {
                lemma_off_mono(self.chars@, i as int, (i + 2) as int);
                lemma_off_mono(self.chars@, (i + 2) as int, self.chars@.len() as int);
            }
        }
        Span { start: self.offs[i], end: self.offs[i] + 1 + extra }
    }

    /// Whether character `i + k` exists and is `c`.
    fn at(&self, i: usize, k: usize, c: char) -> (b: bool)
        requires
            i <= self.chars@.len(),
        ensures
            b == at(self.chars@, i + k, c),
    {
        k < self.chars.len() - i && self.chars[i + k] == c
    }

    /// Whether character `i + k` exists and is a digit.
    fn digit_at(&self, i: usize, k: usize) -> (b: bool)
        requires
            i <= self.chars@.len(),
        ensures
            b == digit_at(self.chars@, i + k),
    {
        k < self.chars.len() - i && is_digit_c(self.chars[i + k])
    }

    /// The end of the digit run from `i`.
    fn digits_end(&self, i: usize) -> (j: usize)
        requires
            i <= self.chars@.len(),
        ensures
            j == digits_end(self.chars@, i as int),
            i <= j <= self.chars@.len(),
            digit_at(self.chars@, i as int) ==> j > i,
            forall|k: int| i <= k < j ==> is_digit(#[trigger] self.chars@[k]),
    {
        let mut j = i;
        while j < self.chars.len() && is_digit_c(self.chars[j])
            invariant
                i <= j <= self.chars@.len(),
                digits_end(self.chars@, i as int) == digits_end(self.chars@, j as int),
                forall|k: int| i <= k < j ==> is_digit(#[trigger] self.chars@[k]),
            decreases self.chars@.len() - j,
        {
            j = j + 1;
        }
        j
    }

    /// The end of the identifier run from `i`.
    fn ident_end(&self, i: usize, expr: bool) -> (j: usize)
        requires
            i <= self.chars@.len(),
        ensures
            j == ident_end(self.chars@, i as int, expr),
            i <= j <= self.chars@.len(),
            i < self.chars@.len() && ident_continue(self.chars@[i as int]) && !(expr && self.chars@[i as int] == '-')
                ==> j > i,
    {
        let mut j = i;
        while j < self.chars.len() && is_ident_continue(self.chars[j]) && !(expr && self.chars[j] == '-')
            invariant
                i <= j <= self.chars@.len(),
                ident_end(self.chars@, i as int, expr) == ident_end(self.chars@, j as int, expr),
            decreases self.chars@.len() - j,
        {
            j = j + 1;
        }
        j
    }

    /// The end of a line comment from `i`.
    fn comment_end(&self, i: usize) -> (j: usize)
        requires
            i <= self.chars@.len(),
        ensures
            j == comment_end(self.chars@, i as int),
            i <= j <= self.chars@.len(),
    {
        let mut j = i;
        while j < self.chars.len() && self.chars[j] != '\n'
            invariant
                i <= j <= self.chars@.len(),
                comment_end(self.chars@, i as int) == comment_end(self.chars@, j as int),
            decreases self.chars@.len() - j,
        {
            j = j + 1;
        }
        j
    }

    /// The end of the blank run from `i`.
    fn blank_end(&self, i: usize) -> (j: usize)
        requires
            i <= self.chars@.len(),
        ensures
            j == blank_end(self.chars@, i as int),
            i <= j <= self.chars@.len(),
    {
        let mut j = i;
        while j < self.chars.len() && (self.chars[j] == ' ' || self.chars[j] == '\t' || self.chars[j] == '\r'
            || self.chars[j] == '\n')
            invariant
                i <= j <= self.chars@.len(),
                blank_end(self.chars@, i as int) == blank_end(self.chars@, j as int),
            decreases self.chars@.len() - j,
        {
            j = j + 1;
        }
        j
    }
}

/// A character that can start a link op's line: `-` or `~`.
fn is_link_line_start(c: char) -> (b: bool)
    ensures
        b == (c == '-' || c == '~'),
{
    c == '-' || c == '~'
}

fn is_digit_c(c: char) -> (b: bool)
    ensures
        b == is_digit(c),
{
    '0' <= c && c <= '9'
}

fn is_ident_start(c: char) -> (b: bool)
    ensures
        b == ident_start(c),
{
    ('a' <= c && c <= 'z') || ('A' <= c && c <= 'Z') || c == '_'
}

fn is_ident_continue(c: char) -> (b: bool)
    ensures
        b == ident_continue(c),
{
    ('a' <= c && c <= 'z') || ('A' <= c && c <= 'Z') || ('0' <= c && c <= '9') || c == '_' || c == '-'
}

// ───────────────────────── tokens out ─────────────────────────

/// What a step did, against what `spec::step` says it does: moved to the
/// position and depth it names and emitted its tokens, or failed with its
/// error.
spec fn did(st: Step, depth: usize, r: Result<(usize, usize), Error>, before: Seq<Token>, after: Seq<Token>) -> bool {
    match st {
        Step::Skip(j) => r is Ok && r->Ok_0.0 == j && r->Ok_0.1 == depth && after == before,
        Step::Emit(ts, j, d) => r is Ok && r->Ok_0.0 == j && r->Ok_0.1 == d && toks_view(after) == toks_view(before)
            + ts,
        Step::Fail(sp, msg) => r is Err && r->Err_0.span == sp && r->Err_0.message@ == msg,
    }
}

/// `after` is `before` with tokens appended whose spans lie, in order,
/// within bytes `lo..hi`.
spec fn grew(before: Seq<Token>, after: Seq<Token>, lo: int, hi: int) -> bool {
    &&& before.len() <= after.len()
    &&& after.take(before.len() as int) == before
    &&& forall|k: int|
        before.len() <= k < after.len() ==> lo <= (#[trigger] after[k]).span.start <= after[k].span.end <= hi
    &&& forall|k: int| before.len() <= k && k + 1 < after.len() ==> (#[trigger] after[k]).span.end <= after[k + 1].span.start
}

/// Tokens whose spans run in source order, each within bytes `0..hi`.
pub open spec fn spans_in_order(toks: Seq<Token>, hi: int) -> bool {
    &&& forall|k: int| 0 <= k < toks.len() ==> (#[trigger] toks[k]).span.start <= toks[k].span.end <= hi
    &&& forall|k: int| 0 <= k && k + 1 < toks.len() ==> (#[trigger] toks[k]).span.end <= toks[k + 1].span.start
}

/// One token's growth.
proof fn lemma_grew_one(before: Seq<Token>, after: Seq<Token>, lo: int, hi: int)
    requires
        after.len() == before.len() + 1,
        after.take(before.len() as int) == before,
        lo <= after.last().span.start <= after.last().span.end <= hi,
    ensures
        grew(before, after, lo, hi),
{
}

/// No tokens appended is growth.
proof fn lemma_grew_none(toks: Seq<Token>, lo: int, hi: int)
    ensures
        grew(toks, toks, lo, hi),
{
    assert(toks.take(toks.len() as int) =~= toks);
}

/// Ordered tokens up to `lo`, grown within `lo..hi`, are ordered up to `hi`.
proof fn lemma_in_order_grew(before: Seq<Token>, after: Seq<Token>, lo: int, hi: int)
    requires
        spans_in_order(before, lo),
        grew(before, after, lo, hi),
        lo <= hi,
    ensures
        spans_in_order(after, hi),
{
    assert forall|k: int| 0 <= k < before.len() implies after[k] == before[k] by {
        assert(after.take(before.len() as int)[k] == before[k]);
    }
    assert forall|k: int| 0 <= k < after.len() implies (#[trigger] after[k]).span.start <= after[k].span.end <= hi by {
        if k < before.len() {
            assert(after[k] == before[k]);
        }
    }
    assert forall|k: int| 0 <= k && k + 1 < after.len() implies (#[trigger] after[k]).span.end <= after[k + 1].span.start by {
        if k + 1 < before.len() {
            assert(after[k] == before[k] && after[k + 1] == before[k + 1]);
        } else if k < before.len() {
            assert(after[k] == before[k]);
        }
    }
}

/// Append one token.
fn emit(toks: &mut Vec<Token>, kind: TokKind, sp: Span)
    ensures
        toks_view(final(toks)@) == toks_view(old(toks)@) + seq![(kind.kind(), sp)],
        final(toks)@.len() == old(toks)@.len() + 1,
        final(toks)@.take(old(toks)@.len() as int) == old(toks)@,
        final(toks)@.last().span == sp,
{
    let ghost k = kind.kind();
    toks.push(Token { kind, span: sp });
    proof {
        assert(toks_view(final(toks)@) =~= toks_view(old(toks)@) + seq![(k, sp)]);
        assert(final(toks)@.take(old(toks)@.len() as int) =~= old(toks)@);
    }
}

/// Append the characters `a..b` of `chars`.
fn push_chars(out: &mut String, chars: &Vec<char>, a: usize, b: usize)
    requires
        a <= b <= chars@.len(),
    ensures
        final(out)@ == old(out)@ + chars@.subrange(a as int, b as int),
{
    let mut k = a;
    while k < b
        invariant
            a <= k <= b <= chars@.len(),
            out@ == old(out)@ + chars@.subrange(a as int, k as int),
        decreases b - k,
    {
        out.push(chars[k]);
        k = k + 1;
        proof {
            assert(out@ =~= old(out)@ + chars@.subrange(a as int, k as int));
        }
    }
}

// ───────────────────────── numbers ─────────────────────────

/// `v` when it is at most `cap`, else nothing.
spec fn capped(v: nat, cap: nat) -> Option<u128> {
    if v <= cap {
        Some(v as u128)
    } else {
        None
    }
}

/// The cap on an exponent's digits: beyond it, the exponent dwarfs any
/// run of places a text can hold.
spec fn e_cap() -> nat {
    1_000_000_000_000_000_000_000_000_000_000
}

/// One more digit: ten times the value so far, plus the digit.
proof fn lemma_dec_push(x: Seq<char>, d: char)
    ensures
        dec_value(x.push(d)) == dec_value(x) * 10 + (d as int - '0' as int) as nat,
{
    assert(x.push(d).drop_last() =~= x);
}

impl Text {
    /// The capped value of `pre` followed by the digits `a..b`, given the
    /// capped value of `pre`.
    fn dec_extend(&self, a: usize, b: usize, cap: u128, acc: Option<u128>, Ghost(pre): Ghost<Seq<char>>) -> (r: Option<
        u128,
    >)
        requires
            a <= b <= self.chars@.len(),
            forall|k: int| a <= k < b ==> is_digit(#[trigger] self.chars@[k]),
            cap <= e_cap(),
            acc == capped(dec_value(pre), cap as nat),
        ensures
            r == capped(dec_value(pre + self.chars@.subrange(a as int, b as int)), cap as nat),
    {
        let mut acc = acc;
        let mut k = a;
        proof {
            assert(pre + self.chars@.subrange(a as int, a as int) =~= pre);
        }
        while k < b
            invariant
                a <= k <= b <= self.chars@.len(),
                forall|j: int| a <= j < b ==> is_digit(#[trigger] self.chars@[j]),
                cap <= e_cap(),
                acc == capped(dec_value(pre + self.chars@.subrange(a as int, k as int)), cap as nat),
            decreases b - k,
        {
            let ghost x = pre + self.chars@.subrange(a as int, k as int);
            let c = self.chars[k];
            proof {
                assert(is_digit(self.chars@[k as int]));
                assert(x.push(c) =~= pre + self.chars@.subrange(a as int, k + 1));
                lemma_dec_push(x, c);
            }
            let d = (c as u32 - '0' as u32) as u128;
            acc = match acc {
                Some(v) => {
                    let nv = v * 10 + d;
                    if nv <= cap {
                        Some(nv)
                    } else {
                        None
                    }
                },
                None => None,
            };
            k = k + 1;
        }
        acc
    }
}

/// Ten to the nineteenth passes every magnitude the model holds.
proof fn lemma_pow10_19()
    ensures
        crate::text::pow10(19) == 10_000_000_000_000_000_000,
{
    reveal_with_fuel(crate::text::pow10, 20);
}

/// The number `± mant × 10^(±ev − frac)`, from capped readings of `mant`
/// and `ev`.
fn num_from(
    neg: bool,
    mant: Option<u128>,
    frac: usize,
    eneg: bool,
    ev: Option<u128>,
    Ghost(m): Ghost<nat>,
    Ghost(e): Ghost<nat>,
) -> (r: Option<Num>)
    requires
        mant == capped(m, max_mant()),
        ev == capped(e, e_cap()),
    ensures
        r == num_of(neg, m, frac as nat, if eneg { -(e as int) } else { e as int }),
{
    let ghost ee: int = if eneg { -(e as int) } else { e as int };
    let ghost shift: int = ee - frac;
    match ev {
        None => {
            if eneg {
                proof {
                    assert(e > e_cap());
                    assert(shift < -18);
                }
                None
            } else {
                proof {
                    crate::ledger::format::numbers::lemma_pow10_mono(19, shift as nat);
                    lemma_pow10_19();
                }
                match mant {
                    Some(v) => if v == 0 {
                        proof {
                            assert(m == 0);
                            assert(m * crate::text::pow10(shift as nat) == 0) by (nonlinear_arith)
                                requires m == 0;
                        }
                        Some(Num::new(0, 0))
                    } else {
                        proof {
                            assert(m * crate::text::pow10(shift as nat) >= crate::text::pow10(shift as nat)) by (nonlinear_arith)
                                requires m >= 1, crate::text::pow10(shift as nat) >= 0;
                        }
                        None
                    },
                    None => {
                        proof {
                            crate::ledger::format::numbers::lemma_pow10_pos(shift as nat);
                            assert(m * crate::text::pow10(shift as nat) >= m) by (nonlinear_arith)
                                requires m >= 0, crate::text::pow10(shift as nat) >= 1;
                        }
                        None
                    },
                }
            }
        },
        Some(v) => {
            let sh: i128 = if eneg { -(v as i128) - frac as i128 } else { v as i128 - frac as i128 };
            if sh >= 0 {
                proof {
                    crate::ledger::format::numbers::lemma_pow10_pos(shift as nat);
                }
                match mant {
                    None => {
                        proof {
                            assert(m * crate::text::pow10(shift as nat) >= m) by (nonlinear_arith)
                                requires m >= 0, crate::text::pow10(shift as nat) >= 1;
                        }
                        None
                    },
                    Some(mv) => if mv == 0 {
                        proof {
                            assert(m == 0);
                            assert(m * crate::text::pow10(shift as nat) == 0) by (nonlinear_arith)
                                requires m == 0;
                        }
                        Some(Num::new(0, 0))
                    } else if sh > 18 {
                        proof {
                            crate::ledger::format::numbers::lemma_pow10_mono(19, shift as nat);
                            lemma_pow10_19();
                            assert(m * crate::text::pow10(shift as nat) >= crate::text::pow10(shift as nat)) by (nonlinear_arith)
                                requires m >= 1, crate::text::pow10(shift as nat) >= 0;
                        }
                        None
                    } else {
                        let p = crate::ledger::format::numbers::pow10_u128(sh as u32);
                        proof {
                            crate::resolve::lemma_pow10_bound(sh as nat);
                            assert(mv * p <= 0x7fff_ffff_ffff_ffff * 1_000_000_000_000_000_000) by (nonlinear_arith)
                                requires mv <= 0x7fff_ffff_ffff_ffff, p <= 1_000_000_000_000_000_000;
                        }
                        let prod = mv * p;
                        if prod <= 0x7fff_ffff_ffff_ffff {
                            let x = prod as i64;
                            Some(Num::new(if neg { -x } else { x }, 0))
                        } else {
                            None
                        }
                    },
                }
            } else if sh >= -18 {
                match mant {
                    Some(mv) => {
                        let x = mv as i64;
                        Some(Num::new(if neg { -x } else { x }, (-sh) as u32))
                    },
                    None => None,
                }
            } else {
                None
            }
        },
    }
}

/// Whether the number literal at `i` has a digit.
spec fn saw_digit(s: Seq<char>, i: int) -> bool {
    let a = if at(s, i, '+') || at(s, i, '-') { i + 1 } else { i };
    digit_at(s, a) || (at(s, digits_end(s, a), '.') && digit_at(s, digits_end(s, a) + 1))
}

impl Text {
    /// The pieces of the number literal at `i`: where its sign ends, its
    /// integer digits end, its places end, its exponent digits start, and
    /// where it ends.
    fn number_bounds(&self, i: usize, expr: bool) -> (r: (usize, usize, usize, usize, usize))
        requires
            self.wf(),
            i < self.chars@.len(),
        ensures
            r.0 == (if at(self.chars@, i as int, '+') || at(self.chars@, i as int, '-') { i + 1 } else { i as int }),
            r.1 == digits_end(self.chars@, r.0 as int),
            r.2 == (if at(self.chars@, r.1 as int, '.') && digit_at(self.chars@, r.1 + 1) {
                digits_end(self.chars@, r.1 + 1)
            } else {
                r.1 as int
            }),
            (r.2 > r.1) == (at(self.chars@, r.1 as int, '.') && digit_at(self.chars@, r.1 + 1)),
            r.4 == number_end(self.chars@, i as int, expr),
            r.4 > r.2 ==> r.3 == (if at(self.chars@, r.2 + 1, '+') || at(self.chars@, r.2 + 1, '-') {
                r.2 + 2
            } else {
                r.2 + 1
            }),
            r.4 > r.2 ==> r.2 < r.3 <= r.4,
            i <= r.0 <= r.1 <= r.2 <= r.4 <= self.chars@.len(),
            digit_at(self.chars@, r.0 as int) ==> r.1 > r.0,
            forall|k: int| r.0 <= k < r.1 ==> is_digit(#[trigger] self.chars@[k]),
            r.2 > r.1 ==> r.1 + 1 <= r.2 && forall|k: int| r.1 + 1 <= k < r.2 ==> is_digit(#[trigger] self.chars@[k]),
            r.4 > r.2 ==> forall|k: int| r.3 <= k < r.4 ==> is_digit(#[trigger] self.chars@[k]),
    {
        let a = if self.at(i, 0, '+') || self.at(i, 0, '-') {
            i + 1
        } else {
            i
        };
        let b = self.digits_end(a);
        let c = if self.at(b, 0, '.') && self.digit_at(b, 1) {
            self.digits_end(b + 1)
        } else {
            b
        };
        let mut end = c;
        let mut d = c;
        if expr && (self.at(c, 0, 'e') || self.at(c, 0, 'E')) {
            let dd = if self.at(c, 1, '+') || self.at(c, 1, '-') {
                c + 2
            } else {
                c + 1
            };
            if self.digit_at(dd, 0) {
                d = dd;
                end = self.digits_end(dd);
            }
        }
        (a, b, c, d, end)
    }

    /// What the number literal at `i` spells, if the model holds it.
    fn number_reading(&self, i: usize, expr: bool) -> (r: (usize, Option<Num>))
        requires
            self.wf(),
            i < self.chars@.len(),
        ensures
            r.0 == number_end(self.chars@, i as int, expr),
            r.1 == number_value(self.chars@, i as int, expr),
            i <= r.0 <= self.chars@.len(),
    {
        let ghost s = self.chars@;
        let (a, b, c, d, end) = self.number_bounds(i, expr);
        let dotted = c > b;
        let ghost int_part = s.subrange(a as int, b as int);
        let ghost frac: Seq<char> = if dotted {
            s.subrange(b + 1, c as int)
        } else {
            Seq::empty()
        };
        proof {
            assert(Seq::<char>::empty() + int_part =~= int_part);
            assert(int_part + Seq::<char>::empty() =~= int_part);
            assert(dec_value(Seq::<char>::empty()) == 0);
        }
        let mut mant = self.dec_extend(a, b, 0x7fff_ffff_ffff_ffff, Some(0), Ghost(Seq::empty()));
        if dotted {
            mant = self.dec_extend(b + 1, c, 0x7fff_ffff_ffff_ffff, mant, Ghost(int_part));
        }
        let frac_len: usize = if dotted {
            c - (b + 1)
        } else {
            0
        };
        let eneg = end > c && self.at(c, 1, '-');
        let ghost e_digits: Seq<char> = if end > c {
            s.subrange(d as int, end as int)
        } else {
            Seq::empty()
        };
        proof {
            assert(Seq::<char>::empty() + e_digits =~= e_digits);
        }
        let ev = if end > c {
            self.dec_extend(d, end, 1_000_000_000_000_000_000_000_000_000_000, Some(0), Ghost(Seq::empty()))
        } else {
            Some(0)
        };
        let value = num_from(
            neg_sign(self, i),
            mant,
            frac_len,
            eneg,
            ev,
            Ghost(dec_value(int_part + frac)),
            Ghost(dec_value(e_digits)),
        );
        (end, value)
    }

    /// The number literal at `i`.
    fn lex_number(&self, toks: &mut Vec<Token>, i: usize, expr: bool, depth: usize) -> (r: Result<(usize, usize), Error>)
        requires
            self.wf(),
            i < self.chars@.len(),
        ensures
            did(number_step(self.chars@, i as int, expr, depth as nat), depth, r, old(toks)@, final(toks)@),
            r is Ok ==> i < r->Ok_0.0 <= self.chars@.len() && r->Ok_0.1 == depth,
            r is Ok ==> grew(old(toks)@, final(toks)@, off(self.chars@, i as int), off(self.chars@, r->Ok_0.0 as int)),
    {
        let (a, b, _c, _d, _e) = self.number_bounds(i, expr);
        let saw = self.digit_at(a, 0) || (self.at(b, 0, '.') && self.digit_at(b, 1));
        let (end, value) = self.number_reading(i, expr);
        if !saw {
            return Err(Error::at(self.span(i, end), "invalid number literal"));
        }
        match value {
            None => {
                let mut msg = String::new();
                crate::text::push_str(&mut msg, "invalid number literal '");
                push_chars(&mut msg, &self.chars, i, end);
                msg.push('\'');
                proof {
                    assert(msg@ =~= "invalid number literal '"@ + self.chars@.subrange(i as int, end as int) + seq!['\'']);
                }
                Err(Error::with_message(self.span(i, end), msg))
            },
            Some(n) => {
                if self.at(end, 0, '%') {
                    emit(toks, TokKind::Percent(n), self.span(i, end + 1));
                    proof {
                        lemma_grew_one(old(toks)@, toks@, off(self.chars@, i as int), off(self.chars@, end + 1));
                    }
                    Ok((end + 1, depth))
                } else {
                    emit(toks, TokKind::Number(n), self.span(i, end));
                    proof {
                        lemma_grew_one(old(toks)@, toks@, off(self.chars@, i as int), off(self.chars@, end as int));
                    }
                    Ok((end, depth))
                }
            },
        }
    }
}

/// Whether the literal at `i` opens with a minus.
fn neg_sign(t: &Text, i: usize) -> (b: bool)
    requires
        i <= t.chars@.len(),
    ensures
        b == at(t.chars@, i as int, '-'),
{
    t.at(i, 0, '-')
}

// ───────────────────────── strings and messages ─────────────────────────

/// The first byte of `c`'s UTF-8 encoding, read alone as a character.
fn first_byte_of(c: char) -> (r: char)
    ensures
        r == first_byte(c),
        (r as u32) <= 0xff,
{
    proof {
        char_is_scalar(c);
    }
    let v = c as u32;
    let b: u8 = if v <= 0x7f {
        (v & 0x7f) as u8
    } else if v <= 0x7ff {
        0xC0u8 | ((v >> 6) & 0x1F) as u8
    } else if v <= 0xffff {
        0xE0u8 | ((v >> 12) & 0x0F) as u8
    } else {
        0xF0u8 | ((v >> 18) & 0x7) as u8
    };
    assert(b == encode_scalar(v)[0]);
    b as char
}

/// Append `c` (a Latin-1 character) quoted as Rust's `Debug` renders it.
fn push_quoted(out: &mut String, c: char)
    requires
        (c as u32) <= 0xff,
    ensures
        final(out)@ == old(out)@ + quoted(c),
{
    let v = c as u32;
    out.push('\'');
    let ghost mid = out@;
    if c == '\\' {
        out.push('\\');
        out.push('\\');
    } else if c == '\'' {
        out.push('\\');
        out.push('\'');
    } else if c == '\0' {
        out.push('\\');
        out.push('0');
    } else if c == '\t' {
        out.push('\\');
        out.push('t');
    } else if c == '\r' {
        out.push('\\');
        out.push('r');
    } else if c == '\n' {
        out.push('\\');
        out.push('n');
    } else if v < 0x20 || (0x7f <= v && v <= 0xa0) || v == 0xad {
        out.push('\\');
        out.push('u');
        out.push('{');
        if v >= 16 {
            out.push(crate::name::hex_digit(v / 16));
        }
        out.push(crate::name::hex_digit(v % 16));
        out.push('}');
        proof {
            let h = hex_digits(v as nat);
            if v >= 16 {
                assert(hex_digits((v / 16) as nat) == seq![crate::name::hex_char((v / 16) as int)]);
                assert(h =~= seq![crate::name::hex_char((v / 16) as int), crate::name::hex_char((v % 16) as int)]);
            } else {
                assert(h =~= seq![crate::name::hex_char(v as int)]);
            }
        }
    } else {
        out.push(c);
    }
    out.push('\'');
    proof {
        assert(final(out)@ =~= old(out)@ + quoted(c));
    }
}

impl Text {
    /// The string literal opening at `i`: the position after its closing
    /// quote and its characters read through the escapes, or the error.
    fn string_body(&self, i: usize) -> (r: Result<(usize, Vec<char>), Error>)
        requires
            self.wf(),
            i < self.chars@.len(),
        ensures
            match string_from(self.chars@, i as int, i + 1, Seq::empty()) {
                Ok((j, v)) => r is Ok && r->Ok_0.0 == j && r->Ok_0.1@ == v && i < j <= self.chars@.len(),
                Err((sp, msg)) => r is Err && r->Err_0.span == sp && r->Err_0.message@ == msg,
            },
    {
        let ghost s = self.chars@;
        let n = self.chars.len();
        let mut acc: Vec<char> = Vec::new();
        let mut j = i + 1;
        while j < n
            invariant
                self.wf(),
                s == self.chars@,
                n == s.len(),
                i < j <= n,
                string_from(s, i as int, i + 1, Seq::empty()) == string_from(s, i as int, j as int, acc@),
            decreases n - j,
        {
            let c = self.chars[j];
            if c == '"' {
                return Ok((j + 1, acc));
            }
            if c == '\\' {
                if j + 1 >= n {
                    return Err(Error::at(self.byte_span(j, 0), "unterminated escape sequence"));
                }
                let e = self.chars[j + 1];
                if e == '"' {
                    acc.push('"');
                } else if e == '\\' {
                    acc.push('\\');
                } else if e == 'n' {
                    acc.push('\n');
                } else if e == 't' {
                    acc.push('\t');
                } else {
                    let mut msg = String::new();
                    crate::text::push_str(&mut msg, "invalid escape sequence '\\");
                    msg.push(first_byte_of(e));
                    msg.push('\'');
                    proof {
                        assert(msg@ =~= "invalid escape sequence '\\"@ + seq![first_byte(e)] + seq!['\'']);
                    }
                    return Err(Error::with_message(self.byte_span(j, 1), msg));
                }
                j = j + 2;
            } else {
                acc.push(c);
                j = j + 1;
            }
        }
        Err(Error::at(self.span(i, n), "unterminated string literal"))
    }

    /// The string literal at `i`, its value trimmed of white space.
    fn lex_string(&self, toks: &mut Vec<Token>, i: usize, depth: usize) -> (r: Result<(usize, usize), Error>)
        requires
            self.wf(),
            i < self.chars@.len(),
        ensures
            did(
                match string_from(self.chars@, i as int, i + 1, Seq::empty()) {
                    Ok((j, value)) => Step::Emit(
                        seq![(Kind::Str(trim(value, false)), span(self.chars@, i as int, j))],
                        j,
                        depth as nat,
                    ),
                    Err((sp, msg)) => Step::Fail(sp, msg),
                },
                depth,
                r,
                old(toks)@,
                final(toks)@,
            ),
            r is Ok ==> i < r->Ok_0.0 <= self.chars@.len() && r->Ok_0.1 == depth,
            r is Ok ==> grew(old(toks)@, final(toks)@, off(self.chars@, i as int), off(self.chars@, r->Ok_0.0 as int)),
    {
        match self.string_body(i) {
            Err(e) => Err(e),
            Ok((j, acc)) => {
                let (x, y) = crate::render::fonts::trim_bounds(&acc, 0, acc.len(), false);
                proof {
                    assert(acc@.subrange(0, acc@.len() as int) =~= acc@);
                }
                let value = crate::render::rules::string_of(&acc, x, y);
                emit(toks, TokKind::String(value), self.span(i, j));
                proof {
                    lemma_grew_one(old(toks)@, toks@, off(self.chars@, i as int), off(self.chars@, j as int));
                }
                Ok((j, depth))
            },
        }
    }
}

// ───────────────────────── link ops ─────────────────────────

/// The marker result as the spec reads it.
spec fn marker_matches(r: Result<(LinkMarker, usize), Span>, m: Result<(LinkMarker, int), Span>) -> bool {
    match m {
        Ok((mk, q)) => r is Ok && r->Ok_0.0 == mk && r->Ok_0.1 == q,
        Err(sp) => r is Err && r->Err_0 == sp,
    }
}

impl Text {
    /// The marker at `p` on the given side.
    fn consume_marker(&self, p: usize, start: bool) -> (r: Result<(LinkMarker, usize), Span>)
        requires
            self.wf(),
            p <= self.chars@.len(),
        ensures
            marker_matches(r, marker_at(self.chars@, p as int, if start { Side::Start } else { Side::End })),
            r is Ok ==> p <= r->Ok_0.1 <= self.chars@.len(),
    {
        if self.at(p, 0, '<') && self.at(p, 1, '>') {
            return Ok((LinkMarker::Diamond, p + 2));
        }
        if p >= self.chars.len() {
            return Ok((LinkMarker::Absent, p));
        }
        let c = self.chars[p];
        if !start && (c == '+' || c == 'o') {
            let hit = if c == '+' && self.at(p, 1, '+') {
                Some((LinkMarker::ExactlyOne, 2usize))
            } else if c == '+' && self.at(p, 1, '<') {
                Some((LinkMarker::OneOrMany, 2))
            } else if c == '+' {
                Some((LinkMarker::One, 1))
            } else if self.at(p, 1, '+') {
                Some((LinkMarker::ZeroOrOne, 2))
            } else if self.at(p, 1, '<') {
                Some((LinkMarker::ZeroOrMany, 2))
            } else {
                None
            };
            return self.finish_cardinality(p, hit);
        }
        if start && (c == '+' || c == '>') {
            let hit = if c == '+' && self.at(p, 1, '+') {
                Some((LinkMarker::ExactlyOne, 2usize))
            } else if c == '+' && self.at(p, 1, 'o') {
                Some((LinkMarker::ZeroOrOne, 2))
            } else if c == '+' {
                Some((LinkMarker::One, 1))
            } else if self.at(p, 1, '+') {
                Some((LinkMarker::OneOrMany, 2))
            } else if self.at(p, 1, 'o') {
                Some((LinkMarker::ZeroOrMany, 2))
            } else {
                Some((LinkMarker::Crow, 1))
            };
            return self.finish_cardinality(p, hit);
        }
        if c == '<' && start {
            Ok((LinkMarker::Arrow, p + 1))
        } else if c == '<' {
            Ok((LinkMarker::Crow, p + 1))
        } else if c == '>' && !start {
            Ok((LinkMarker::Arrow, p + 1))
        } else if c == '*' {
            Ok((LinkMarker::Dot, p + 1))
        } else {
            Ok((LinkMarker::Absent, p))
        }
    }

    /// Land a composed cardinality marker, or the span of a bare `o`.
    fn finish_cardinality(&self, p: usize, hit: Option<(LinkMarker, usize)>) -> (r: Result<(LinkMarker, usize), Span>)
        requires
            self.wf(),
            p < self.chars@.len(),
            hit matches Some((_, n)) ==> 1 <= n <= 2 && (n == 2 ==> p + 1 < self.chars@.len()),
        ensures
            match hit {
                Some(h) => r is Ok && r->Ok_0.0 == h.0 && r->Ok_0.1 == p + h.1,
                None => r is Err && r->Err_0 == (Span {
                    start: (if off(self.chars@, p as int) >= 1 { off(self.chars@, p as int) - 1 } else { 0 }) as usize,
                    end: (off(self.chars@, p as int) + 1) as usize,
                }),
            },
    {
        match hit {
            Some(h) => Ok((h.0, p + h.1)),
            None => {
                let o = self.offs[p];
                proof {
                    lemma_off_mono(self.chars@, p as int, self.chars@.len() as int);
                }
                Err(Span { start: if o >= 1 { o - 1 } else { 0 }, end: o + 1 })
            },
        }
    }

    /// The line at `p`, with where it ends.
    fn consume_line(&self, p: usize) -> (r: Option<(LineStyle, usize)>)
        requires
            self.wf(),
            p <= self.chars@.len(),
        ensures
            match line_at(self.chars@, p as int) {
                Some((l, q)) => r is Some && r->Some_0.0 == l && r->Some_0.1 == q,
                None => r is None,
            },
            r is Some ==> p < r->Some_0.1 <= self.chars@.len(),
    {
        if self.at(p, 0, '-') && self.at(p, 1, '-') && self.at(p, 2, '-') {
            Some((LineStyle::Dotted, p + 3))
        } else if self.at(p, 0, '-') && self.at(p, 1, '-') {
            if 2 < self.chars.len() - p && is_ident_start(self.chars[p + 2]) {
                None
            } else {
                Some((LineStyle::Dashed, p + 2))
            }
        } else if self.at(p, 0, '-') {
            Some((LineStyle::Solid, p + 1))
        } else if self.at(p, 0, '~') {
            Some((LineStyle::Wavy, p + 1))
        } else {
            None
        }
    }

    /// The link op at `i`.
    fn lex_link_op(&self, toks: &mut Vec<Token>, i: usize, depth: usize) -> (r: Result<(usize, usize), Error>)
        requires
            self.wf(),
            i < self.chars@.len(),
        ensures
            did(link_step(self.chars@, i as int, depth as nat), depth, r, old(toks)@, final(toks)@),
            r is Ok ==> i < r->Ok_0.0 <= self.chars@.len() && r->Ok_0.1 == depth,
            r is Ok ==> grew(old(toks)@, final(toks)@, off(self.chars@, i as int), off(self.chars@, r->Ok_0.0 as int)),
    {
        let (start, p) = match self.consume_marker(i, true) {
            Err(sp) => {
                return Err(
                    Error::at(sp, "'-o' needs a max glyph — write '-o<', '-o+', or 'marker-end: circle'"),
                );
            },
            Ok(x) => x,
        };
        let (line, p2) = match self.consume_line(p) {
            None => {
                let q = if p > i + 1 {
                    p
                } else {
                    i + 1
                };
                let mut msg = String::new();
                crate::text::push_str(&mut msg, "expected link-op line after '");
                push_chars(&mut msg, &self.chars, i, q);
                msg.push('\'');
                proof {
                    assert(msg@ =~= "expected link-op line after '"@ + self.chars@.subrange(i as int, q as int) + seq!['\'']);
                }
                return Err(Error::with_message(self.span(i, q), msg));
            },
            Some(x) => x,
        };
        let (end, p3) = match self.consume_marker(p2, false) {
            Err(sp) => {
                return Err(
                    Error::at(sp, "'-o' needs a max glyph — write '-o<', '-o+', or 'marker-end: circle'"),
                );
            },
            Ok(x) => x,
        };
        emit(toks, TokKind::LinkOp(LinkOp { line, start, end }), self.span(i, p3));
        proof {
            lemma_grew_one(old(toks)@, toks@, off(self.chars@, i as int), off(self.chars@, p3 as int));
        }
        Ok((p3, depth))
    }
}

// ───────────────────────── one step ─────────────────────────

impl Text {
    /// One punctuation token of `len` characters.
    fn push_punct(&self, toks: &mut Vec<Token>, i: usize, kind: TokKind, len: usize, depth: usize) -> (r: Result<
        (usize, usize),
        Error,
    >)
        requires
            self.wf(),
            1 <= len,
            i + len <= self.chars@.len(),
        ensures
            did(punct(self.chars@, i as int, kind.kind(), len as int, depth as nat), depth, r, old(toks)@, final(toks)@),
            r is Ok ==> r->Ok_0.0 == i + len && r->Ok_0.1 == depth,
            r is Ok ==> grew(old(toks)@, final(toks)@, off(self.chars@, i as int), off(self.chars@, r->Ok_0.0 as int)),
    {
        emit(toks, kind, self.span(i, i + len));
        proof {
            lemma_grew_one(old(toks)@, toks@, off(self.chars@, i as int), off(self.chars@, (i + len) as int));
        }
        Ok((i + len, depth))
    }

    /// An error at character `i` with a fixed message.
    fn fail_at(&self, i: usize, len: usize, msg: &str) -> (e: Error)
        requires
            self.wf(),
            i + len <= self.chars@.len(),
        ensures
            e.span == span(self.chars@, i as int, i + len),
            e.message@ == msg@,
    {
        Error::at(self.span(i, i + len), msg)
    }

    /// A run of characters `a..b` as a string.
    fn text(&self, a: usize, b: usize) -> (r: String)
        requires
            a <= b <= self.chars@.len(),
        ensures
            r@ == self.chars@.subrange(a as int, b as int),
    {
        crate::render::rules::string_of(&self.chars, a, b)
    }

    /// The copy index after the `.` at `i`: the dot, then the digit run as a
    /// whole number.
    fn lex_copy_index(&self, toks: &mut Vec<Token>, i: usize, depth: usize) -> (r: Result<(usize, usize), Error>)
        requires
            self.wf(),
            i + 1 < self.chars@.len(),
            digit_at(self.chars@, i + 1),
        ensures
            did(
                {
                    let s = self.chars@;
                    let j = digits_end(s, i + 1);
                    match num_of(false, dec_value(s.subrange(i + 1, j)), 0, 0) {
                        Some(n) => Step::Emit(
                            seq![(Kind::Dot, span(s, i as int, i + 1)), (Kind::Number(n), span(s, i + 1, j))],
                            j,
                            depth as nat,
                        ),
                        None => Step::Fail(
                            span(s, i + 1, j),
                            "invalid number literal '"@ + s.subrange(i + 1, j) + seq!['\''],
                        ),
                    }
                },
                depth,
                r,
                old(toks)@,
                final(toks)@,
            ),
            r is Ok ==> i < r->Ok_0.0 <= self.chars@.len() && r->Ok_0.1 == depth,
            r is Ok ==> grew(old(toks)@, final(toks)@, off(self.chars@, i as int), off(self.chars@, r->Ok_0.0 as int)),
    {
        let ghost s = self.chars@;
        let j = self.digits_end(i + 1);
        proof {
            assert(Seq::<char>::empty() + s.subrange(i + 1, j as int) =~= s.subrange(i + 1, j as int));
            assert(dec_value(Seq::<char>::empty()) == 0);
        }
        let mant = self.dec_extend(i + 1, j, 0x7fff_ffff_ffff_ffff, Some(0), Ghost(Seq::empty()));
        let value = num_from(false, mant, 0, false, Some(0), Ghost(dec_value(s.subrange(i + 1, j as int))), Ghost(0));
        match value {
            Some(n) => {
                let ghost t0 = toks@;
                emit(toks, TokKind::Dot, self.span(i, i + 1));
                let ghost t1 = toks@;
                emit(toks, TokKind::Number(n), self.span(i + 1, j));
                proof {
                    lemma_off_mono(self.chars@, i + 1, j as int);
                    assert(toks@[t0.len() as int] == t1[t0.len() as int]) by {
                        assert(toks@.take(t1.len() as int)[t0.len() as int] == t1[t0.len() as int]);
                    }
                    assert(toks@.take(t0.len() as int) =~= t0) by {
                        assert forall|k: int| 0 <= k < t0.len() implies toks@[k] == t0[k] by {
                            assert(toks@.take(t1.len() as int)[k] == t1[k]);
                            assert(t1.take(t0.len() as int)[k] == t0[k]);
                        }
                    }
                    assert(grew(t0, toks@, off(self.chars@, i as int), off(self.chars@, j as int)));
                }
                proof {
                    assert(toks_view(final(toks)@) =~= toks_view(old(toks)@) + seq![
                        (Kind::Dot, span(s, i as int, i + 1)),
                        (Kind::Number(n), span(s, i + 1, j as int)),
                    ]);
                }
                Ok((j, depth))
            },
            None => {
                let mut msg = String::new();
                crate::text::push_str(&mut msg, "invalid number literal '");
                push_chars(&mut msg, &self.chars, i + 1, j);
                msg.push('\'');
                proof {
                    assert(msg@ =~= "invalid number literal '"@ + s.subrange(i + 1, j as int) + seq!['\'']);
                }
                Err(Error::with_message(self.span(i + 1, j), msg))
            },
        }
    }

    /// An unexpected character at `i`.
    fn unexpected(&self, i: usize) -> (e: Error)
        requires
            self.wf(),
            i < self.chars@.len(),
        ensures
            e.span == (Span { start: off(self.chars@, i as int) as usize, end: (off(self.chars@, i as int) + 1) as usize }),
            e.message@ == "unexpected character "@ + quoted(first_byte(self.chars@[i as int])),
    {
        let mut msg = String::new();
        crate::text::push_str(&mut msg, "unexpected character ");
        push_quoted(&mut msg, first_byte_of(self.chars[i]));
        proof {
            assert(msg@ =~= "unexpected character "@ + quoted(first_byte(self.chars@[i as int])));
        }
        Error::with_message(self.byte_span(i, 0), msg)
    }
}

impl Text {
    /// A newline at `i`: the blank run after it is skipped, and outside
    /// parens and expressions one `Newline` token stands for it.
    fn handle_newline(&self, toks: &mut Vec<Token>, i: usize, expr: bool, depth: usize) -> (r: Result<
        (usize, usize),
        Error,
    >)
        requires
            self.wf(),
            i < self.chars@.len(),
        ensures
            did(
                if depth == 0 && !expr {
                    Step::Emit(
                        seq![(Kind::Newline, Span { start: off(self.chars@, i as int) as usize, end: (off(self.chars@, i as int) + 1) as usize })],
                        blank_end(self.chars@, i + 1),
                        depth as nat,
                    )
                } else {
                    Step::Skip(blank_end(self.chars@, i + 1))
                },
                depth,
                r,
                old(toks)@,
                final(toks)@,
            ),
            r is Ok ==> i < r->Ok_0.0 <= self.chars@.len() && r->Ok_0.1 == depth,
            r is Ok ==> grew(old(toks)@, final(toks)@, off(self.chars@, i as int), off(self.chars@, r->Ok_0.0 as int)),
    {
        let j = self.blank_end(i + 1);
        proof {
            lemma_off_step(self.chars@, i as int);
            lemma_width(self.chars@[i as int]);
            lemma_off_mono(self.chars@, i + 1, j as int);
            lemma_off_mono(self.chars@, j as int, self.chars@.len() as int);
        }
        if depth == 0 && !expr {
            emit(toks, TokKind::Newline, self.byte_span(i, 0));
            proof {
                lemma_grew_one(old(toks)@, toks@, off(self.chars@, i as int), off(self.chars@, j as int));
            }
        } else {
            proof {
                lemma_grew_none(toks@, off(self.chars@, i as int), off(self.chars@, j as int));
            }
        }
        Ok((j, depth))
    }

    /// A `#` and the raw run of identifier characters after it.
    fn lex_hash(&self, toks: &mut Vec<Token>, i: usize, depth: usize) -> (r: Result<(usize, usize), Error>)
        requires
            self.wf(),
            i < self.chars@.len(),
        ensures
            did(
                {
                    let j = ident_end(self.chars@, i + 1, false);
                    Step::Emit(
                        seq![(Kind::Hash(self.chars@.subrange(i + 1, j)), span(self.chars@, i as int, j))],
                        j,
                        depth as nat,
                    )
                },
                depth,
                r,
                old(toks)@,
                final(toks)@,
            ),
            r is Ok ==> i < r->Ok_0.0 <= self.chars@.len() && r->Ok_0.1 == depth,
            r is Ok ==> grew(old(toks)@, final(toks)@, off(self.chars@, i as int), off(self.chars@, r->Ok_0.0 as int)),
    {
        let j = self.ident_end(i + 1, false);
        emit(toks, TokKind::Hash(self.text(i + 1, j)), self.span(i, j));
        proof {
            lemma_grew_one(old(toks)@, toks@, off(self.chars@, i as int), off(self.chars@, j as int));
        }
        Ok((j, depth))
    }

    /// A CSS var override `--name` at `i`.
    fn lex_raw_css_var(&self, toks: &mut Vec<Token>, i: usize, depth: usize) -> (r: Result<(usize, usize), Error>)
        requires
            self.wf(),
            i + 2 <= self.chars@.len(),
        ensures
            did(
                {
                    let j = ident_end(self.chars@, i + 2, false);
                    Step::Emit(
                        seq![(Kind::RawCssVar(self.chars@.subrange(i + 2, j)), span(self.chars@, i as int, j))],
                        j,
                        depth as nat,
                    )
                },
                depth,
                r,
                old(toks)@,
                final(toks)@,
            ),
            r is Ok ==> i < r->Ok_0.0 <= self.chars@.len() && r->Ok_0.1 == depth,
            r is Ok ==> grew(old(toks)@, final(toks)@, off(self.chars@, i as int), off(self.chars@, r->Ok_0.0 as int)),
    {
        let j = self.ident_end(i + 2, false);
        emit(toks, TokKind::RawCssVar(self.text(i + 2, j)), self.span(i, j));
        proof {
            lemma_grew_one(old(toks)@, toks@, off(self.chars@, i as int), off(self.chars@, j as int));
        }
        Ok((j, depth))
    }

    /// An identifier at `i` (in expression mode `-` ends it).
    fn lex_ident(&self, toks: &mut Vec<Token>, i: usize, expr: bool, depth: usize) -> (r: Result<(usize, usize), Error>)
        requires
            self.wf(),
            i < self.chars@.len(),
            ident_start(self.chars@[i as int]),
        ensures
            did(
                {
                    let j = ident_end(self.chars@, i as int, expr);
                    Step::Emit(
                        seq![(Kind::Ident(self.chars@.subrange(i as int, j)), span(self.chars@, i as int, j))],
                        j,
                        depth as nat,
                    )
                },
                depth,
                r,
                old(toks)@,
                final(toks)@,
            ),
            r is Ok ==> i < r->Ok_0.0 <= self.chars@.len() && r->Ok_0.1 == depth,
            r is Ok ==> grew(old(toks)@, final(toks)@, off(self.chars@, i as int), off(self.chars@, r->Ok_0.0 as int)),
    {
        let j = self.ident_end(i, expr);
        emit(toks, TokKind::Ident(self.text(i, j)), self.span(i, j));
        proof {
            lemma_grew_one(old(toks)@, toks@, off(self.chars@, i as int), off(self.chars@, j as int));
        }
        Ok((j, depth))
    }
}

impl Text {
    /// Whether the `.` at `i` opens a pattern-copy index: glued to a
    /// just-lexed identifier and followed by a digit, outside any math
    /// context. Everywhere else `.` and a digit stay a number.
    fn glued_copy_index(&self, i: usize, math: bool, after_ident: bool) -> (b: bool)
        requires
            i <= self.chars@.len(),
        ensures
            b == (!math && digit_at(self.chars@, i + 1) && after_ident),
    {
        !math && self.digit_at(i, 1) && after_ident
    }

    /// One lexing step at `i`.
    #[verifier::rlimit(40)]
    fn step(&self, toks: &mut Vec<Token>, i: usize, expr: bool, depth: usize, after_ident: bool) -> (r: Result<
        (usize, usize),
        Error,
    >)
        requires
            self.wf(),
            i < self.chars@.len(),
            depth <= i,
        ensures
            did(step(self.chars@, i as int, expr, depth as nat, after_ident), depth, r, old(toks)@, final(toks)@),
            r is Ok ==> i < r->Ok_0.0 <= self.chars@.len() && r->Ok_0.1 <= depth + 1,
            r is Ok ==> grew(old(toks)@, final(toks)@, off(self.chars@, i as int), off(self.chars@, r->Ok_0.0 as int)),
    {
        let c = self.chars[i];
        let math = depth > 0 || expr;
        if c == ' ' || c == '\t' || c == '\r' {
            proof {
                lemma_grew_none(toks@, off(self.chars@, i as int), off(self.chars@, i + 1));
            }
            Ok((i + 1, depth))
        } else if c == '\n' {
            self.handle_newline(toks, i, expr, depth)
        } else if c == '/' && self.at(i, 1, '/') {
            let j = self.comment_end(i + 1);
            proof {
                lemma_grew_none(toks@, off(self.chars@, i as int), off(self.chars@, j as int));
            }
            Ok((j, depth))
        } else if c == '{' {
            self.push_punct(toks, i, TokKind::LBrace, 1, depth)
        } else if c == '}' {
            self.push_punct(toks, i, TokKind::RBrace, 1, depth)
        } else if c == '(' {
            let glued = i > 0 && is_ident_continue(self.chars[i - 1]);
            if expr {
                self.push_punct(toks, i, TokKind::LParen, 1, depth + 1)
            } else if !glued && self.at(i, 1, '-') && self.at(i, 2, ')') {
                self.push_punct(toks, i, TokKind::DrawOp(DrawOp::Linear), 3, depth)
            } else if !glued && self.at(i, 1, 'o') && self.at(i, 2, ')') {
                self.push_punct(toks, i, TokKind::DrawOp(DrawOp::Round), 3, depth)
            } else if !glued && self.at(i, 1, '<') && self.at(i, 2, ')') {
                self.push_punct(toks, i, TokKind::DrawOp(DrawOp::Angle), 3, depth)
            } else if !glued && self.at(i, 1, '>') && self.at(i, 2, ')') {
                Err(self.fail_at(i, 3, "'(>)' is reserved — the angle op is '(<)'"))
            } else {
                self.push_punct(toks, i, TokKind::LParen, 1, depth + 1)
            }
        } else if c == ')' {
            self.push_punct(
                toks,
                i,
                TokKind::RParen,
                1,
                if depth > 0 {
                    depth - 1
                } else {
                    0
                },
            )
        } else if c == '[' {
            self.push_punct(toks, i, TokKind::LBracket, 1, depth)
        } else if c == ']' {
            self.push_punct(toks, i, TokKind::RBracket, 1, depth)
        } else if c == '|' {
            self.push_punct(toks, i, TokKind::Pipe, 1, depth)
        } else if c == ':' && self.at(i, 1, ':') {
            self.push_punct(toks, i, TokKind::DColon, 2, depth)
        } else if c == ':' {
            self.push_punct(toks, i, TokKind::Colon, 1, depth)
        } else if c == ';' {
            self.push_punct(toks, i, TokKind::Semi, 1, depth)
        } else if c == ',' {
            self.push_punct(toks, i, TokKind::Comma, 1, depth)
        } else if c == '&' {
            self.push_punct(toks, i, TokKind::Amp, 1, depth)
        } else if c == '=' && self.at(i, 1, '=') {
            self.push_punct(toks, i, TokKind::EqEq, 2, depth)
        } else if c == '=' {
            self.push_punct(toks, i, TokKind::Assign, 1, depth)
        } else if c == '!' && self.at(i, 1, '=') {
            self.push_punct(toks, i, TokKind::Ne, 2, depth)
        } else if c == '"' {
            self.lex_string(toks, i, depth)
        } else if c == '\'' {
            Err(self.fail_at(i, 1, "single quotes are not strings — use \"…\""))
        } else if c == '#' {
            self.lex_hash(toks, i, depth)
        } else if c == '.' {
            if self.glued_copy_index(i, math, after_ident) {
                self.lex_copy_index(toks, i, depth)
            } else if self.digit_at(i, 1) {
                self.lex_number(toks, i, expr, depth)
            } else {
                self.push_punct(toks, i, TokKind::Dot, 1, depth)
            }
        } else if c == '-' && !expr && self.at(i, 1, '-') && 2 < self.chars.len() - i && is_ident_start(self.chars[i + 2]) {
            self.lex_raw_css_var(toks, i, depth)
        } else if (c == '-' || c == '+') && !expr && (self.digit_at(i, 1) || (self.at(i, 1, '.') && self.digit_at(i, 2))) {
            self.lex_number(toks, i, expr, depth)
        } else if c == '-' && math {
            self.push_punct(toks, i, TokKind::Minus, 1, depth)
        } else if c == '+' && math {
            self.push_punct(toks, i, TokKind::Plus, 1, depth)
        } else if c == '*' && math {
            self.push_punct(toks, i, TokKind::Star, 1, depth)
        } else if c == '/' && math {
            self.push_punct(toks, i, TokKind::Slash, 1, depth)
        } else if c == '^' && math {
            self.push_punct(toks, i, TokKind::Caret, 1, depth)
        } else if c == '?' && math {
            self.push_punct(toks, i, TokKind::Question, 1, depth)
        } else if c == '<' && math && self.at(i, 1, '=') {
            self.push_punct(toks, i, TokKind::Le, 2, depth)
        } else if c == '<' && math {
            self.push_punct(toks, i, TokKind::Lt, 1, depth)
        } else if c == '>' && math && self.at(i, 1, '=') {
            self.push_punct(toks, i, TokKind::Ge, 2, depth)
        } else if c == '>' && math {
            self.push_punct(toks, i, TokKind::Gt, 1, depth)
        } else if c == '-' || c == '~' || c == '<' || c == '>' || c == '+' {
            self.lex_link_op(toks, i, depth)
        } else if c == '*' && i + 1 < self.chars.len() && is_link_line_start(self.chars[i + 1]) {
            self.lex_link_op(toks, i, depth)
        } else if c == '*' || c == '/' || c == '^' {
            Err(self.fail_at(i, 1, "math operators appear inside ( ) — e.g. padding: (8 * 2)"))
        } else if is_digit_c(c) {
            self.lex_number(toks, i, expr, depth)
        } else if is_ident_start(c) {
            self.lex_ident(toks, i, expr, depth)
        } else {
            Err(self.unexpected(i))
        }
    }
}

// ───────────────────────── the whole text ─────────────────────────

/// Lex `src`, in expression mode or not.
fn run(src: &str, expr: bool) -> (r: Result<Vec<Token>, Error>)
    ensures
        match lexed(src@, expr) {
            Ok(ts) => r is Ok && toks_view(r->Ok_0@) == ts,
            Err((sp, msg)) => r is Err && r->Err_0.span == sp && r->Err_0.message@ == msg,
        },
        r is Ok ==> spans_in_order(r->Ok_0@, encode_utf8(src@).len() as int),
{
    let text = Text::new(src);
    let n = text.len();
    let mut toks: Vec<Token> = Vec::new();
    let mut i: usize = 0;
    let mut depth: usize = 0;
    proof {
        assert(toks_view(toks@) =~= Seq::<(Kind, Span)>::empty());
    }
    while i < n
        invariant
            text.wf(),
            text.chars@ == src@,
            n == src@.len(),
            i <= n,
            depth <= i,
            lexed(src@, expr) == lex_from(src@, expr, i as int, depth as nat, toks_view(toks@)),
            spans_in_order(toks@, off(src@, i as int)),
        decreases n - i,
    {
        let k = toks.len();
        let after = if k > 0 {
            match &toks[k - 1].kind {
                TokKind::Ident(_) => toks[k - 1].span.end == text.offs[i],
                _ => false,
            }
        } else {
            false
        };
        assert(after == ident_ends_at(toks_view(toks@), off(src@, i as int)));
        let ghost before = toks@;
        match text.step(&mut toks, i, expr, depth, after) {
            Err(e) => {
                return Err(e);
            },
            Ok((j, d)) => {
                proof {
                    lemma_off_mono(src@, i as int, j as int);
                    lemma_in_order_grew(before, toks@, off(src@, i as int), off(src@, j as int));
                }
                i = j;
                depth = d;
            },
        }
    }
    proof {
        lemma_off_all(src@);
    }
    Ok(toks)
}

/// Tokenize a whole source: every token with its byte span, or the first
/// error. The spans run in source order and stay within the text.
pub fn lex(src: &str) -> (r: Result<Vec<Token>, Error>)
    ensures
        match lexed(src@, false) {
            Ok(ts) => r is Ok && toks_view(r->Ok_0@) == ts,
            Err((sp, msg)) => r is Err && r->Err_0.span == sp && r->Err_0.message@ == msg,
        },
        r is Ok ==> spans_in_order(r->Ok_0@, encode_utf8(src@).len() as int),
{
    run(src, false)
}

/// Tokenize an isolated `(…)` expression body: `-`/`+` are always
/// operators (never a signed number, so `r-1` is subtraction), `-` is not
/// an identifier character, scientific notation is a number, and newlines
/// are white space.
pub fn lex_expr(src: &str) -> (r: Result<Vec<Token>, Error>)
    ensures
        match lexed(src@, true) {
            Ok(ts) => r is Ok && toks_view(r->Ok_0@) == ts,
            Err((sp, msg)) => r is Err && r->Err_0.span == sp && r->Err_0.message@ == msg,
        },
        r is Ok ==> spans_in_order(r->Ok_0@, encode_utf8(src@).len() as int),
{
    run(src, true)
}

} // verus!
