//! What lexing a source means: the token (or the error) each position of
//! the text starts, and the run of them from the start to the end.
//! Positions are character indices; spans are UTF-8 byte offsets.

use super::{DrawOp, LineStyle, LinkMarker, LinkOp, TokKind, Token};
use crate::error::Span;
use crate::render::fonts::trim;
use crate::resolve::Num;
use vstd::prelude::*;
use vstd::utf8::{encode_scalar, encode_utf8};

verus! {

/// A token kind as the contracts read it: text by its characters.
pub enum Kind {
    Ident(Seq<char>),
    Str(Seq<char>),
    Number(Num),
    Percent(Num),
    Hash(Seq<char>),
    RawCssVar(Seq<char>),
    Pipe,
    Colon,
    DColon,
    Dot,
    Amp,
    Semi,
    Comma,
    LBrace,
    RBrace,
    LParen,
    RParen,
    LBracket,
    RBracket,
    Assign,
    Plus,
    Minus,
    Star,
    Slash,
    Caret,
    Lt,
    Le,
    Gt,
    Ge,
    EqEq,
    Ne,
    Question,
    Link(LinkOp),
    Draw(DrawOp),
    Newline,
}

impl TokKind {
    /// The kind as the contracts read it.
    pub open spec fn kind(self) -> Kind {
        match self {
            TokKind::Ident(s) => Kind::Ident(s@),
            TokKind::String(s) => Kind::Str(s@),
            TokKind::Number(n) => Kind::Number(n),
            TokKind::Percent(n) => Kind::Percent(n),
            TokKind::Hash(s) => Kind::Hash(s@),
            TokKind::RawCssVar(s) => Kind::RawCssVar(s@),
            TokKind::Pipe => Kind::Pipe,
            TokKind::Colon => Kind::Colon,
            TokKind::DColon => Kind::DColon,
            TokKind::Dot => Kind::Dot,
            TokKind::Amp => Kind::Amp,
            TokKind::Semi => Kind::Semi,
            TokKind::Comma => Kind::Comma,
            TokKind::LBrace => Kind::LBrace,
            TokKind::RBrace => Kind::RBrace,
            TokKind::LParen => Kind::LParen,
            TokKind::RParen => Kind::RParen,
            TokKind::LBracket => Kind::LBracket,
            TokKind::RBracket => Kind::RBracket,
            TokKind::Assign => Kind::Assign,
            TokKind::Plus => Kind::Plus,
            TokKind::Minus => Kind::Minus,
            TokKind::Star => Kind::Star,
            TokKind::Slash => Kind::Slash,
            TokKind::Caret => Kind::Caret,
            TokKind::Lt => Kind::Lt,
            TokKind::Le => Kind::Le,
            TokKind::Gt => Kind::Gt,
            TokKind::Ge => Kind::Ge,
            TokKind::EqEq => Kind::EqEq,
            TokKind::Ne => Kind::Ne,
            TokKind::Question => Kind::Question,
            TokKind::LinkOp(op) => Kind::Link(op),
            TokKind::DrawOp(op) => Kind::Draw(op),
            TokKind::Newline => Kind::Newline,
        }
    }
}

/// Tokens as the contracts read them.
pub open spec fn toks_view(toks: Seq<Token>) -> Seq<(Kind, Span)> {
    toks.map_values(|t: Token| (t.kind.kind(), t.span))
}

pub open spec fn is_digit(c: char) -> bool {
    '0' <= c <= '9'
}

pub open spec fn is_alpha(c: char) -> bool {
    ('a' <= c <= 'z') || ('A' <= c <= 'Z')
}

/// A character that can start an identifier.
pub open spec fn ident_start(c: char) -> bool {
    is_alpha(c) || c == '_'
}

/// A character that can continue an identifier.
pub open spec fn ident_continue(c: char) -> bool {
    is_alpha(c) || is_digit(c) || c == '_' || c == '-'
}

/// The byte offset of character `i`.
pub open spec fn off(s: Seq<char>, i: int) -> int {
    encode_utf8(s.take(i)).len() as int
}

/// The span of characters `i..j`.
pub open spec fn span(s: Seq<char>, i: int, j: int) -> Span {
    Span { start: off(s, i) as usize, end: off(s, j) as usize }
}

/// Whether character `i` exists and is `c`.
pub open spec fn at(s: Seq<char>, i: int, c: char) -> bool {
    0 <= i < s.len() && s[i] == c
}

/// Whether character `i` exists and is a digit.
pub open spec fn digit_at(s: Seq<char>, i: int) -> bool {
    0 <= i < s.len() && is_digit(s[i])
}

/// The end of the identifier run from `i` (in expression mode `-` ends it).
pub open spec fn ident_end(s: Seq<char>, i: int, expr: bool) -> int
    decreases s.len() - i,
{
    if 0 <= i < s.len() && ident_continue(s[i]) && !(expr && s[i] == '-') {
        ident_end(s, i + 1, expr)
    } else {
        i
    }
}

/// The end of the digit run from `i`.
pub open spec fn digits_end(s: Seq<char>, i: int) -> int
    decreases s.len() - i,
{
    if digit_at(s, i) {
        digits_end(s, i + 1)
    } else {
        i
    }
}

/// The end of a line comment from `i`: the next newline, or the end.
pub open spec fn comment_end(s: Seq<char>, i: int) -> int
    decreases s.len() - i,
{
    if 0 <= i < s.len() && s[i] != '\n' {
        comment_end(s, i + 1)
    } else {
        i
    }
}

/// The end of the blank run from `i`: spaces, tabs, returns and newlines.
pub open spec fn blank_end(s: Seq<char>, i: int) -> int
    decreases s.len() - i,
{
    if 0 <= i < s.len() && (s[i] == ' ' || s[i] == '\t' || s[i] == '\r' || s[i] == '\n') {
        blank_end(s, i + 1)
    } else {
        i
    }
}

/// The value of a run of decimal digits.
pub open spec fn dec_value(ds: Seq<char>) -> nat
    decreases ds.len(),
{
    if ds.len() == 0 {
        0
    } else {
        dec_value(ds.drop_last()) * 10 + (ds.last() as int - '0' as int) as nat
    }
}

/// The largest magnitude a number literal may spell.
pub open spec fn max_mant() -> nat {
    0x7fff_ffff_ffff_ffff
}

/// The number `± mant × 10^(e − frac)` as written, when it fits the number
/// model: at most 18 places and an `i64` of digits.
pub open spec fn num_of(neg: bool, mant: nat, frac: nat, e: int) -> Option<Num> {
    let shift = e - frac;
    if shift >= 0 {
        let m: int = mant * crate::text::pow10(shift as nat);
        if m <= max_mant() {
            Some(Num::spec_new((if neg { -m } else { m }) as i64, 0))
        } else {
            None
        }
    } else if -shift <= 18 && mant <= max_mant() {
        Some(Num::spec_new((if neg { -(mant as int) } else { mant as int }) as i64, (-shift) as u32))
    } else {
        None
    }
}

/// Where a number literal starting at `i` ends: an optional sign, digits, an
/// optional `.` and digits, and — in expression mode only — an exponent
/// (backed off when no exponent digit follows).
pub open spec fn number_end(s: Seq<char>, i: int, expr: bool) -> int {
    let a = if at(s, i, '+') || at(s, i, '-') { i + 1 } else { i };
    let b = digits_end(s, a);
    let c = if at(s, b, '.') && digit_at(s, b + 1) { digits_end(s, b + 1) } else { b };
    if expr && (at(s, c, 'e') || at(s, c, 'E')) {
        let d = if at(s, c + 1, '+') || at(s, c + 1, '-') { c + 2 } else { c + 1 };
        if digit_at(s, d) {
            digits_end(s, d)
        } else {
            c
        }
    } else {
        c
    }
}

/// The value a number literal at `i` spells, if the model holds it.
pub open spec fn number_value(s: Seq<char>, i: int, expr: bool) -> Option<Num> {
    let neg = at(s, i, '-');
    let a = if at(s, i, '+') || at(s, i, '-') { i + 1 } else { i };
    let b = digits_end(s, a);
    let dotted = at(s, b, '.') && digit_at(s, b + 1);
    let c = if dotted { digits_end(s, b + 1) } else { b };
    let frac: Seq<char> = if dotted { s.subrange(b + 1, c) } else { Seq::empty() };
    let mant = dec_value(s.subrange(a, b) + frac);
    let end = number_end(s, i, expr);
    let e: int = if end > c {
        let d = if at(s, c + 1, '+') || at(s, c + 1, '-') { c + 2 } else { c + 1 };
        let ev = dec_value(s.subrange(d, end)) as int;
        if at(s, c + 1, '-') { -ev } else { ev }
    } else {
        0
    };
    num_of(neg, mant, frac.len(), e)
}

/// The character a byte reads as when taken alone (the first byte of a
/// character's UTF-8 encoding, read as Latin-1).
pub open spec fn first_byte(c: char) -> char {
    encode_scalar(c as u32)[0] as char
}

/// A Latin-1 character quoted the way Rust's `Debug` for `char` renders
/// it: the short escapes, a backslash or quote escaped, the other
/// unprintable ones as `\u{…}`, the rest as is.
pub open spec fn quoted(c: char) -> Seq<char> {
    let v = c as u32;
    seq!['\''] + (if c == '\\' {
        seq!['\\', '\\']
    } else if c == '\'' {
        seq!['\\', '\'']
    } else if c == '\0' {
        seq!['\\', '0']
    } else if c == '\t' {
        seq!['\\', 't']
    } else if c == '\r' {
        seq!['\\', 'r']
    } else if c == '\n' {
        seq!['\\', 'n']
    } else if v < 0x20 || (0x7f <= v <= 0xa0) || v == 0xad {
        seq!['\\', 'u', '{'] + hex_digits(v as nat) + seq!['}']
    } else {
        seq![c]
    }) + seq!['\'']
}

/// Lowercase hex digits of `v`, no leading zeros.
pub open spec fn hex_digits(v: nat) -> Seq<char>
    decreases v,
{
    if v < 16 {
        seq![crate::name::hex_char(v as int)]
    } else {
        hex_digits(v / 16).push(crate::name::hex_char((v % 16) as int))
    }
}

/// What a string literal opening at `start` reads: scanning from `j` with
/// `acc` read so far, the position after the closing quote and the value, or
/// the error.
pub open spec fn string_from(s: Seq<char>, start: int, j: int, acc: Seq<char>) -> Result<(int, Seq<char>), (Span, Seq<char>)>
    decreases s.len() - j,
{
    if j < 0 || j >= s.len() {
        Err((span(s, start, s.len() as int), "unterminated string literal"@))
    } else if s[j] == '"' {
        Ok((j + 1, acc))
    } else if s[j] == '\\' {
        if j + 1 >= s.len() {
            Err((Span { start: off(s, j) as usize, end: (off(s, j) + 1) as usize }, "unterminated escape sequence"@))
        } else {
            let c = s[j + 1];
            if c == '"' {
                string_from(s, start, j + 2, acc.push('"'))
            } else if c == '\\' {
                string_from(s, start, j + 2, acc.push('\\'))
            } else if c == 'n' {
                string_from(s, start, j + 2, acc.push('\n'))
            } else if c == 't' {
                string_from(s, start, j + 2, acc.push('\t'))
            } else {
                Err((
                    Span { start: off(s, j) as usize, end: (off(s, j) + 2) as usize },
                    "invalid escape sequence '\\"@ + seq![first_byte(c)] + seq!['\''],
                ))
            }
        }
    } else {
        string_from(s, start, j + 1, acc.push(s[j]))
    }
}

/// Which end of a link op a marker sits on.
pub enum Side {
    Start,
    End,
}

/// The marker at `p` on `side`, with where it ends — or the span of a bare
/// `o` that names no max glyph.
pub open spec fn marker_at(s: Seq<char>, p: int, side: Side) -> Result<(LinkMarker, int), Span> {
    if at(s, p, '<') && at(s, p + 1, '>') {
        Ok((LinkMarker::Diamond, p + 2))
    } else if !(0 <= p < s.len()) {
        Ok((LinkMarker::Absent, p))
    } else {
        let c = s[p];
        let card: Option<Option<(LinkMarker, int)>> = match side {
            Side::End => if c == '+' || c == 'o' {
                Some(
                    if c == '+' && at(s, p + 1, '+') {
                        Some((LinkMarker::ExactlyOne, 2int))
                    } else if c == '+' && at(s, p + 1, '<') {
                        Some((LinkMarker::OneOrMany, 2int))
                    } else if c == '+' {
                        Some((LinkMarker::One, 1int))
                    } else if at(s, p + 1, '+') {
                        Some((LinkMarker::ZeroOrOne, 2int))
                    } else if at(s, p + 1, '<') {
                        Some((LinkMarker::ZeroOrMany, 2int))
                    } else {
                        None
                    },
                )
            } else {
                None
            },
            Side::Start => if c == '+' || c == '>' {
                Some(
                    if c == '+' && at(s, p + 1, '+') {
                        Some((LinkMarker::ExactlyOne, 2int))
                    } else if c == '+' && at(s, p + 1, 'o') {
                        Some((LinkMarker::ZeroOrOne, 2int))
                    } else if c == '+' {
                        Some((LinkMarker::One, 1int))
                    } else if at(s, p + 1, '+') {
                        Some((LinkMarker::OneOrMany, 2int))
                    } else if at(s, p + 1, 'o') {
                        Some((LinkMarker::ZeroOrMany, 2int))
                    } else {
                        Some((LinkMarker::Crow, 1int))
                    },
                )
            } else {
                None
            },
        };
        match card {
            Some(Some((m, n))) => Ok((m, p + n)),
            Some(None) => Err(
                Span {
                    start: (if off(s, p) >= 1 { off(s, p) - 1 } else { 0 }) as usize,
                    end: (off(s, p) + 1) as usize,
                },
            ),
            None => if c == '<' && side is Start {
                Ok((LinkMarker::Arrow, p + 1))
            } else if c == '<' {
                Ok((LinkMarker::Crow, p + 1))
            } else if c == '>' && side is End {
                Ok((LinkMarker::Arrow, p + 1))
            } else if c == '*' {
                Ok((LinkMarker::Dot, p + 1))
            } else {
                Ok((LinkMarker::Absent, p))
            },
        }
    }
}

/// The line at `p`, with where it ends: longest match first; `--` before an
/// identifier start is no line.
pub open spec fn line_at(s: Seq<char>, p: int) -> Option<(LineStyle, int)> {
    if at(s, p, '-') && at(s, p + 1, '-') && at(s, p + 2, '-') {
        Some((LineStyle::Dotted, p + 3))
    } else if at(s, p, '-') && at(s, p + 1, '-') {
        if 0 <= p + 2 < s.len() && ident_start(s[p + 2]) {
            None
        } else {
            Some((LineStyle::Dashed, p + 2))
        }
    } else if at(s, p, '-') {
        Some((LineStyle::Solid, p + 1))
    } else if at(s, p, '~') {
        Some((LineStyle::Wavy, p + 1))
    } else {
        None
    }
}

/// What one lexing step at `i` does: skip ahead, emit tokens and move on
/// (with the new paren depth), or fail.
pub enum Step {
    Skip(int),
    Emit(Seq<(Kind, Span)>, int, nat),
    Fail(Span, Seq<char>),
}

/// One punctuation token of `len` characters.
pub open spec fn punct(s: Seq<char>, i: int, kind: Kind, len: int, depth: nat) -> Step {
    Step::Emit(seq![(kind, span(s, i, i + len))], i + len, depth)
}

/// The message for a bare math operator.
pub open spec fn bare_math_message() -> Seq<char> {
    "math operators appear inside ( ) — e.g. padding: (8 * 2)"@
}

/// The link op at `i`.
pub open spec fn link_step(s: Seq<char>, i: int, depth: nat) -> Step {
    match marker_at(s, i, Side::Start) {
        Err(sp) => Step::Fail(sp, "'-o' needs a max glyph — write '-o<', '-o+', or 'marker-end: circle'"@),
        Ok((start, p)) => match line_at(s, p) {
            None => {
                let q = if p > i + 1 { p } else { i + 1 };
                Step::Fail(span(s, i, q), "expected link-op line after '"@ + s.subrange(i, q) + seq!['\''])
            },
            Some((line, p2)) => match marker_at(s, p2, Side::End) {
                Err(sp) => Step::Fail(sp, "'-o' needs a max glyph — write '-o<', '-o+', or 'marker-end: circle'"@),
                Ok((end, p3)) => Step::Emit(
                    seq![(Kind::Link(LinkOp { line, start, end }), span(s, i, p3))],
                    p3,
                    depth,
                ),
            },
        },
    }
}

/// The number literal at `i`.
pub open spec fn number_step(s: Seq<char>, i: int, expr: bool, depth: nat) -> Step {
    let end = number_end(s, i, expr);
    let a = if at(s, i, '+') || at(s, i, '-') { i + 1 } else { i };
    let saw = digit_at(s, a) || (at(s, digits_end(s, a), '.') && digit_at(s, digits_end(s, a) + 1));
    if !saw {
        Step::Fail(span(s, i, end), "invalid number literal"@)
    } else {
        match number_value(s, i, expr) {
            None => Step::Fail(span(s, i, end), "invalid number literal '"@ + s.subrange(i, end) + seq!['\'']),
            Some(n) => if at(s, end, '%') {
                Step::Emit(seq![(Kind::Percent(n), span(s, i, end + 1))], end + 1, depth)
            } else {
                Step::Emit(seq![(Kind::Number(n), span(s, i, end))], end, depth)
            },
        }
    }
}

/// What lexing does at `i`, given the paren depth and whether the last
/// token is an identifier ending right here.
pub open spec fn step(s: Seq<char>, i: int, expr: bool, depth: nat, after_ident: bool) -> Step {
    let c = s[i];
    let math = depth > 0 || expr;
    if c == ' ' || c == '\t' || c == '\r' {
        Step::Skip(i + 1)
    } else if c == '\n' {
        let j = blank_end(s, i + 1);
        if depth == 0 && !expr {
            Step::Emit(seq![(Kind::Newline, Span { start: off(s, i) as usize, end: (off(s, i) + 1) as usize })], j, depth)
        } else {
            Step::Skip(j)
        }
    } else if c == '/' && at(s, i + 1, '/') {
        Step::Skip(comment_end(s, i + 1))
    } else if c == '{' {
        punct(s, i, Kind::LBrace, 1, depth)
    } else if c == '}' {
        punct(s, i, Kind::RBrace, 1, depth)
    } else if c == '(' {
        let glued = i > 0 && ident_continue(s[i - 1]);
        if expr {
            punct(s, i, Kind::LParen, 1, depth + 1)
        } else if !glued && at(s, i + 1, '-') && at(s, i + 2, ')') {
            punct(s, i, Kind::Draw(DrawOp::Linear), 3, depth)
        } else if !glued && at(s, i + 1, 'o') && at(s, i + 2, ')') {
            punct(s, i, Kind::Draw(DrawOp::Round), 3, depth)
        } else if !glued && at(s, i + 1, '<') && at(s, i + 2, ')') {
            punct(s, i, Kind::Draw(DrawOp::Angle), 3, depth)
        } else if !glued && at(s, i + 1, '>') && at(s, i + 2, ')') {
            Step::Fail(span(s, i, i + 3), "'(>)' is reserved — the angle op is '(<)'"@)
        } else {
            punct(s, i, Kind::LParen, 1, depth + 1)
        }
    } else if c == ')' {
        punct(s, i, Kind::RParen, 1, if depth > 0 { (depth - 1) as nat } else { 0 })
    } else if c == '[' {
        punct(s, i, Kind::LBracket, 1, depth)
    } else if c == ']' {
        punct(s, i, Kind::RBracket, 1, depth)
    } else if c == '|' {
        punct(s, i, Kind::Pipe, 1, depth)
    } else if c == ':' && at(s, i + 1, ':') {
        punct(s, i, Kind::DColon, 2, depth)
    } else if c == ':' {
        punct(s, i, Kind::Colon, 1, depth)
    } else if c == ';' {
        punct(s, i, Kind::Semi, 1, depth)
    } else if c == ',' {
        punct(s, i, Kind::Comma, 1, depth)
    } else if c == '&' {
        punct(s, i, Kind::Amp, 1, depth)
    } else if c == '=' && at(s, i + 1, '=') {
        punct(s, i, Kind::EqEq, 2, depth)
    } else if c == '=' {
        punct(s, i, Kind::Assign, 1, depth)
    } else if c == '!' && at(s, i + 1, '=') {
        punct(s, i, Kind::Ne, 2, depth)
    } else if c == '"' {
        match string_from(s, i, i + 1, Seq::empty()) {
            Ok((j, value)) => Step::Emit(seq![(Kind::Str(trim(value, false)), span(s, i, j))], j, depth),
            Err((sp, msg)) => Step::Fail(sp, msg),
        }
    } else if c == '\'' {
        Step::Fail(span(s, i, i + 1), "single quotes are not strings — use \"…\""@)
    } else if c == '#' {
        let j = ident_end(s, i + 1, false);
        Step::Emit(seq![(Kind::Hash(s.subrange(i + 1, j)), span(s, i, j))], j, depth)
    } else if c == '.' {
        if !math && digit_at(s, i + 1) && after_ident {
            let j = digits_end(s, i + 1);
            match num_of(false, dec_value(s.subrange(i + 1, j)), 0, 0) {
                Some(n) => Step::Emit(
                    seq![(Kind::Dot, span(s, i, i + 1)), (Kind::Number(n), span(s, i + 1, j))],
                    j,
                    depth,
                ),
                None => Step::Fail(span(s, i + 1, j), "invalid number literal '"@ + s.subrange(i + 1, j) + seq!['\'']),
            }
        } else if digit_at(s, i + 1) {
            number_step(s, i, expr, depth)
        } else {
            punct(s, i, Kind::Dot, 1, depth)
        }
    } else if c == '-' && !expr && at(s, i + 1, '-') && 0 <= i + 2 < s.len() && ident_start(s[i + 2]) {
        let j = ident_end(s, i + 2, false);
        Step::Emit(seq![(Kind::RawCssVar(s.subrange(i + 2, j)), span(s, i, j))], j, depth)
    } else if (c == '-' || c == '+') && !expr && (digit_at(s, i + 1) || (at(s, i + 1, '.') && digit_at(s, i + 2))) {
        number_step(s, i, expr, depth)
    } else if c == '-' && math {
        punct(s, i, Kind::Minus, 1, depth)
    } else if c == '+' && math {
        punct(s, i, Kind::Plus, 1, depth)
    } else if c == '*' && math {
        punct(s, i, Kind::Star, 1, depth)
    } else if c == '/' && math {
        punct(s, i, Kind::Slash, 1, depth)
    } else if c == '^' && math {
        punct(s, i, Kind::Caret, 1, depth)
    } else if c == '?' && math {
        punct(s, i, Kind::Question, 1, depth)
    } else if c == '<' && math && at(s, i + 1, '=') {
        punct(s, i, Kind::Le, 2, depth)
    } else if c == '<' && math {
        punct(s, i, Kind::Lt, 1, depth)
    } else if c == '>' && math && at(s, i + 1, '=') {
        punct(s, i, Kind::Ge, 2, depth)
    } else if c == '>' && math {
        punct(s, i, Kind::Gt, 1, depth)
    } else if c == '-' || c == '~' || c == '<' || c == '>' || c == '+' {
        link_step(s, i, depth)
    } else if c == '*' && (at(s, i + 1, '-') || at(s, i + 1, '~')) {
        link_step(s, i, depth)
    } else if c == '*' || c == '/' || c == '^' {
        Step::Fail(span(s, i, i + 1), bare_math_message())
    } else if is_digit(c) {
        number_step(s, i, expr, depth)
    } else if ident_start(c) {
        let j = ident_end(s, i, expr);
        Step::Emit(seq![(Kind::Ident(s.subrange(i, j)), span(s, i, j))], j, depth)
    } else {
        Step::Fail(
            Span { start: off(s, i) as usize, end: (off(s, i) + 1) as usize },
            "unexpected character "@ + quoted(first_byte(c)),
        )
    }
}

/// Whether the last token read is an identifier ending at byte `b`.
pub open spec fn ident_ends_at(toks: Seq<(Kind, Span)>, b: int) -> bool {
    toks.len() > 0 && toks.last().0 is Ident && toks.last().1.end == b
}

/// Lexing from position `i` with paren depth `depth`, `toks` read so far:
/// every token to the end, or the first error.
pub open spec fn lex_from(s: Seq<char>, expr: bool, i: int, depth: nat, toks: Seq<(Kind, Span)>) -> Result<
    Seq<(Kind, Span)>,
    (Span, Seq<char>),
>
    decreases s.len() - i,
{
    if i < 0 || i >= s.len() {
        Ok(toks)
    } else {
        match step(s, i, expr, depth, ident_ends_at(toks, off(s, i))) {
            Step::Skip(j) => if i < j <= s.len() {
                lex_from(s, expr, j, depth, toks)
            } else {
                Ok(toks)
            },
            Step::Emit(ts, j, d) => if i < j <= s.len() {
                lex_from(s, expr, j, d, toks + ts)
            } else {
                Ok(toks)
            },
            Step::Fail(sp, msg) => Err((sp, msg)),
        }
    }
}

/// Lexing a whole text: the tokens, or the first error.
pub open spec fn lexed(s: Seq<char>, expr: bool) -> Result<Seq<(Kind, Span)>, (Span, Seq<char>)> {
    lex_from(s, expr, 0, 0, Seq::empty())
}

/// No token of a sequence is a newline.
pub open spec fn no_newlines(ts: Seq<(Kind, Span)>) -> bool {
    forall|k: int| 0 <= k < ts.len() ==> (#[trigger] ts[k]).0 !is Newline
}

/// A step in expression mode emits no newline.
proof fn lemma_expr_step_no_newline(s: Seq<char>, i: int, depth: nat, after_ident: bool)
    requires
        0 <= i < s.len(),
    ensures
        step(s, i, true, depth, after_ident) matches Step::Emit(ts, _, _) ==> no_newlines(ts),
{
}

/// Lexing on from `toks` without newlines in expression mode adds none.
proof fn lemma_expr_lex_no_newlines(s: Seq<char>, i: int, depth: nat, toks: Seq<(Kind, Span)>)
    requires
        no_newlines(toks),
    ensures
        lex_from(s, true, i, depth, toks) matches Ok(ts) ==> no_newlines(ts),
    decreases s.len() - i,
{
    if 0 <= i < s.len() {
        let ai = ident_ends_at(toks, off(s, i));
        lemma_expr_step_no_newline(s, i, depth, ai);
        match step(s, i, true, depth, ai) {
            Step::Skip(j) => {
                if i < j <= s.len() {
                    lemma_expr_lex_no_newlines(s, j, depth, toks);
                }
            },
            Step::Emit(ts, j, d) => {
                if i < j <= s.len() {
                    assert(no_newlines(toks + ts)) by {
                        assert forall|k: int| 0 <= k < (toks + ts).len() implies (#[trigger] (toks + ts)[k]).0 !is Newline by {
                            if k >= toks.len() {
                                assert((toks + ts)[k] == ts[k - toks.len()]);
                            }
                        }
                    }
                    lemma_expr_lex_no_newlines(s, j, d, toks + ts);
                }
            },
            Step::Fail(_, _) => {},
        }
    }
}

/// In an expression body newlines are white space: lexing one never yields
/// a newline token.
pub proof fn law_expressions_have_no_newlines(s: Seq<char>)
    ensures
        lexed(s, true) matches Ok(ts) ==> no_newlines(ts),
{
    lemma_expr_lex_no_newlines(s, 0, 0, Seq::empty());
}

/// The marker glyphs, on either side of a link op's line: `<>` is the
/// diamond (longest match first) and only `<>` is; `*` is the dot and only
/// `*` is; `<` is the arrow at the start and the crow at the end; `>` is the
/// arrow at the end. The ER cardinalities read `[min][max]` outward from the
/// line: at the end `++` exactly one, `+<` one or many, `o+` zero or one,
/// `o<` zero or many, a lone `+` one; at the start the mirror images `++`,
/// `>+`, `+o`, `>o`, a lone `+` one and a lone `>` the crow.
pub proof fn law_marker_glyphs(s: Seq<char>, p: int, side: Side)
    ensures
        at(s, p, '<') && at(s, p + 1, '>') ==> marker_at(s, p, side) == Ok::<(LinkMarker, int), Span>((LinkMarker::Diamond, p + 2)),
        marker_at(s, p, side) matches Ok((LinkMarker::Diamond, q)) ==> at(s, p, '<') && at(s, p + 1, '>') && q == p + 2,
        at(s, p, '*') ==> marker_at(s, p, side) == Ok::<(LinkMarker, int), Span>((LinkMarker::Dot, p + 1)),
        marker_at(s, p, side) matches Ok((LinkMarker::Dot, q)) ==> at(s, p, '*') && q == p + 1,
        at(s, p, '<') && !at(s, p + 1, '>') ==> marker_at(s, p, side) == Ok::<(LinkMarker, int), Span>(
            (if side is Start { LinkMarker::Arrow } else { LinkMarker::Crow }, p + 1),
        ),
        side is End && at(s, p, '>') ==> marker_at(s, p, side) == Ok::<(LinkMarker, int), Span>((LinkMarker::Arrow, p + 1)),
        side is End && at(s, p, '+') && at(s, p + 1, '+') ==> marker_at(s, p, side) == Ok::<(LinkMarker, int), Span>(
            (LinkMarker::ExactlyOne, p + 2),
        ),
        side is End && at(s, p, '+') && at(s, p + 1, '<') ==> marker_at(s, p, side) == Ok::<(LinkMarker, int), Span>(
            (LinkMarker::OneOrMany, p + 2),
        ),
        side is End && at(s, p, '+') && !at(s, p + 1, '+') && !at(s, p + 1, '<') ==> marker_at(s, p, side) == Ok::<
            (LinkMarker, int),
            Span,
        >((LinkMarker::One, p + 1)),
        side is End && at(s, p, 'o') && at(s, p + 1, '+') ==> marker_at(s, p, side) == Ok::<(LinkMarker, int), Span>(
            (LinkMarker::ZeroOrOne, p + 2),
        ),
        side is End && at(s, p, 'o') && at(s, p + 1, '<') ==> marker_at(s, p, side) == Ok::<(LinkMarker, int), Span>(
            (LinkMarker::ZeroOrMany, p + 2),
        ),
        side is End && at(s, p, 'o') && !at(s, p + 1, '+') && !at(s, p + 1, '<') ==> marker_at(s, p, side) is Err,
        side is Start && at(s, p, '+') && at(s, p + 1, '+') ==> marker_at(s, p, side) == Ok::<(LinkMarker, int), Span>(
            (LinkMarker::ExactlyOne, p + 2),
        ),
        side is Start && at(s, p, '+') && at(s, p + 1, 'o') ==> marker_at(s, p, side) == Ok::<(LinkMarker, int), Span>(
            (LinkMarker::ZeroOrOne, p + 2),
        ),
        side is Start && at(s, p, '+') && !at(s, p + 1, '+') && !at(s, p + 1, 'o') ==> marker_at(s, p, side) == Ok::<
            (LinkMarker, int),
            Span,
        >((LinkMarker::One, p + 1)),
        side is Start && at(s, p, '>') && at(s, p + 1, '+') ==> marker_at(s, p, side) == Ok::<(LinkMarker, int), Span>(
            (LinkMarker::OneOrMany, p + 2),
        ),
        side is Start && at(s, p, '>') && at(s, p + 1, 'o') ==> marker_at(s, p, side) == Ok::<(LinkMarker, int), Span>(
            (LinkMarker::ZeroOrMany, p + 2),
        ),
        side is Start && at(s, p, '>') && !at(s, p + 1, '+') && !at(s, p + 1, 'o') ==> marker_at(s, p, side) == Ok::<
            (LinkMarker, int),
            Span,
        >((LinkMarker::Crow, p + 1)),
{
}

/// The line glyphs of a link op: `---` dotted, `--` dashed (unless an
/// identifier starts right after, which makes it no line), `-` solid, `~`
/// wavy, and nothing else is a line.
pub proof fn law_line_glyphs(s: Seq<char>, p: int)
    ensures
        at(s, p, '-') && at(s, p + 1, '-') && at(s, p + 2, '-') ==> line_at(s, p) == Some((LineStyle::Dotted, p + 3)),
        at(s, p, '-') && at(s, p + 1, '-') && !at(s, p + 2, '-') && !(0 <= p + 2 < s.len() && ident_start(s[p + 2]))
            ==> line_at(s, p) == Some((LineStyle::Dashed, p + 2)),
        at(s, p, '-') && at(s, p + 1, '-') && 0 <= p + 2 < s.len() && ident_start(s[p + 2]) && s[p + 2] != '-'
            ==> line_at(s, p) is None,
        at(s, p, '-') && !at(s, p + 1, '-') ==> line_at(s, p) == Some((LineStyle::Solid, p + 1)),
        at(s, p, '~') ==> line_at(s, p) == Some((LineStyle::Wavy, p + 1)),
        !at(s, p, '-') && !at(s, p, '~') ==> line_at(s, p) is None,
{
}

/// A link op is its start marker, its line, then its end marker, each read
/// by its glyphs, and its span covers exactly those characters.
pub proof fn law_link_op_parts(s: Seq<char>, i: int, depth: nat)
    ensures
        marker_at(s, i, Side::Start) matches Ok((start, p)) ==> (line_at(s, p) matches Some((line, p2)) ==> (
        marker_at(s, p2, Side::End) matches Ok((end, p3)) ==> link_step(s, i, depth) == Step::Emit(
            seq![(Kind::Link(LinkOp { line, start, end }), span(s, i, p3))],
            p3,
            depth,
        ))),
{
}

} // verus!
