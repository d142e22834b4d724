//! The tokenizer: source text → tokens with byte spans. One pass over the
//! characters, with two contexts the grammar needs — the depth of value
//! parens (inside them `- + * / ^ < >` are math operators; outside, link
//! syntax) and expression mode (an isolated `(…)` body, where `-`/`+` are
//! always operators and newlines are white space).

pub mod scan;
pub mod spec;

pub use scan::{lex, lex_expr};

use crate::error::Span;
use crate::resolve::Num;
use vstd::prelude::*;

verus! {

/// A link line's dash pattern: `-` solid, `--` dashed, `---` dotted, `~`
/// wavy.
#[derive(Clone, Copy, Debug, PartialEq, Eq, Structural)]
pub enum LineStyle {
    Solid,
    Dashed,
    Dotted,
    Wavy,
}

/// The marker at one end of a link op.
#[derive(Clone, Copy, Debug, PartialEq, Eq, Structural)]
pub enum LinkMarker {
    /// No marker.
    Absent,
    Arrow,
    Crow,
    Diamond,
    Dot,
    /// ER cardinality: exactly one bar.
    One,
    ExactlyOne,
    OneOrMany,
    ZeroOrOne,
    ZeroOrMany,
}

/// A link op: `[start marker][line][end marker]`, glued together.
#[derive(Clone, Copy, Debug, PartialEq, Eq, Structural)]
pub struct LinkOp {
    pub line: LineStyle,
    pub start: LinkMarker,
    pub end: LinkMarker,
}

/// A drawing measuring op: `(-)` linear, `(o)` round, `(<)` angle.
#[derive(Clone, Copy, Debug, PartialEq, Eq, Structural)]
pub enum DrawOp {
    Linear,
    Round,
    Angle,
}

#[derive(Debug, PartialEq)]
pub enum TokKind {
    Ident(String),
    String(String),
    Number(Num),
    /// A number with a `%` suffix.
    Percent(Num),
    /// `#` + the raw run of ident chars after it, undecided: a colour in a
    /// value or an id in bars / at a rule head.
    Hash(String),
    /// A CSS var name without its leading `--`.
    RawCssVar(String),
    Pipe,
    Colon,
    DColon,
    Dot,
    Amp,
    Semi,
    Comma,
    LBrace,
    RBrace,
    LParen,
    RParen,
    LBracket,
    RBracket,
    Assign,
    Plus,
    Minus,
    Star,
    Slash,
    Caret,
    Lt,
    Le,
    Gt,
    Ge,
    EqEq,
    Ne,
    Question,
    LinkOp(LinkOp),
    DrawOp(DrawOp),
    Newline,
}

#[derive(Debug)]
pub struct Token {
    pub kind: TokKind,
    pub span: Span,
}

} // verus!
