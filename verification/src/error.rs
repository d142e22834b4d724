//! Source spans and the one error type every stage reports through.

use crate::text::push_str;
use vstd::prelude::*;

verus! {

/// A byte range of the source a diagnostic points back to.
#[derive(Clone, Copy, Debug, PartialEq, Eq, Structural)]
pub struct Span {
    pub start: usize,
    pub end: usize,
}

impl Span {
    /// The span that points nowhere.
    pub fn empty() -> (s: Span)
        ensures
            s.start == 0 && s.end == 0,
    {
        Span { start: 0, end: 0 }
    }
}

/// A fatal error: a message at a span.
#[derive(Debug)]
pub struct Error {
    pub span: Span,
    pub message: String,
}

impl Error {
    /// An error at `span` saying `msg`.
    pub fn at(span: Span, msg: &str) -> (e: Error)
        ensures
            e.span == span,
            e.message@ == msg@,
    {
        let mut message = String::new();
        push_str(&mut message, msg);
        proof {
            assert(message@ =~= msg@);
        }
        Error { span, message }
    }

    /// An error at `span` carrying an already-built message.
    pub fn with_message(span: Span, message: String) -> (e: Error)
        ensures
            e.span == span,
            e.message@ == message@,
    {
        Error { span, message }
    }
}

} // verus!
