//! Bundled-font naming: the Lini-scoped `@font-face` family names, and the
//! `font-family` stack rewrite that lets an embedded face win while the
//! name as written stays as the fallback.

use crate::text::{chars_of, push_str, str_eq};
use vstd::prelude::*;

verus! {

/// A bundled family: the monospace one or the proportional one.
#[derive(Clone, Copy, Debug, PartialEq, Eq, Structural)]
pub enum Kind {
    Mono,
    Prop,
}

/// The Lini-scoped `@font-face` family name of a bundled family.
pub open spec fn scoped(kind: Kind) -> &'static str {
    match kind {
        Kind::Mono => "Lini Sans Code",
        Kind::Prop => "Lini Sans",
    }
}

/// The Lini-scoped `@font-face` family names.
pub fn scoped_name(kind: Kind) -> (s: &'static str)
    ensures
        s == scoped(kind),
{
    match kind {
        Kind::Mono => "Lini Sans Code",
        Kind::Prop => "Lini Sans",
    }
}

/// Unicode white space, as `char::is_whitespace` reads it.
pub open spec fn is_space(c: char) -> bool {
    c == ' ' || c == '\t' || c == '\n' || c == '\x0B' || c == '\x0C' || c == '\r' || c == '\u{85}' || c
        == '\u{A0}' || c == '\u{1680}' || ('\u{2000}' <= c && c <= '\u{200A}') || c == '\u{2028}' || c
        == '\u{2029}' || c == '\u{202F}' || c == '\u{205F}' || c == '\u{3000}'
}

/// A quote character (`"` or `'`).
pub open spec fn is_quote(c: char) -> bool {
    c == '"' || c == '\''
}

/// `s` without leading characters matching `quote` (quotes) or, when
/// `quote` is off, white space.
pub open spec fn trim_start(s: Seq<char>, quote: bool) -> Seq<char>
    decreases s.len(),
{
    if s.len() > 0 && (if quote { is_quote(s[0]) } else { is_space(s[0]) }) {
        trim_start(s.drop_first(), quote)
    } else {
        s
    }
}

/// `s` without trailing characters of the kind.
pub open spec fn trim_end(s: Seq<char>, quote: bool) -> Seq<char>
    decreases s.len(),
{
    if s.len() > 0 && (if quote { is_quote(s.last()) } else { is_space(s.last()) }) {
        trim_end(s.drop_last(), quote)
    } else {
        s
    }
}

/// `s` trimmed of the kind at both ends.
pub open spec fn trim(s: Seq<char>, quote: bool) -> Seq<char> {
    trim_end(trim_start(s, quote), quote)
}

/// The text before the first `,`, or all of it.
pub open spec fn first_field(s: Seq<char>) -> Seq<char> {
    if exists|i: int| 0 <= i < s.len() && s[i] == ',' {
        s.take(choose|i: int| 0 <= i < s.len() && s[i] == ',' && forall|j: int| 0 <= j < i ==> s[j] != ',')
    } else {
        s
    }
}

/// A stack led by the scoped twin of its first family, when that family is
/// a bundled one; otherwise the stack as it was.
pub open spec fn led_stack(stack: Seq<char>) -> Seq<char> {
    let bare = trim(trim(first_field(stack), false), true);
    if bare == "Google Sans Code"@ {
        seq!['"'] + scoped(Kind::Mono)@ + seq!['"', ',', ' '] + stack
    } else if bare == "Google Sans"@ {
        seq!['"'] + scoped(Kind::Prop)@ + seq!['"', ',', ' '] + stack
    } else {
        stack
    }
}

fn is_space_exec(c: char) -> (b: bool)
    ensures
        b == is_space(c),
{
    c == ' ' || c == '\t' || c == '\n' || c == '\x0B' || c == '\x0C' || c == '\r' || c == '\u{85}' || c
        == '\u{A0}' || c == '\u{1680}' || ('\u{2000}' <= c && c <= '\u{200A}') || c == '\u{2028}' || c
        == '\u{2029}' || c == '\u{202F}' || c == '\u{205F}' || c == '\u{3000}'
}

fn matches_kind(c: char, quote: bool) -> (b: bool)
    ensures
        b == (if quote { is_quote(c) } else { is_space(c) }),
{
    if quote {
        c == '"' || c == '\''
    } else {
        is_space_exec(c)
    }
}

/// `chars[from..to]` trimmed of the kind: the bounds of what remains.
pub(crate) fn trim_bounds(chars: &Vec<char>, from: usize, to: usize, quote: bool) -> (r: (usize, usize))
    requires
        from <= to <= chars@.len(),
    ensures
        from <= r.0 <= r.1 <= to,
        chars@.subrange(r.0 as int, r.1 as int) == trim(chars@.subrange(from as int, to as int), quote),
{
    let mut a = from;
    while a < to && matches_kind(chars[a], quote)
        invariant
            from <= a <= to <= chars@.len(),
            trim_start(chars@.subrange(from as int, to as int), quote) == trim_start(
                chars@.subrange(a as int, to as int),
                quote,
            ),
        decreases to - a,
    {
        proof {
            assert(chars@.subrange(a as int, to as int).drop_first() =~= chars@.subrange(a + 1, to as int));
        }
        a = a + 1;
    }
    proof {
        let t = chars@.subrange(a as int, to as int);
        assert(trim_start(t, quote) == t);
    }
    let mut b = to;
    while b > a && matches_kind(chars[b - 1], quote)
        invariant
            from <= a <= b <= to <= chars@.len(),
            trim_end(chars@.subrange(a as int, to as int), quote) == trim_end(chars@.subrange(a as int, b as int), quote),
        decreases b - a,
    {
        proof {
            assert(chars@.subrange(a as int, b as int).drop_last() =~= chars@.subrange(a as int, b - 1));
        }
        b = b - 1;
    }
    proof {
        let t = chars@.subrange(a as int, b as int);
        assert(trim_end(t, quote) == t);
    }
    (a, b)
}

/// `--embed-font`: lead a `font-family` stack with the scoped twin of its
/// first family when that family is a bundled one, so the embedded face
/// wins and the name as written stays as the fallback.
pub fn lead_with_scoped(stack: &str) -> (out: String)
    ensures
        out@ == led_stack(stack@),
{
    let chars = chars_of(stack);
    let n = chars.len();
    let mut end: usize = 0;
    while end < n && chars[end] != ','
        invariant
            end <= n,
            n == chars@.len(),
            forall|j: int| 0 <= j < end ==> chars@[j] != ',',
        decreases n - end,
    {
        end = end + 1;
    }
    proof {
        if end < n {
            let k = choose|i: int| 0 <= i < chars@.len() && chars@[i] == ',' && forall|j: int| 0 <= j < i ==> chars@[j] != ',';
            assert(chars@[end as int] == ',');
            if k < end {
                assert(chars@[k] != ',');
            } else if k > end {
                assert(chars@[end as int] != ',');
            }
            assert(first_field(stack@) =~= chars@.subrange(0, end as int));
        } else {
            assert(first_field(stack@) =~= chars@.subrange(0, end as int));
        }
    }
    let (a, b) = trim_bounds(&chars, 0, end, false);
    let (c, d) = trim_bounds(&chars, a, b, true);
    let mut bare = String::new();
    let mut i = c;
    while i < d
        invariant
            c <= i <= d <= chars@.len(),
            bare@ == chars@.subrange(c as int, i as int),
        decreases d - i,
    {
        bare.push(chars[i]);
        i = i + 1;
        proof {
            assert(bare@ =~= chars@.subrange(c as int, i as int));
        }
    }
    let mut out = String::new();
    if str_eq(bare.as_str(), "Google Sans Code") {
        out.push('"');
        push_str(&mut out, scoped_name(Kind::Mono));
        out.push('"');
        out.push(',');
        out.push(' ');
        push_str(&mut out, stack);
    } else if str_eq(bare.as_str(), "Google Sans") {
        out.push('"');
        push_str(&mut out, scoped_name(Kind::Prop));
        out.push('"');
        out.push(',');
        out.push(' ');
        push_str(&mut out, stack);
    } else {
        push_str(&mut out, stack);
    }
    proof {
        assert(out@ =~= led_stack(stack@));
    }
    out
}

/// The stack as given stays as the fallback: a led stack ends with it.
pub proof fn law_given_stack_is_kept(stack: Seq<char>)
    ensures
        led_stack(stack).len() >= stack.len(),
        led_stack(stack).skip(led_stack(stack).len() - stack.len()) == stack,
{
    let led = led_stack(stack);
    assert(led.skip(led.len() - stack.len()) =~= stack);
}

} // verus!
