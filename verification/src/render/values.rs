//! Attribute extraction + resolved value → CSS-formatted string helpers used
//! by every render submodule.

use crate::figures::{num, num_text, push_reading, reading};
use crate::resolve::Num;
use crate::text::pow10;
use crate::resolve::{deep_seq, entry_lookup, AttrMap, ResolvedValue, Val, VarTable};
use crate::text::{chars_of, push_str, str_eq};
use crate::Options;
use vstd::prelude::*;

verus! {

/// The text of a value inline in SVG/CSS. Live mode (`bake` off) keeps
/// `var(--lini-name)` references; bake mode follows each Lini variable to a
/// literal (at most `fuel` lookups deep) and freezes `light-dark()` to its
/// light arm. `None` when the variable chain runs deeper than `fuel`.
pub open spec fn fmt(v: Val, vars: Seq<(String, ResolvedValue)>, bake: bool, fuel: nat) -> Option<
    Seq<char>,
>
    decreases fuel, v, 1nat,
{
    match v {
        Val::Number(n) => Some(num_text(n)),
        Val::Percent(n) => Some(num_text(n) + seq!['%']),
        Val::String(s) => Some(seq!['"'] + s + seq!['"']),
        Val::Hex(h) => Some(seq!['#'] + h),
        Val::Ident(s) => Some(s),
        Val::RawCss(s) => Some(s),
        Val::Tuple(items) => fmt_join(items, seq![' '], vars, bake, fuel),
        Val::List(items) => fmt_join(items, seq![',', ' '], vars, bake, fuel),
        Val::Call(name, args) => if bake && name == "light-dark"@ && args.len() > 0 {
            fmt(args[0], vars, bake, fuel)
        } else {
            match fmt_join(args, seq![',', ' '], vars, bake, fuel) {
                Some(inner) => Some(name + seq!['('] + inner + seq![')']),
                None => None,
            }
        },
        Val::LiveVar(name, raw) => if raw {
            Some(seq!['v', 'a', 'r', '(', '-', '-'] + name + seq![')'])
        } else if bake {
            match entry_lookup(vars, name) {
                Some(value) => if fuel == 0 {
                    None
                } else {
                    fmt(value.deep(), vars, bake, (fuel - 1) as nat)
                },
                None => Some(lini_var(name)),
            }
        } else {
            Some(lini_var(name))
        },
    }
}

/// `var(--lini-name)`.
pub open spec fn lini_var(name: Seq<char>) -> Seq<char> {
    "var(--lini-"@ + name + seq![')']
}

/// Each item's text, joined by `sep`.
pub open spec fn fmt_join(
    items: Seq<Val>,
    sep: Seq<char>,
    vars: Seq<(String, ResolvedValue)>,
    bake: bool,
    fuel: nat,
) -> Option<Seq<char>>
    decreases fuel, items, 0nat,
{
    if items.len() == 0 {
        Some(Seq::empty())
    } else {
        let head = fmt_join(items.drop_last(), sep, vars, bake, fuel);
        let last = fmt(items.last(), vars, bake, fuel);
        match (head, last) {
            (Some(h), Some(l)) => if items.len() == 1 {
                Some(l)
            } else {
                Some(h + sep + l)
            },
            _ => None,
        }
    }
}

/// The text of `value` under `opts` (bake mode is `--static`).
pub open spec fn format_text(value: Val, vars: &VarTable, opts: &Options) -> Option<Seq<char>> {
    fmt(value, vars.entries@, opts.static_mode, vars.entries@.len())
}

fn push_var(s: &mut String, name: &str, lini: bool)
    ensures
        final(s)@ == old(s)@ + (if lini {
            lini_var(name@)
        } else {
            seq!['v', 'a', 'r', '(', '-', '-'] + name@ + seq![')']
        }),
{
    if lini {
        push_str(s, "var(--lini-");
    } else {
        s.push('v');
        s.push('a');
        s.push('r');
        s.push('(');
        s.push('-');
        s.push('-');
    }
    push_str(s, name);
    s.push(')');
    proof {
        if lini {
            assert(final(s)@ =~= old(s)@ + lini_var(name@));
        } else {
            assert(final(s)@ =~= old(s)@ + (seq!['v', 'a', 'r', '(', '-', '-'] + name@ + seq![')']));
        }
    }
}

/// Append the text of each item, joined by `sep`.
fn push_join(
    s: &mut String,
    items: &Vec<ResolvedValue>,
    sep: &str,
    vars: &VarTable,
    bake: bool,
    fuel: usize,
) -> (ok: bool)
    ensures
        match fmt_join(deep_seq(items@), sep@, vars.entries@, bake, fuel as nat) {
            Some(t) => ok && final(s)@ == old(s)@ + t,
            None => !ok,
        },
    decreases fuel, items, 0nat,
{
    let n = items.len();
    let mut i: usize = 0;
    proof {
        crate::resolve::lemma_deep_seq(items@);
        assert(deep_seq(items@).take(0) =~= Seq::<Val>::empty());
    }
    while i < n
        invariant
            n == items@.len(),
            i <= n,
            deep_seq(items@).len() == n,
            fmt_join(deep_seq(items@).take(i as int), sep@, vars.entries@, bake, fuel as nat)
                == Some(final_part(s@, old(s)@)),
            s@.len() >= old(s)@.len(),
            s@.subrange(0, old(s)@.len() as int) == old(s)@,
        decreases n - i,
    {
        assert(decreases_to!(items => items@[i as int]));
        if i > 0 {
            push_str(s, sep);
        }
        let ok = push_value(s, &items[i], vars, bake, fuel);
        proof {
            crate::resolve::lemma_deep_seq(items@);
        }
        if !ok {
            proof {
                lemma_join_fails(deep_seq(items@), sep@, vars.entries@, bake, fuel as nat, i as int);
            }
            return false;
        }
        proof {
            let d = deep_seq(items@);
            assert(d.take(i + 1).drop_last() =~= d.take(i as int));
            assert(d.take(i + 1).last() == d[i as int]);
            crate::resolve::lemma_deep_seq(items@);
            assert(s@.subrange(0, old(s)@.len() as int) =~= old(s)@);
            assert(final_part(s@, old(s)@) =~= fmt_join(d.take(i + 1), sep@, vars.entries@, bake, fuel as nat).unwrap());
        }
        i = i + 1;
    }
    proof {
        assert(deep_seq(items@).take(n as int) =~= deep_seq(items@));
        assert(s@ =~= old(s)@ + final_part(s@, old(s)@));
    }
    true
}

/// What was appended to `before` to give `after`.
pub open spec fn final_part(after: Seq<char>, before: Seq<char>) -> Seq<char> {
    after.subrange(before.len() as int, after.len() as int)
}

/// A join that fails on an item fails whole.
proof fn lemma_join_fails(
    items: Seq<Val>,
    sep: Seq<char>,
    vars: Seq<(String, ResolvedValue)>,
    bake: bool,
    fuel: nat,
    i: int,
)
    requires
        0 <= i < items.len(),
        fmt(items[i], vars, bake, fuel) is None,
    ensures
        fmt_join(items, sep, vars, bake, fuel) is None,
    decreases items.len(),
{
    if i < items.len() - 1 {
        lemma_join_fails(items.drop_last(), sep, vars, bake, fuel, i);
    }
}

/// Append the text of `value`; `false` when the variable chain runs past
/// `fuel`.
fn push_value(s: &mut String, value: &ResolvedValue, vars: &VarTable, bake: bool, fuel: usize) -> (ok: bool)
    ensures
        match fmt(value.deep(), vars.entries@, bake, fuel as nat) {
            Some(t) => ok && final(s)@ == old(s)@ + t,
            None => !ok,
        },
    decreases fuel, value, 1nat,
{
    proof {
        reveal_strlit(" ");
        reveal_strlit(", ");
    }
    match value {
        ResolvedValue::Number(n) => {
            push_str(s, num(n).as_str());
            assert(final(s)@ == old(s)@ + num_text(*n));
            true
        },
        ResolvedValue::Percent(n) => {
            push_str(s, num(n).as_str());
            s.push('%');
            proof {
                assert(final(s)@ =~= old(s)@ + (num_text(*n) + seq!['%']));
            }
            true
        },
        ResolvedValue::String(t) => {
            s.push('"');
            push_str(s, t.as_str());
            s.push('"');
            proof {
                assert(final(s)@ =~= old(s)@ + (seq!['"'] + t@ + seq!['"']));
            }
            true
        },
        ResolvedValue::Hex(h) => {
            s.push('#');
            push_str(s, h.as_str());
            proof {
                assert(final(s)@ =~= old(s)@ + (seq!['#'] + h@));
            }
            true
        },
        ResolvedValue::Ident(t) => {
            push_str(s, t.as_str());
            true
        },
        ResolvedValue::RawCss(t) => {
            push_str(s, t.as_str());
            true
        },
        ResolvedValue::Tuple(items) => {
            let ok = push_join(s, items, " ", vars, bake, fuel);
            assert(" "@ == seq![' ']);
            ok
        },
        ResolvedValue::List(items) => {
            let ok = push_join(s, items, ", ", vars, bake, fuel);
            assert(", "@ == seq![',', ' ']);
            ok
        },
        ResolvedValue::Call(c) => {
            proof {
                crate::resolve::lemma_deep_seq(c.args@);
            }
            if bake && str_eq(c.name.as_str(), "light-dark") && c.args.len() > 0 {
                assert(decreases_to!(value => c.args@[0]));
                push_value(s, &c.args[0], vars, bake, fuel)
            } else {
                push_str(s, c.name.as_str());
                s.push('(');
                assert(", "@ == seq![',', ' ']);
                let ok = push_join(s, &c.args, ", ", vars, bake, fuel);
                if ok {
                    s.push(')');
                    proof {
                        let inner = fmt_join(deep_seq(c.args@), ", "@, vars.entries@, bake, fuel as nat).unwrap();
                        assert(final(s)@ =~= old(s)@ + (c.name@ + seq!['('] + inner + seq![')']));
                    }
                }
                ok
            }
        },
        ResolvedValue::LiveVar { name, raw } => {
            if *raw {
                push_var(s, name.as_str(), false);
                true
            } else if bake {
                match vars.get(name.as_str()) {
                    Some(v) => {
                        if fuel == 0 {
                            false
                        } else {
                            push_value(s, v, vars, bake, fuel - 1)
                        }
                    },
                    None => {
                        push_var(s, name.as_str(), true);
                        true
                    },
                }
            } else {
                push_var(s, name.as_str(), true);
                true
            }
        },
    }
}

/// Format a value for use inline in SVG/CSS (e.g. an attribute value).
/// Live mode emits `var(--lini-name)`; `--static` follows the var
/// indirectly to a concrete CSS literal so renderers without
/// custom-property support can still display the diagram. A variable table
/// whose references loop has no literal to bake to.
pub fn format_value(value: &ResolvedValue, vars: &VarTable, opts: &Options) -> (t: String)
    requires
        format_text(value.deep(), vars, opts) is Some,
    ensures
        t@ == format_text(value.deep(), vars, opts).unwrap(),
{
    let mut s = String::new();
    let _ = push_value(&mut s, value, vars, opts.static_mode, vars.entries.len());
    proof {
        assert(s@ =~= format_text(value.deep(), vars, opts).unwrap());
    }
    s
}

/// A `text-shadow` value's text: every number gains `px`; a tuple joins
/// with spaces, a comma-list with commas; anything else formats plainly.
pub open spec fn px_fmt(v: Val, vars: Seq<(String, ResolvedValue)>, bake: bool, fuel: nat) -> Option<
    Seq<char>,
>
    decreases v, 1nat,
{
    match v {
        Val::Number(n) => Some(num_text(n) + seq!['p', 'x']),
        Val::Tuple(items) => px_join(items, seq![' '], vars, bake, fuel),
        Val::List(items) => px_join(items, seq![',', ' '], vars, bake, fuel),
        _ => fmt(v, vars, bake, fuel),
    }
}

/// Each item's `px` text, joined by `sep`.
pub open spec fn px_join(
    items: Seq<Val>,
    sep: Seq<char>,
    vars: Seq<(String, ResolvedValue)>,
    bake: bool,
    fuel: nat,
) -> Option<Seq<char>>
    decreases items, 0nat,
{
    if items.len() == 0 {
        Some(Seq::empty())
    } else {
        let head = px_join(items.drop_last(), sep, vars, bake, fuel);
        let last = px_fmt(items.last(), vars, bake, fuel);
        match (head, last) {
            (Some(h), Some(l)) => if items.len() == 1 {
                Some(l)
            } else {
                Some(h + sep + l)
            },
            _ => None,
        }
    }
}

fn push_px_join(
    s: &mut String,
    items: &Vec<ResolvedValue>,
    sep: &str,
    vars: &VarTable,
    bake: bool,
    fuel: usize,
) -> (ok: bool)
    ensures
        match px_join(deep_seq(items@), sep@, vars.entries@, bake, fuel as nat) {
            Some(t) => ok && final(s)@ == old(s)@ + t,
            None => !ok,
        },
    decreases items, 0nat,
{
    let n = items.len();
    let mut i: usize = 0;
    proof {
        crate::resolve::lemma_deep_seq(items@);
        assert(deep_seq(items@).take(0) =~= Seq::<Val>::empty());
    }
    while i < n
        invariant
            n == items@.len(),
            i <= n,
            deep_seq(items@).len() == n,
            px_join(deep_seq(items@).take(i as int), sep@, vars.entries@, bake, fuel as nat)
                == Some(final_part(s@, old(s)@)),
            s@.len() >= old(s)@.len(),
            s@.subrange(0, old(s)@.len() as int) == old(s)@,
        decreases n - i,
    {
        assert(decreases_to!(items => items@[i as int]));
        if i > 0 {
            push_str(s, sep);
        }
        let ok = push_px(s, &items[i], vars, bake, fuel);
        proof {
            crate::resolve::lemma_deep_seq(items@);
        }
        if !ok {
            proof {
                lemma_px_join_fails(deep_seq(items@), sep@, vars.entries@, bake, fuel as nat, i as int);
            }
            return false;
        }
        proof {
            let d = deep_seq(items@);
            assert(d.take(i + 1).drop_last() =~= d.take(i as int));
            assert(d.take(i + 1).last() == d[i as int]);
            assert(s@.subrange(0, old(s)@.len() as int) =~= old(s)@);
            assert(final_part(s@, old(s)@) =~= px_join(d.take(i + 1), sep@, vars.entries@, bake, fuel as nat).unwrap());
        }
        i = i + 1;
    }
    proof {
        assert(deep_seq(items@).take(n as int) =~= deep_seq(items@));
        assert(s@ =~= old(s)@ + final_part(s@, old(s)@));
    }
    true
}

proof fn lemma_px_join_fails(
    items: Seq<Val>,
    sep: Seq<char>,
    vars: Seq<(String, ResolvedValue)>,
    bake: bool,
    fuel: nat,
    i: int,
)
    requires
        0 <= i < items.len(),
        px_fmt(items[i], vars, bake, fuel) is None,
    ensures
        px_join(items, sep, vars, bake, fuel) is None,
    decreases items.len(),
{
    if i < items.len() - 1 {
        lemma_px_join_fails(items.drop_last(), sep, vars, bake, fuel, i);
    }
}

fn push_px(s: &mut String, value: &ResolvedValue, vars: &VarTable, bake: bool, fuel: usize) -> (ok: bool)
    ensures
        match px_fmt(value.deep(), vars.entries@, bake, fuel as nat) {
            Some(t) => ok && final(s)@ == old(s)@ + t,
            None => !ok,
        },
    decreases value, 1nat,
{
    match value {
        ResolvedValue::Number(n) => {
            push_str(s, num(n).as_str());
            s.push('p');
            s.push('x');
            proof {
                assert(final(s)@ =~= old(s)@ + (num_text(*n) + seq!['p', 'x']));
            }
            true
        },
        ResolvedValue::Tuple(items) => {
            proof {
                reveal_strlit(" ");
            }
            assert(" "@ == seq![' ']);
            push_px_join(s, items, " ", vars, bake, fuel)
        },
        ResolvedValue::List(items) => {
            proof {
                reveal_strlit(", ");
            }
            assert(", "@ == seq![',', ' ']);
            push_px_join(s, items, ", ", vars, bake, fuel)
        },
        _ => push_value(s, value, vars, bake, fuel),
    }
}

/// Format a paint/text property value for CSS output. Lini numbers are
/// unitless, so `font-size` and the length parts of `text-shadow` get `px`
/// added; every other property formats plainly.
pub open spec fn css_text(prop: Seq<char>, value: Val, vars: &VarTable, opts: &Options) -> Option<Seq<char>> {
    if prop == "font-size"@ {
        match format_text(value, vars, opts) {
            Some(t) => Some(t + seq!['p', 'x']),
            None => None,
        }
    } else if prop == "text-shadow"@ {
        px_fmt(value, vars.entries@, opts.static_mode, vars.entries@.len())
    } else {
        format_text(value, vars, opts)
    }
}

/// Format a paint/text property value for CSS output.
pub fn css_value(prop: &str, value: &ResolvedValue, vars: &VarTable, opts: &Options) -> (t: String)
    requires
        css_text(prop@, value.deep(), vars, opts) is Some,
    ensures
        t@ == css_text(prop@, value.deep(), vars, opts).unwrap(),
{
    if str_eq(prop, "font-size") {
        let mut s = format_value(value, vars, opts);
        s.push('p');
        s.push('x');
        s
    } else if str_eq(prop, "text-shadow") {
        let mut s = String::new();
        let _ = push_px(&mut s, value, vars, opts.static_mode, vars.entries.len());
        proof {
            assert(s@ =~= css_text(prop@, value.deep(), vars, opts).unwrap());
        }
        s
    } else {
        format_value(value, vars, opts)
    }
}

/// An attribute formatted for SVG, falling back to the Lini CSS variable
/// named `var_name` when unset — through the same formatter, so `--static`
/// resolves the fallback to a literal too.
pub open spec fn attr_text(attrs: &AttrMap, name: Seq<char>, var_name: Seq<char>, vars: &VarTable, opts: &Options) -> Option<Seq<char>> {
    match entry_lookup(attrs.entries@, name) {
        Some(v) => format_text(v.deep(), vars, opts),
        None => format_text(Val::LiveVar(var_name, false), vars, opts),
    }
}

pub fn attr_or_var(
    attrs: &AttrMap,
    name: &str,
    var_name: &str,
    vars: &VarTable,
    opts: &Options,
) -> (t: String)
    requires
        attr_text(attrs, name@, var_name@, vars, opts) is Some,
    ensures
        t@ == attr_text(attrs, name@, var_name@, vars, opts).unwrap(),
{
    match attrs.get(name) {
        Some(v) => format_value(v, vars, opts),
        None => {
            let mut owned = String::new();
            push_str(&mut owned, var_name);
            proof {
                assert(owned@ =~= var_name@);
            }
            let fallback = ResolvedValue::LiveVar { name: owned, raw: false };
            format_value(&fallback, vars, opts)
        },
    }
}

/// The XML escape of one character.
pub open spec fn escape_char(c: char) -> Seq<char> {
    if c == '<' {
        "&lt;"@
    } else if c == '>' {
        "&gt;"@
    } else if c == '&' {
        "&amp;"@
    } else if c == '"' {
        "&quot;"@
    } else if c == '\'' {
        "&apos;"@
    } else {
        seq![c]
    }
}

/// Text with the five XML specials escaped.
pub open spec fn escaped(s: Seq<char>) -> Seq<char>
    decreases s.len(),
{
    if s.len() == 0 {
        Seq::empty()
    } else {
        escaped(s.drop_last()) + escape_char(s.last())
    }
}

pub fn escape_xml(s: &str) -> (out: String)
    ensures
        out@ == escaped(s@),
{
    let cs = chars_of(s);
    let n = cs.len();
    let mut out = String::new();
    let mut i: usize = 0;
    while i < n
        invariant
            n == cs@.len(),
            cs@ == s@,
            i <= n,
            out@ == escaped(s@.take(i as int)),
        decreases n - i,
    {
        let ch = cs[i];
        if ch == '<' {
            push_str(&mut out, "&lt;");
        } else if ch == '>' {
            push_str(&mut out, "&gt;");
        } else if ch == '&' {
            push_str(&mut out, "&amp;");
        } else if ch == '"' {
            push_str(&mut out, "&quot;");
        } else if ch == '\'' {
            push_str(&mut out, "&apos;");
        } else {
            out.push(ch);
        }
        proof {
            assert(s@.take(i + 1).drop_last() =~= s@.take(i as int));
            assert(out@ =~= escaped(s@.take(i + 1)));
        }
        i = i + 1;
    }
    proof {
        assert(s@.take(n as int) =~= s@);
    }
    out
}

/// XML text with the five entity references decoded, read from the front.
pub open spec fn unescaped(t: Seq<char>) -> Seq<char>
    decreases t.len(),
{
    if t.len() == 0 {
        Seq::empty()
    } else if t.len() >= 4 && t.take(4) == "&lt;"@ {
        seq!['<'] + unescaped(t.skip(4))
    } else if t.len() >= 4 && t.take(4) == "&gt;"@ {
        seq!['>'] + unescaped(t.skip(4))
    } else if t.len() >= 5 && t.take(5) == "&amp;"@ {
        seq!['&'] + unescaped(t.skip(5))
    } else if t.len() >= 6 && t.take(6) == "&quot;"@ {
        seq!['"'] + unescaped(t.skip(6))
    } else if t.len() >= 6 && t.take(6) == "&apos;"@ {
        seq!['\''] + unescaped(t.skip(6))
    } else {
        seq![t[0]] + unescaped(t.skip(1))
    }
}

/// Escaping read from the front: the first character's escape, then the rest.
proof fn lemma_escaped_front(s: Seq<char>)
    requires
        s.len() > 0,
    ensures
        escaped(s) == escape_char(s[0]) + escaped(s.skip(1)),
    decreases s.len(),
{
    if s.len() == 1 {
        assert(s.drop_last() =~= Seq::<char>::empty());
        assert(s.skip(1) =~= Seq::<char>::empty());
        assert(escaped(s.drop_last()) == Seq::<char>::empty());
        assert(escaped(s.skip(1)) == Seq::<char>::empty());
        assert(escaped(s) =~= escape_char(s[0]));
    } else {
        lemma_escaped_front(s.drop_last());
        assert(s.skip(1).drop_last() =~= s.drop_last().skip(1));
        assert(s.skip(1).last() == s.last());
        assert(escaped(s) =~= escape_char(s[0]) + escaped(s.skip(1)));
    }
}

/// Decoding one escaped character gives the character back.
proof fn lemma_unescape_one(c: char, rest: Seq<char>)
    ensures
        unescaped(escape_char(c) + rest) == seq![c] + unescaped(rest),
{
    reveal_strlit("&lt;");
    reveal_strlit("&gt;");
    reveal_strlit("&amp;");
    reveal_strlit("&quot;");
    reveal_strlit("&apos;");
    let t = escape_char(c) + rest;
    let k = escape_char(c).len() as int;
    assert(t.take(k) =~= escape_char(c));
    assert(t.skip(k) =~= rest);
    let lt = "&lt;"@;
    let gt = "&gt;"@;
    let amp = "&amp;"@;
    let quot = "&quot;"@;
    let apos = "&apos;"@;
    if c == '<' {
        assert(t.take(4) =~= lt);
    } else if c == '>' {
        assert(t.take(4)[1] != lt[1]);
        assert(t.take(4) =~= gt);
    } else if c == '&' {
        assert(t.take(4)[1] != lt[1]);
        assert(t.take(4)[1] != gt[1]);
        assert(t.take(5) =~= amp);
    } else if c == '"' {
        assert(t.take(4)[1] != lt[1]);
        assert(t.take(4)[1] != gt[1]);
        assert(t.take(5)[1] != amp[1]);
        assert(t.take(6) =~= quot);
    } else if c == '\'' {
        assert(t.take(4)[1] != lt[1]);
        assert(t.take(4)[1] != gt[1]);
        assert(t.take(5)[2] != amp[2]);
        assert(t.take(6)[1] != quot[1]);
        assert(t.take(6) =~= apos);
    } else {
        assert(t[0] == c);
        if t.len() >= 4 {
            assert(t.take(4)[0] != lt[0]);
            assert(t.take(4)[0] != gt[0]);
        }
        if t.len() >= 5 {
            assert(t.take(5)[0] != amp[0]);
        }
        if t.len() >= 6 {
            assert(t.take(6)[0] != quot[0]);
            assert(t.take(6)[0] != apos[0]);
        }
    }
}

/// Decoding undoes escaping: the entities `escape_xml` writes read back as
/// the text it was given.
pub proof fn law_escape_round_trip(s: Seq<char>)
    ensures
        unescaped(escaped(s)) == s,
    decreases s.len(),
{
    if s.len() > 0 {
        lemma_escaped_front(s);
        lemma_unescape_one(s[0], escaped(s.skip(1)));
        law_escape_round_trip(s.skip(1));
        assert(seq![s[0]] + s.skip(1) =~= s);
    } else {
        assert(escaped(s) =~= Seq::<char>::empty());
    }
}

/// The classes of a node's group: `lini-node`, one `lini-{type}` per link of
/// its type chain, its primitive's, then one `lini-style-{name}` per applied
/// style.
pub open spec fn classes(kind: Seq<char>, chain: Seq<String>, styles: Seq<String>) -> Seq<Seq<char>> {
    Seq::new(
        chain.len() + styles.len() + 2,
        |k: int|
            if k == 0 {
                "lini-node"@
            } else if k <= chain.len() {
                "lini-"@ + chain[k - 1]@
            } else if k == chain.len() + 1 {
                "lini-"@ + kind
            } else {
                "lini-style-"@ + styles[k - chain.len() - 2]@
            },
    )
}

fn prefixed(prefix: &str, name: &str) -> (s: String)
    ensures
        s@ == prefix@ + name@,
{
    let mut s = String::new();
    push_str(&mut s, prefix);
    push_str(&mut s, name);
    proof {
        assert(s@ =~= prefix@ + name@);
    }
    s
}

pub fn class_list(primitive_kind: &str, type_chain: &[String], applied_styles: &[String]) -> (out: Vec<String>)
    ensures
        out@.len() == classes(primitive_kind@, type_chain@, applied_styles@).len(),
        forall|k: int|
            0 <= k < out@.len() ==> (#[trigger] out@[k])@ == classes(
                primitive_kind@,
                type_chain@,
                applied_styles@,
            )[k],
{
    let ghost want = classes(primitive_kind@, type_chain@, applied_styles@);
    let mut out: Vec<String> = Vec::new();
    let mut node = String::new();
    push_str(&mut node, "lini-node");
    out.push(node);
    let n = type_chain.len();
    let mut i: usize = 0;
    while i < n
        invariant
            n == type_chain@.len(),
            want == classes(primitive_kind@, type_chain@, applied_styles@),
            i <= n,
            out@.len() == i + 1,
            forall|k: int| 0 <= k < out@.len() ==> (#[trigger] out@[k])@ == want[k],
        decreases n - i,
    {
        out.push(prefixed("lini-", type_chain[i].as_str()));
        i = i + 1;
    }
    out.push(prefixed("lini-", primitive_kind));
    let m = applied_styles.len();
    let mut j: usize = 0;
    while j < m
        invariant
            n == type_chain@.len(),
            m == applied_styles@.len(),
            want == classes(primitive_kind@, type_chain@, applied_styles@),
            j <= m,
            out@.len() == n + 2 + j,
            forall|k: int| 0 <= k < out@.len() ==> (#[trigger] out@[k])@ == want[k],
        decreases m - j,
    {
        out.push(prefixed("lini-style-", applied_styles[j].as_str()));
        j = j + 1;
    }
    out
}

/// The `stroke-dasharray` for a named line style at width `w`, empty for any
/// style without a dash. Sized against the width so the pattern stays
/// proportional as a line thickens: `dashed` runs dash `2u`, gap `1.5u` for
/// `u = w + 1`; `dotted` runs `w`, `2w`.
pub open spec fn dash_text(style: Seq<char>, w: Num) -> Seq<char> {
    let m = w.spec_mant();
    let e = w.spec_exp();
    if style == "dashed"@ {
        let u = m + pow10(e);
        reading(2 * u, e) + seq![','] + reading(15 * u, e + 1)
    } else if style == "dotted"@ {
        reading(m, e) + seq![','] + reading(2 * m, e)
    } else {
        Seq::empty()
    }
}

/// The `stroke-dasharray` for a named line style at `width`.
pub fn dash_pattern(style: &str, width: &Num) -> (t: String)
    ensures
        t@ == dash_text(style@, *width),
{
    let m = width.mant() as i128;
    let e = width.exp();
    let mut s = String::new();
    if str_eq(style, "dashed") {
        let p = crate::resolve::pow10_i64(e) as i128;
        let u = m + p;
        push_reading(&mut s, 2 * u, e);
        s.push(',');
        push_reading(&mut s, 15 * u, e + 1);
        proof {
            assert(s@ =~= dash_text(style@, *width));
        }
    } else if str_eq(style, "dotted") {
        push_reading(&mut s, m, e);
        s.push(',');
        push_reading(&mut s, 2 * m, e);
        proof {
            assert(s@ =~= dash_text(style@, *width));
        }
    } else {
        proof {
            assert(s@ =~= dash_text(style@, *width));
        }
    }
    s
}

/// The dash pattern an attribute map's `stroke-style` asks for at `width`.
pub open spec fn dasharray_text(attrs: &AttrMap, width: Num) -> Seq<char> {
    match entry_lookup(attrs.entries@, "stroke-style"@) {
        Some(ResolvedValue::Ident(s)) => dash_text(s@, width),
        _ => Seq::empty(),
    }
}

/// The `stroke-dasharray` pattern for `stroke-style: dashed|dotted` (sized
/// against `stroke-width`), or empty for solid and for `wavy`, whose wave
/// lives in the geometry.
pub fn dasharray_value(attrs: &AttrMap, width: &Num) -> (t: String)
    ensures
        t@ == dasharray_text(attrs, *width),
{
    match attrs.get("stroke-style") {
        Some(ResolvedValue::Ident(s)) => dash_pattern(s.as_str(), width),
        _ => String::new(),
    }
}

} // verus!
