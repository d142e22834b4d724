//! Defs-backed paints: **gradients** (`gradient()` / `linear-gradient()` /
//! `radial-gradient()`, on any paint) and **hatches** (`hatch()`, the drafting
//! section-line texture). Every distinct paint is interned once, to be emitted
//! in `<defs>`, and the use-site rewritten to a `url(#…)` reference.
//!
//! Dedup is structural: a paint's key is an unambiguous text encoding of its
//! kind and arguments (numbers by value), so two sites with the same gradient
//! share one definition.

use crate::figures::{num, num_text, push_big_digits, push_trimmed, trimmed};
use crate::resolve::{clone_values, deep_seq, entry_lookup, lemma_deep_seq, AttrMap, Num, ResolvedValue, Val};
use crate::text::{digits_of, pow10, push_str, str_eq};
use vstd::prelude::*;

verus! {

/// A gradient's geometry: linear at a CSS angle (clockwise from north), or
/// radial.
#[derive(Clone, Copy, Debug)]
pub enum GradientKind {
    Linear(Num),
    Radial,
}

/// One gradient definition: its geometry and its evenly spaced stops.
#[derive(Debug)]
pub struct GradientDef {
    pub kind: GradientKind,
    pub stops: Vec<ResolvedValue>,
}

/// One hatch definition: the line bearings, the tile pitch, the line paint.
#[derive(Debug)]
pub struct HatchDef {
    pub angles: Vec<Num>,
    pub pitch: Num,
    pub color: ResolvedValue,
}

/// The gradient a call spells, as `(kind, stops)`: `gradient(…)` is linear at
/// 135°, `linear-gradient(angle, …)` takes a leading angle,
/// `radial-gradient(…)` is radial. Fewer than two stops is no gradient.
pub open spec fn gradient_of(v: Val) -> Option<(GradientKind, Seq<Val>)> {
    match v {
        Val::Call(name, args) => {
            let parsed: Option<(GradientKind, Seq<Val>)> = if name == "gradient"@ {
                Some((GradientKind::Linear(Num::spec_whole(135)), args))
            } else if name == "linear-gradient"@ {
                if args.len() > 0 && args[0] is Number {
                    Some((GradientKind::Linear(args[0]->Number_0), args.skip(1)))
                } else {
                    None
                }
            } else if name == "radial-gradient"@ {
                Some((GradientKind::Radial, args))
            } else {
                None
            };
            match parsed {
                Some(p) => if p.1.len() >= 2 {
                    Some(p)
                } else {
                    None
                },
                None => None,
            }
        },
        _ => None,
    }
}

/// The angles a hatch's first argument spells: a number, or the numbers of a
/// space-group.
pub open spec fn numbers_in(xs: Seq<Val>) -> Seq<Num>
    decreases xs.len(),
{
    if xs.len() == 0 {
        Seq::empty()
    } else {
        let rest = numbers_in(xs.drop_last());
        match xs.last() {
            Val::Number(n) => rest.push(n),
            _ => rest,
        }
    }
}

/// The default hatch line paint: the `--stroke` variable.
pub open spec fn stroke_var() -> Val {
    Val::LiveVar("stroke"@, false)
}

/// The hatch a call spells, as `(angles, pitch, colour)`: `hatch(angle[s][,
/// pitch[, colour]])` — angles a number or a space-group (at least one), pitch
/// a positive number (default 6), colour any paint (default `--stroke`).
pub open spec fn hatch_of(v: Val) -> Option<(Seq<Num>, Num, Val)> {
    match v {
        Val::Call(name, args) => {
            if name != "hatch"@ || args.len() == 0 {
                None
            } else {
                let angles: Option<Seq<Num>> = match args[0] {
                    Val::Number(a) => Some(seq![a]),
                    Val::Tuple(xs) => Some(numbers_in(xs)),
                    _ => None,
                };
                match angles {
                    Some(a) => if a.len() == 0 {
                        None
                    } else {
                        let pitch = if args.len() > 1 && args[1] is Number && args[1]->Number_0.spec_mant()
                            > 0 {
                            args[1]->Number_0
                        } else {
                            Num::spec_whole(6)
                        };
                        let color = if args.len() > 2 {
                            args[2]
                        } else {
                            stroke_var()
                        };
                        Some((a, pitch, color))
                    },
                    None => None,
                }
            }
        },
        _ => None,
    }
}

/// A number written exactly: whole digits, then the fraction digits without
/// trailing zeros — equal values read the same.
pub open spec fn exact_text(n: Num) -> Seq<char> {
    let a = (if n.spec_mant() < 0 { -n.spec_mant() } else { n.spec_mant() }) as nat;
    let p = pow10(n.spec_exp());
    let sign: Seq<char> = if n.spec_mant() < 0 { seq!['-'] } else { Seq::empty() };
    if (a as int) % p == 0 {
        sign + digits_of(((a as int) / p) as nat)
    } else {
        sign + digits_of(((a as int) / p) as nat) + seq!['.'] + trimmed(((a as int) % p) as nat, n.spec_exp())
    }
}

/// A length-prefixed text field: tag, length, `:`, the characters.
pub open spec fn enc_text(tag: char, s: Seq<char>) -> Seq<char> {
    seq![tag] + digits_of(s.len()) + seq![':'] + s
}

/// The unambiguous encoding of a value: every field is tagged, texts are
/// length-prefixed, groups bracketed, numbers written exactly.
pub open spec fn enc(v: Val) -> Seq<char>
    decreases v,
{
    match v {
        Val::Number(n) => seq!['N'] + exact_text(n) + seq![';'],
        Val::Percent(n) => seq!['P'] + exact_text(n) + seq![';'],
        Val::String(s) => enc_text('S', s),
        Val::Hex(s) => enc_text('H', s),
        Val::Ident(s) => enc_text('I', s),
        Val::RawCss(s) => enc_text('C', s),
        Val::Tuple(xs) => seq!['T'] + enc_seq(xs) + seq![']'],
        Val::List(xs) => seq!['L'] + enc_seq(xs) + seq![']'],
        Val::Call(name, xs) => enc_text('F', name) + enc_seq(xs) + seq![']'],
        Val::LiveVar(name, raw) => enc_text(if raw { 'R' } else { 'V' }, name),
    }
}

/// The encodings of a sequence of values, one after another.
pub open spec fn enc_seq(xs: Seq<Val>) -> Seq<char>
    decreases xs,
{
    if xs.len() == 0 {
        Seq::empty()
    } else {
        enc_seq(xs.drop_last()) + enc(xs.last())
    }
}

/// A gradient's dedup key: the kind (a linear angle as `num` reads it) and
/// the stops.
pub open spec fn gradient_key(kind: GradientKind, stops: Seq<Val>) -> Seq<char> {
    match kind {
        GradientKind::Linear(a) => seq!['L'] + num_text(a) + seq!['|'] + enc_seq(stops),
        GradientKind::Radial => seq!['R', '|'] + enc_seq(stops),
    }
}

/// The exact encodings of a list of numbers.
pub open spec fn enc_nums(ns: Seq<Num>) -> Seq<char>
    decreases ns.len(),
{
    if ns.len() == 0 {
        Seq::empty()
    } else {
        enc_nums(ns.drop_last()) + exact_text(ns.last()) + seq![';']
    }
}

/// A hatch's dedup key: the exact angles, the pitch as `num` reads it, the
/// colour.
pub open spec fn hatch_key_text(angles: Seq<Num>, pitch: Num, color: Val) -> Seq<char> {
    enc_nums(angles) + seq!['|'] + num_text(pitch) + seq!['|'] + enc(color)
}

/// Append a number written exactly.
fn push_exact_num(s: &mut String, n: &Num)
    ensures
        final(s)@ == old(s)@ + exact_text(*n),
{
    let m = n.mant();
    let a: u64 = if m < 0 {
        ((-(m + 1)) as u64) + 1
    } else {
        m as u64
    };
    let p = crate::resolve::pow10_i64(n.exp()) as u64;
    if m < 0 {
        s.push('-');
    }
    let ghost s0 = s@;
    push_big_digits(s, (a / p) as u128);
    let ghost s1 = s@;
    if a % p != 0 {
        s.push('.');
        push_trimmed(s, (a % p) as u128, n.exp());
        proof {
            assert(s@ =~= s1 + seq!['.'] + trimmed(((a as int) % pow10(n.spec_exp())) as nat, n.spec_exp()));
        }
    }
    proof {
        let sign: Seq<char> = if m < 0 { seq!['-'] } else { Seq::empty() };
        assert(s0 =~= old(s)@ + sign);
        assert(s@ =~= old(s)@ + exact_text(*n));
    }
}

/// Append a length-prefixed text field.
fn push_enc_text(s: &mut String, tag: char, t: &str)
    ensures
        final(s)@ == old(s)@ + enc_text(tag, t@),
{
    s.push(tag);
    push_big_digits(s, crate::text::chars_of(t).len() as u128);
    s.push(':');
    push_str(s, t);
    proof {
        assert(final(s)@ =~= old(s)@ + enc_text(tag, t@));
    }
}

/// Append the encoding of a value.
pub fn push_enc(s: &mut String, v: &ResolvedValue)
    ensures
        final(s)@ == old(s)@ + enc(v.deep()),
    decreases v,
{
    match v {
        ResolvedValue::Number(n) => {
            s.push('N');
            push_exact_num(s, n);
            s.push(';');
        },
        ResolvedValue::Percent(n) => {
            s.push('P');
            push_exact_num(s, n);
            s.push(';');
        },
        ResolvedValue::String(t) => push_enc_text(s, 'S', t.as_str()),
        ResolvedValue::Hex(t) => push_enc_text(s, 'H', t.as_str()),
        ResolvedValue::Ident(t) => push_enc_text(s, 'I', t.as_str()),
        ResolvedValue::RawCss(t) => push_enc_text(s, 'C', t.as_str()),
        ResolvedValue::Tuple(items) => {
            s.push('T');
            push_enc_seq(s, items);
            s.push(']');
        },
        ResolvedValue::List(items) => {
            s.push('L');
            push_enc_seq(s, items);
            s.push(']');
        },
        ResolvedValue::Call(c) => {
            push_enc_text(s, 'F', c.name.as_str());
            push_enc_seq(s, &c.args);
            s.push(']');
        },
        ResolvedValue::LiveVar { name, raw } => push_enc_text(
            s,
            if *raw {
                'R'
            } else {
                'V'
            },
            name.as_str(),
        ),
    }
    proof {
        assert(final(s)@ =~= old(s)@ + enc(v.deep()));
    }
}

/// Append the encodings of a sequence of values.
pub fn push_enc_seq(s: &mut String, items: &Vec<ResolvedValue>)
    ensures
        final(s)@ == old(s)@ + enc_seq(deep_seq(items@)),
    decreases items,
{
    let n = items.len();
    let mut i: usize = 0;
    proof {
        lemma_deep_seq(items@);
    }
    while i < n
        invariant
            n == items@.len(),
            i <= n,
            deep_seq(items@).len() == n,
            forall|j: int| 0 <= j < n ==> #[trigger] deep_seq(items@)[j] == items@[j].deep(),
            s@ == old(s)@ + enc_seq(deep_seq(items@).take(i as int)),
        decreases n - i,
    {
        assert(decreases_to!(items => items@[i as int]));
        push_enc(s, &items[i]);
        proof {
            let d = deep_seq(items@);
            assert(d.take(i + 1).drop_last() =~= d.take(i as int));
            assert(s@ =~= old(s)@ + enc_seq(d.take(i + 1)));
        }
        i = i + 1;
    }
    proof {
        assert(deep_seq(items@).take(n as int) =~= deep_seq(items@));
    }
}

/// Independent copies of `items` from index `start` on.
fn clone_tail(items: &Vec<ResolvedValue>, start: usize) -> (r: Vec<ResolvedValue>)
    requires
        start <= items@.len(),
    ensures
        deep_seq(r@) == deep_seq(items@).skip(start as int),
{
    let n = items.len();
    let mut out: Vec<ResolvedValue> = Vec::new();
    let mut i: usize = start;
    proof {
        lemma_deep_seq(items@);
        lemma_deep_seq(out@);
    }
    while i < n
        invariant
            n == items@.len(),
            start <= i <= n,
            out@.len() == i - start,
            deep_seq(items@).len() == n,
            forall|j: int| 0 <= j < n ==> #[trigger] deep_seq(items@)[j] == items@[j].deep(),
            forall|j: int| 0 <= j < out@.len() ==> #[trigger] out@[j].deep() == items@[start + j].deep(),
        decreases n - i,
    {
        let c = items[i].deep_clone();
        out.push(c);
        i = i + 1;
    }
    proof {
        lemma_deep_seq(out@);
        assert(deep_seq(out@) =~= deep_seq(items@).skip(start as int));
    }
    out
}

/// Recognise and parse a gradient paint. `None` if `v` is not a gradient (or
/// has fewer than two stops).
pub fn parse(v: &ResolvedValue) -> (r: Option<GradientDef>)
    ensures
        match gradient_of(v.deep()) {
            Some(g) => r matches Some(d) && d.kind == g.0 && deep_seq(d.stops@) == g.1,
            None => r is None,
        },
{
    match v {
        ResolvedValue::Call(c) => {
            let name = c.name.as_str();
            proof {
                lemma_deep_seq(c.args@);
            }
            if str_eq(name, "gradient") {
                if c.args.len() >= 2 {
                    Some(GradientDef { kind: GradientKind::Linear(Num::whole(135)), stops: clone_values(&c.args) })
                } else {
                    None
                }
            } else if str_eq(name, "linear-gradient") {
                if c.args.len() == 0 {
                    return None;
                }
                match c.args[0].as_number() {
                    Some(a) => {
                        if c.args.len() - 1 >= 2 {
                            Some(GradientDef { kind: GradientKind::Linear(a), stops: clone_tail(&c.args, 1) })
                        } else {
                            None
                        }
                    },
                    None => None,
                }
            } else if str_eq(name, "radial-gradient") {
                if c.args.len() >= 2 {
                    Some(GradientDef { kind: GradientKind::Radial, stops: clone_values(&c.args) })
                } else {
                    None
                }
            } else {
                None
            }
        },
        _ => None,
    }
}

/// A structural dedup key: kind + angle + the stops. Two paint sites with
/// the same gradient share one definition.
pub fn key(g: &GradientDef) -> (k: String)
    ensures
        k@ == gradient_key(g.kind, deep_seq(g.stops@)),
{
    let mut s = String::new();
    match g.kind {
        GradientKind::Linear(a) => {
            s.push('L');
            let t = num(&a);
            push_str(&mut s, t.as_str());
            s.push('|');
        },
        GradientKind::Radial => {
            s.push('R');
            s.push('|');
        },
    }
    let ghost s0 = s@;
    push_enc_seq(&mut s, &g.stops);
    proof {
        assert(s@ =~= gradient_key(g.kind, deep_seq(g.stops@)));
    }
    s
}

/// Recognise and parse a hatch paint: `hatch(angle[s][, pitch[, colour]])`.
pub fn parse_hatch(v: &ResolvedValue) -> (r: Option<HatchDef>)
    ensures
        match hatch_of(v.deep()) {
            Some(h) => r matches Some(d) && d.angles@ == h.0 && d.pitch == h.1 && d.color.deep() == h.2,
            None => r is None,
        },
{
    let c = match v {
        ResolvedValue::Call(c) => c,
        _ => {
            return None;
        },
    };
    if !str_eq(c.name.as_str(), "hatch") || c.args.len() == 0 {
        return None;
    }
    proof {
        lemma_deep_seq(c.args@);
    }
    let mut angles: Vec<Num> = Vec::new();
    match &c.args[0] {
        ResolvedValue::Number(a) => {
            angles.push(*a);
            proof {
                assert(angles@ =~= seq![*a]);
            }
        },
        ResolvedValue::Tuple(xs) => {
            let n = xs.len();
            let mut i: usize = 0;
            proof {
                lemma_deep_seq(xs@);
            }
            while i < n
                invariant
                    n == xs@.len(),
                    i <= n,
                    deep_seq(xs@).len() == n,
                    forall|j: int| 0 <= j < n ==> #[trigger] deep_seq(xs@)[j] == xs@[j].deep(),
                    angles@ == numbers_in(deep_seq(xs@).take(i as int)),
                decreases n - i,
            {
                proof {
                    assert(deep_seq(xs@).take(i + 1).drop_last() =~= deep_seq(xs@).take(i as int));
                }
                match xs[i].as_number() {
                    Some(a) => angles.push(a),
                    None => {},
                }
                i = i + 1;
            }
            proof {
                assert(deep_seq(xs@).take(n as int) =~= deep_seq(xs@));
            }
        },
        _ => {
            return None;
        },
    }
    if angles.len() == 0 {
        return None;
    }
    let pitch = if c.args.len() > 1 {
        match c.args[1].as_number() {
            Some(p) => if p.mant() > 0 {
                p
            } else {
                Num::whole(6)
            },
            None => Num::whole(6),
        }
    } else {
        Num::whole(6)
    };
    let color = if c.args.len() > 2 {
        c.args[2].deep_clone()
    } else {
        let mut name = String::new();
        push_str(&mut name, "stroke");
        ResolvedValue::LiveVar { name, raw: false }
    };
    Some(HatchDef { angles, pitch, color })
}

/// Append the exact encodings of a list of numbers.
fn push_enc_nums(s: &mut String, ns: &Vec<Num>)
    ensures
        final(s)@ == old(s)@ + enc_nums(ns@),
{
    let n = ns.len();
    let mut i: usize = 0;
    while i < n
        invariant
            n == ns@.len(),
            i <= n,
            s@ == old(s)@ + enc_nums(ns@.take(i as int)),
        decreases n - i,
    {
        push_exact_num(s, &ns[i]);
        s.push(';');
        proof {
            assert(ns@.take(i + 1).drop_last() =~= ns@.take(i as int));
            assert(s@ =~= old(s)@ + enc_nums(ns@.take(i + 1)));
        }
        i = i + 1;
    }
    proof {
        assert(ns@.take(n as int) =~= ns@);
    }
}

/// A hatch's dedup key.
pub fn hatch_key(h: &HatchDef) -> (k: String)
    ensures
        k@ == hatch_key_text(h.angles@, h.pitch, h.color.deep()),
{
    let mut s = String::new();
    push_enc_nums(&mut s, &h.angles);
    s.push('|');
    let t = num(&h.pitch);
    push_str(&mut s, t.as_str());
    s.push('|');
    push_enc(&mut s, &h.color);
    proof {
        assert(s@ =~= hatch_key_text(h.angles@, h.pitch, h.color.deep()));
    }
    s
}

/// The index of the first key at or after `i` that reads `k`.
pub open spec fn key_from(keys: Seq<String>, k: Seq<char>, i: int) -> Option<int>
    decreases keys.len() - i,
{
    if i < 0 || i >= keys.len() {
        None
    } else if keys[i]@ == k {
        Some(i)
    } else {
        key_from(keys, k, i + 1)
    }
}

/// Where key `k` was first interned, or where it will be.
pub open spec fn slot(keys: Seq<String>, k: Seq<char>) -> int {
    match key_from(keys, k, 0) {
        Some(i) => i,
        None => keys.len() as int,
    }
}

/// The keys as texts.
pub open spec fn texts(keys: Seq<String>) -> Seq<Seq<char>> {
    keys.map_values(|s: String| s@)
}

/// The keys after interning `k`: unchanged when already present, else `k`
/// appended.
pub open spec fn interned(keys: Seq<String>, k: Seq<char>) -> Seq<Seq<char>> {
    if key_from(keys, k, 0) is Some {
        texts(keys)
    } else {
        texts(keys).push(k)
    }
}

/// The `url(#…)` reference to the `i`-th (0-based) def of a table.
pub open spec fn def_url(table: Seq<char>, i: int) -> Seq<char> {
    "url(#lini-"@ + table + seq!['-'] + digits_of((i + 1) as nat) + seq![')']
}

/// The two interning tables, threaded through one walk, and the distinct
/// clip radii in encounter order.
pub struct Interner {
    pub gradient_keys: Vec<String>,
    pub gradients: Vec<GradientDef>,
    pub hatch_keys: Vec<String>,
    pub hatches: Vec<HatchDef>,
    pub clips: Vec<Num>,
}

impl Interner {
    /// One definition per key.
    pub open spec fn wf(self) -> bool {
        self.gradient_keys@.len() == self.gradients@.len() && self.hatch_keys@.len() == self.hatches@.len()
    }
}

impl Default for Interner {
    fn default() -> (it: Interner)
        ensures
            it.wf(),
            it.gradient_keys@.len() == 0,
            it.gradients@.len() == 0,
            it.hatch_keys@.len() == 0,
            it.hatches@.len() == 0,
            it.clips@.len() == 0,
    {
        Interner {
            gradient_keys: Vec::new(),
            gradients: Vec::new(),
            hatch_keys: Vec::new(),
            hatches: Vec::new(),
            clips: Vec::new(),
        }
    }
}

/// The first index of `keys` holding `k`.
fn position(keys: &Vec<String>, k: &str) -> (r: Option<usize>)
    ensures
        match r {
            Some(i) => key_from(keys@, k@, 0) == Some(i as int),
            None => key_from(keys@, k@, 0) is None,
        },
{
    let mut i: usize = 0;
    while i < keys.len()
        invariant
            i <= keys@.len(),
            key_from(keys@, k@, 0) == key_from(keys@, k@, i as int),
        decreases keys@.len() - i,
    {
        if str_eq(keys[i].as_str(), k) {
            return Some(i);
        }
        i = i + 1;
    }
    None
}

/// The `url(#lini-{table}-{i + 1})` reference.
fn url_of(table: &str, i: usize) -> (u: String)
    ensures
        u@ == def_url(table@, i as int),
{
    let mut u = String::new();
    push_str(&mut u, "url(#lini-");
    push_str(&mut u, table);
    u.push('-');
    push_big_digits(&mut u, i as u128 + 1);
    u.push(')');
    proof {
        assert(u@ =~= def_url(table@, i as int));
    }
    u
}

/// Interning a key that is absent appends it; one that is present keeps the
/// table.
proof fn lemma_interned(keys: Seq<String>, k: String, found: Option<int>)
    requires
        found == key_from(keys, k@, 0),
    ensures
        found is None ==> texts(keys.push(k)) == interned(keys, k@),
        found is Some ==> texts(keys) == interned(keys, k@),
{
    if found is None {
        assert(texts(keys.push(k)) =~= texts(keys).push(k@));
    }
}

/// Key lookups past the end find nothing, so a key found in a table is
/// within it.
proof fn lemma_key_from_bounds(keys: Seq<String>, k: Seq<char>, i: int)
    requires
        0 <= i,
    ensures
        key_from(keys, k, i) matches Some(j) ==> i <= j < keys.len() && keys[j]@ == k,
    decreases keys.len() - i,
{
    if i < keys.len() && keys[i]@ != k {
        lemma_key_from_bounds(keys, k, i + 1);
    }
}

/// If `value` is a gradient or a hatch, intern it and replace it with its
/// `url(#…)` reference; anything else is left alone.
pub fn rewrite(value: &mut ResolvedValue, it: &mut Interner)
    requires
        old(it).wf(),
    ensures
        final(it).wf(),
        final(it).clips@ == old(it).clips@,
        match gradient_of(old(value).deep()) {
            Some(g) => {
                let k = gradient_key(g.0, g.1);
                let i = slot(old(it).gradient_keys@, k);
                &&& final(value).deep() == Val::RawCss(def_url("gradient"@, i))
                &&& texts(final(it).gradient_keys@) == interned(old(it).gradient_keys@, k)
                &&& final(it).gradients@.take(old(it).gradients@.len() as int) == old(it).gradients@
                &&& (final(it).gradients@.len() > old(it).gradients@.len() ==> final(it).gradients@.last().kind
                    == g.0 && deep_seq(final(it).gradients@.last().stops@) == g.1)
                &&& final(it).hatch_keys@ == old(it).hatch_keys@
                &&& final(it).hatches@ == old(it).hatches@
            },
            None => match hatch_of(old(value).deep()) {
                Some(h) => {
                    let k = hatch_key_text(h.0, h.1, h.2);
                    let i = slot(old(it).hatch_keys@, k);
                    &&& final(value).deep() == Val::RawCss(def_url("hatch"@, i))
                    &&& texts(final(it).hatch_keys@) == interned(old(it).hatch_keys@, k)
                    &&& final(it).hatches@.take(old(it).hatches@.len() as int) == old(it).hatches@
                    &&& (final(it).hatches@.len() > old(it).hatches@.len() ==> final(it).hatches@.last().angles@
                        == h.0 && final(it).hatches@.last().pitch == h.1 && final(it).hatches@.last().color.deep()
                        == h.2)
                    &&& final(it).gradient_keys@ == old(it).gradient_keys@
                    &&& final(it).gradients@ == old(it).gradients@
                },
                None => {
                    &&& *final(value) == *old(value)
                    &&& final(it).gradient_keys@ == old(it).gradient_keys@
                    &&& final(it).gradients@ == old(it).gradients@
                    &&& final(it).hatch_keys@ == old(it).hatch_keys@
                    &&& final(it).hatches@ == old(it).hatches@
                },
            },
        },
{
    if let Some(g) = parse(value) {
        let k = key(&g);
        let found = position(&it.gradient_keys, k.as_str());
        proof {
            lemma_interned(it.gradient_keys@, k, key_from(it.gradient_keys@, k@, 0));
            lemma_key_from_bounds(it.gradient_keys@, k@, 0);
        }
        let idx = match found {
            Some(i) => i,
            None => {
                it.gradient_keys.push(k);
                it.gradients.push(g);
                proof {
                    assert(it.gradients@.take(old(it).gradients@.len() as int) =~= old(it).gradients@);
                }
                it.gradient_keys.len() - 1
            },
        };
        proof {
            if found is Some {
                assert(it.gradients@.take(old(it).gradients@.len() as int) =~= old(it).gradients@);
            }
        }
        *value = ResolvedValue::RawCss(url_of("gradient", idx));
        return;
    }
    if let Some(h) = parse_hatch(value) {
        let k = hatch_key(&h);
        let found = position(&it.hatch_keys, k.as_str());
        proof {
            lemma_interned(it.hatch_keys@, k, key_from(it.hatch_keys@, k@, 0));
            lemma_key_from_bounds(it.hatch_keys@, k@, 0);
        }
        let idx = match found {
            Some(i) => i,
            None => {
                it.hatch_keys.push(k);
                it.hatches.push(h);
                proof {
                    assert(it.hatches@.take(old(it).hatches@.len() as int) =~= old(it).hatches@);
                }
                it.hatch_keys.len() - 1
            },
        };
        proof {
            if found is Some {
                assert(it.hatches@.take(old(it).hatches@.len() as int) =~= old(it).hatches@);
            }
        }
        *value = ResolvedValue::RawCss(url_of("hatch", idx));
    }
}

/// A number in units of `10^-18`.
pub open spec fn scaled(n: Num) -> int {
    n.spec_mant() * pow10((18 - n.spec_exp()) as nat)
}

/// Two radii closer than `10^-9`: one clip.
pub open spec fn near(a: Num, b: Num) -> bool {
    -1_000_000_000 < scaled(a) - scaled(b) < 1_000_000_000
}

/// The first clip radius at or after `i` near `r`.
pub open spec fn clip_from(clips: Seq<Num>, r: Num, i: int) -> Option<int>
    decreases clips.len() - i,
{
    if i < 0 || i >= clips.len() {
        None
    } else if near(clips[i], r) {
        Some(i)
    } else {
        clip_from(clips, r, i + 1)
    }
}

/// A number in units of `10^-18`, exactly.
fn scaled_of(n: &Num) -> (v: i128)
    ensures
        v == scaled(*n),
        -10_000_000_000_000_000_000_000_000_000_000_000_000 < v < 10_000_000_000_000_000_000_000_000_000_000_000_000,
{
    let e = n.exp();
    let m = n.mant();
    let p = crate::resolve::pow10_i64(18 - e);
    proof {
        crate::resolve::lemma_pow10_bound((18 - e) as nat);
        assert(-9_223_372_036_854_775_808 * 1_000_000_000_000_000_000 <= m * p <= 9_223_372_036_854_775_807
            * 1_000_000_000_000_000_000) by (nonlinear_arith)
            requires -9_223_372_036_854_775_808 <= m <= 9_223_372_036_854_775_807, 1 <= p <= 1_000_000_000_000_000_000;
    }
    m as i128 * p as i128
}

/// A `|detail|`'s `clip:` circle: intern the radius (radii closer than
/// `10^-9` share one) and rewrite the attr to its `url(#lini-clip-N)`
/// reference, exactly as the paints do.
pub fn lower_clip(attrs: &mut AttrMap, it: &mut Interner)
    ensures
        final(it).gradient_keys@ == old(it).gradient_keys@,
        final(it).gradients@ == old(it).gradients@,
        final(it).hatch_keys@ == old(it).hatch_keys@,
        final(it).hatches@ == old(it).hatches@,
        match entry_lookup(old(attrs).entries@, "clip"@) {
            Some(ResolvedValue::Number(r)) => {
                let i = match clip_from(old(it).clips@, r, 0) {
                    Some(i) => i,
                    None => old(it).clips@.len() as int,
                };
                &&& final(it).clips@ == (if clip_from(old(it).clips@, r, 0) is Some {
                    old(it).clips@
                } else {
                    old(it).clips@.push(r)
                })
                &&& entry_lookup(final(attrs).entries@, "clip"@) matches Some(w) && w.deep() == Val::RawCss(
                    def_url("clip"@, i),
                )
                &&& forall|k: Seq<char>|
                    k != "clip"@ ==> entry_lookup(final(attrs).entries@, k) == entry_lookup(old(attrs).entries@, k)
            },
            _ => {
                &&& final(attrs).entries@ == old(attrs).entries@
                &&& final(it).clips@ == old(it).clips@
            },
        },
{
    let r = match attrs.get("clip") {
        Some(ResolvedValue::Number(r)) => *r,
        _ => {
            return;
        },
    };
    let sr = scaled_of(&r);
    let n = it.clips.len();
    let mut i: usize = 0;
    let mut found = false;
    while i < n
        invariant_except_break
            !found,
        invariant
            n == it.clips@.len(),
            i <= n,
            sr == scaled(r),
            -10_000_000_000_000_000_000_000_000_000_000_000_000 < sr < 10_000_000_000_000_000_000_000_000_000_000_000_000,
            clip_from(it.clips@, r, 0) == clip_from(it.clips@, r, i as int),
        ensures
            i <= n,
            found ==> i < n && clip_from(it.clips@, r, 0) == Some(i as int),
            !found ==> clip_from(it.clips@, r, 0) is None,
        decreases n - i,
    {
        let d = scaled_of(&it.clips[i]) - sr;
        if -1_000_000_000 < d && d < 1_000_000_000 {
            found = true;
            break;
        }
        i = i + 1;
    }
    if !found {
        it.clips.push(r);
        i = it.clips.len() - 1;
    }
    attrs.insert("clip", ResolvedValue::RawCss(url_of("clip", i)));
}

/// Key lookups read only the keys' texts.
proof fn lemma_key_from_texts(keys1: Seq<String>, keys2: Seq<String>, k: Seq<char>, i: int)
    requires
        texts(keys1) == texts(keys2),
        0 <= i,
    ensures
        key_from(keys1, k, i) == key_from(keys2, k, i),
    decreases keys1.len() - i,
{
    assert(keys1.len() == texts(keys1).len());
    assert(keys2.len() == texts(keys2).len());
    if i < keys1.len() {
        assert(keys1[i]@ == texts(keys1)[i]);
        assert(keys2[i]@ == texts(keys2)[i]);
        lemma_key_from_texts(keys1, keys2, k, i + 1);
    }
}

/// A key absent from a table is found at its end once appended.
proof fn lemma_key_from_appended(keys: Seq<String>, k: Seq<char>, i: int)
    requires
        0 <= i <= keys.len(),
        key_from(keys, k, i) is None,
    ensures
        forall|keys2: Seq<String>| texts(keys2) == texts(keys).push(k) ==> key_from(keys2, k, i) == Some(keys.len() as int),
    decreases keys.len() - i,
{
    assert forall|keys2: Seq<String>| texts(keys2) == texts(keys).push(k) implies key_from(keys2, k, i) == Some(keys.len() as int) by {
        assert(keys2.len() == texts(keys2).len());
        if i < keys.len() {
            assert(keys2[i]@ == texts(keys2)[i]);
            assert(texts(keys)[i] == keys[i]@);
            lemma_key_from_appended(keys, k, i + 1);
        } else {
            assert(keys2[i]@ == texts(keys2)[i]);
        }
    }
}

/// Identical paints share one definition: once a key is interned, interning
/// it again finds the same slot — the same `url(#…)`.
pub proof fn law_interning_again_finds_the_same_slot(keys: Seq<String>, k: Seq<char>, after: Seq<String>)
    requires
        texts(after) == interned(keys, k),
    ensures
        key_from(after, k, 0) == Some(slot(keys, k)),
        interned(after, k) == texts(after),
{
    lemma_key_from_bounds(keys, k, 0);
    if key_from(keys, k, 0) is Some {
        lemma_key_from_texts(after, keys, k, 0);
    } else {
        lemma_key_from_appended(keys, k, 0);
    }
}

/// A hatch call reads its arguments in place: a single number as the only
/// angle, a positive second number as the pitch (6 otherwise), and the
/// third argument, whenever there is one, as the colour — only a call of
/// fewer than three arguments takes the `--stroke` default. A call whose
/// first argument is a number is always a hatch.
pub proof fn law_hatch_reads_its_arguments(args: Seq<Val>)
    ensures
        args.len() > 0 && args[0] is Number ==> hatch_of(Val::Call("hatch"@, args)) is Some,
        hatch_of(Val::Call("hatch"@, args)) matches Some(h) ==> {
            &&& h.2 == (if args.len() > 2 { args[2] } else { Val::LiveVar("stroke"@, false) })
            &&& h.1 == (if args.len() > 1 && args[1] is Number && args[1]->Number_0.spec_mant() > 0 {
                args[1]->Number_0
            } else {
                Num::spec_whole(6)
            })
            &&& (args[0] is Number ==> h.0 == seq![args[0]->Number_0])
        },
{
}

/// Hatch calls that differ in their written colour are different hatches,
/// so they never intern to one definition.
pub proof fn law_hatch_colours_stay_apart(a: Seq<Val>, b: Seq<Val>)
    requires
        a.len() > 2,
        b.len() > 2,
        a[2] != b[2],
        hatch_of(Val::Call("hatch"@, a)) is Some,
        hatch_of(Val::Call("hatch"@, b)) is Some,
    ensures
        hatch_of(Val::Call("hatch"@, a)) != hatch_of(Val::Call("hatch"@, b)),
{
    law_hatch_reads_its_arguments(a);
    law_hatch_reads_its_arguments(b);
}

} // verus!
