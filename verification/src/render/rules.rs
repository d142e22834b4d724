//! The stylesheet's data model and the queries the renderers run against it.
//! A [`Rule`] is one class selector plus its ordered CSS props; a
//! [`RuleSet`] is a document's rules. `emit` writes the `<style>` body;
//! `provided` / `marker_fill` answer the cascade so inline paint can be
//! diffed against the class rules (`inline_paint_diff`), and
//! `effective_stroke` resolves a stroke through the sheet.

use super::values::{attr_or_var, dasharray_text, dasharray_value, format_text, format_value};
use crate::resolve::{entry_lookup, AttrMap, Num, ResolvedValue, Val, VarTable};
use crate::text::{push_str, str_eq};
use crate::Options;
use vstd::prelude::*;

verus! {

/// The number of paint properties an element can carry inline.
pub open spec fn paint_prop_count() -> nat {
    11
}

/// Paint property `i`, in emission order. Lini property names already match
/// CSS, so each is its own CSS name; `stroke-style` is the exception,
/// compiling to `stroke-dasharray` jointly with `stroke-width`.
pub open spec fn paint_prop(i: int) -> &'static str {
    if i == 0 {
        "fill"
    } else if i == 1 {
        "stroke"
    } else if i == 2 {
        "stroke-width"
    } else if i == 3 {
        "opacity"
    } else if i == 4 {
        "color"
    } else if i == 5 {
        "font-family"
    } else if i == 6 {
        "font-size"
    } else if i == 7 {
        "font-weight"
    } else if i == 8 {
        "font-style"
    } else if i == 9 {
        "text-decoration"
    } else {
        "text-shadow"
    }
}

/// Paint property `i`.
pub fn paint_prop_at(i: usize) -> (p: &'static str)
    requires
        i < 11,
    ensures
        p == paint_prop(i as int),
{
    match i {
        0 => "fill",
        1 => "stroke",
        2 => "stroke-width",
        3 => "opacity",
        4 => "color",
        5 => "font-family",
        6 => "font-size",
        7 => "font-weight",
        8 => "font-style",
        9 => "text-decoration",
        _ => "text-shadow",
    }
}

/// The class every filled marker head wears.
pub open spec fn marker_class() -> &'static str {
    "lini-marker"
}

pub struct Rule {
    /// The single class the selector keys on (`lini` = the root rule).
    pub class: String,
    /// CSS property → formatted value, emission order.
    pub props: Vec<(String, String)>,
}

pub struct RuleSet {
    pub rules: Vec<Rule>,
}

/// One declaration: ` prop: value;`.
pub open spec fn decl_text(prop: Seq<char>, value: Seq<char>) -> Seq<char> {
    seq![' '] + prop + seq![':', ' '] + value + seq![';']
}

/// The declarations of a rule, in order.
pub open spec fn decls_text(props: Seq<(String, String)>) -> Seq<char>
    decreases props.len(),
{
    if props.len() == 0 {
        Seq::empty()
    } else {
        decls_text(props.drop_last()) + decl_text(props.last().0@, props.last().1@)
    }
}

/// One rule's line under the figure's `scope` class: the root rule keys on
/// the scope itself, every other on a descendant of it. A rule with no
/// props writes nothing.
pub open spec fn rule_text(rule: Rule, scope: Seq<char>) -> Seq<char> {
    if rule.props@.len() == 0 {
        Seq::empty()
    } else {
        "    ."@ + scope + (if rule.class@ == "lini"@ {
            Seq::empty()
        } else {
            seq![' ', '.'] + rule.class@
        }) + seq![' ', '{'] + decls_text(rule.props@) + seq![' ', '}', '\n']
    }
}

/// The `<style>` body lines of a rule list.
pub open spec fn rules_text(rules: Seq<Rule>, scope: Seq<char>) -> Seq<char>
    decreases rules.len(),
{
    if rules.len() == 0 {
        Seq::empty()
    } else {
        rules_text(rules.drop_last(), scope) + rule_text(rules.last(), scope)
    }
}

/// Splitting text on `.`: the runs between dots, in order (`""` gives one
/// empty run).
pub open spec fn dot_units(s: Seq<char>) -> Seq<Seq<char>>
    decreases s.len(),
{
    if s.len() == 0 {
        seq![Seq::empty()]
    } else {
        let rest = dot_units(s.drop_last());
        if s.last() == '.' {
            rest.push(Seq::empty())
        } else {
            rest.update(rest.len() - 1, rest.last().push(s.last()))
        }
    }
}

/// Where the first ` .` of a selector starts, searching from `i`.
pub open spec fn descendant_from(s: Seq<char>, i: int) -> Option<int>
    decreases s.len() - i,
{
    if i < 0 || i + 1 >= s.len() {
        None
    } else if s[i] == ' ' && s[i + 1] == '.' {
        Some(i)
    } else {
        descendant_from(s, i + 1)
    }
}

/// Whether a class is among those worn.
pub open spec fn wears(classes: Seq<Seq<char>>, c: Seq<char>) -> bool {
    exists|i: int| 0 <= i < classes.len() && #[trigger] classes[i] == c
}

/// Whether every unit is among `classes`.
pub open spec fn all_wear(classes: Seq<Seq<char>>, units: Seq<Seq<char>>) -> bool {
    forall|k: int| 0 <= k < units.len() ==> wears(classes, #[trigger] units[k])
}

/// How specifically a rule's selector matches an element — its class
/// count — or `None` when it does not match. A selector is a lone class
/// (`a`), a compound worn by the element (`a.b`), or a descendant
/// (`outer .inner`) whose outer class an ancestor wears.
pub open spec fn selector_rank(class: Seq<char>, classes: Seq<Seq<char>>, ancestors: Seq<Seq<char>>) -> Option<nat> {
    let split = descendant_from(class, 0);
    let inner = match split {
        Some(i) => class.skip(i + 2),
        None => class,
    };
    let outer_ok = match split {
        Some(i) => wears(ancestors, class.take(i)),
        None => true,
    };
    let units = dot_units(inner);
    if outer_ok && all_wear(classes, units) {
        Some(units.len() + if split is Some { 1nat } else { 0nat })
    } else {
        None
    }
}

/// The value a rule's props give `prop` first, if any.
pub open spec fn prop_value(props: Seq<(String, String)>, prop: Seq<char>, i: int) -> Option<Seq<char>>
    decreases props.len() - i,
{
    if i < 0 || i >= props.len() {
        None
    } else if props[i].0@ == prop {
        Some(props[i].1@)
    } else {
        prop_value(props, prop, i + 1)
    }
}

/// The cascade over a rule list: the value of the most specific matching
/// rule that sets `prop`, later rules winning ties — with its rank.
pub open spec fn cascade(rules: Seq<Rule>, classes: Seq<Seq<char>>, ancestors: Seq<Seq<char>>, prop: Seq<char>) -> Option<
    (nat, Seq<char>),
>
    decreases rules.len(),
{
    if rules.len() == 0 {
        None
    } else {
        let before = cascade(rules.drop_last(), classes, ancestors, prop);
        let r = rules.last();
        match (selector_rank(r.class@, classes, ancestors), prop_value(r.props@, prop, 0)) {
            (Some(rank), Some(v)) => if before matches Some(b) && rank < b.0 {
                before
            } else {
                Some((rank, v))
            },
            _ => before,
        }
    }
}

/// The characters `from..to` of `chars`, as a string.
pub(crate) fn string_of(chars: &Vec<char>, from: usize, to: usize) -> (r: String)
    requires
        from <= to <= chars@.len(),
    ensures
        r@ == chars@.subrange(from as int, to as int),
{
    let mut r = String::new();
    let mut i = from;
    while i < to
        invariant
            from <= i <= to <= chars@.len(),
            r@ == chars@.subrange(from as int, i as int),
        decreases to - i,
    {
        r.push(chars[i]);
        i = i + 1;
        proof {
            assert(r@ =~= chars@.subrange(from as int, i as int));
        }
    }
    r
}

/// The views of a list of strings.
pub open spec fn views(v: Seq<String>) -> Seq<Seq<char>> {
    v.map_values(|s: String| s@)
}

/// The dot-separated units of `chars`.
fn units_of(chars: &Vec<char>) -> (u: Vec<String>)
    ensures
        views(u@) == dot_units(chars@),
{
    let mut done: Vec<String> = Vec::new();
    let mut cur = String::new();
    let mut i: usize = 0;
    proof {
        assert(chars@.take(0) =~= Seq::<char>::empty());
        assert(views(done@).push(cur@) =~= seq![Seq::<char>::empty()]);
    }
    while i < chars.len()
        invariant
            i <= chars@.len(),
            views(done@).push(cur@) == dot_units(chars@.take(i as int)),
        decreases chars@.len() - i,
    {
        let c = chars[i];
        let ghost before = views(done@).push(cur@);
        proof {
            assert(chars@.take(i + 1).drop_last() =~= chars@.take(i as int));
            assert(chars@.take(i + 1).last() == c);
        }
        if c == '.' {
            let mut finished = String::new();
            std::mem::swap(&mut finished, &mut cur);
            done.push(finished);
            proof {
                assert(views(done@).push(cur@) =~= before.push(Seq::empty()));
            }
        } else {
            cur.push(c);
            proof {
                assert(views(done@).push(cur@) =~= before.update(before.len() - 1, before.last().push(c)));
            }
        }
        i = i + 1;
    }
    let ghost last = cur@;
    done.push(cur);
    proof {
        assert(chars@.take(chars@.len() as int) =~= chars@);
        assert(views(done@) =~= views(done@.drop_last()).push(last));
    }
    done
}

/// Whether `c` is among `classes`.
fn wears_exec(classes: &[String], c: &str) -> (b: bool)
    ensures
        b == wears(views(classes@), c@),
{
    let mut i: usize = 0;
    while i < classes.len()
        invariant
            i <= classes@.len(),
            forall|j: int| 0 <= j < i ==> (#[trigger] views(classes@)[j]) != c@,
        decreases classes@.len() - i,
    {
        if str_eq(classes[i].as_str(), c) {
            assert(views(classes@)[i as int] == c@);
            return true;
        }
        i = i + 1;
    }
    false
}

/// Where the first ` .` of a selector starts.
fn descendant_at(chars: &Vec<char>) -> (r: Option<usize>)
    ensures
        match r {
            Some(i) => descendant_from(chars@, 0) == Some(i as int) && i + 1 < chars@.len(),
            None => descendant_from(chars@, 0) is None,
        },
{
    let n = chars.len();
    let mut i: usize = 0;
    while i < n
        invariant
            n == chars@.len(),
            i <= n,
            descendant_from(chars@, 0) == descendant_from(chars@, i as int),
        decreases n - i,
    {
        if i + 1 < n && chars[i] == ' ' && chars[i + 1] == '.' {
            return Some(i);
        }
        i = i + 1;
    }
    None
}

/// A selector has at most one more dot-unit than characters.
proof fn lemma_dot_units_len(s: Seq<char>)
    ensures
        dot_units(s).len() <= s.len() + 1,
        dot_units(s).len() >= 1,
    decreases s.len(),
{
    if s.len() > 0 {
        lemma_dot_units_len(s.drop_last());
    }
}

/// Whether every unit is among `classes`.
fn all_worn(units: &Vec<String>, classes: &[String]) -> (b: bool)
    ensures
        b == all_wear(views(classes@), views(units@)),
{
    let n = units.len();
    let mut k: usize = 0;
    while k < n
        invariant
            n == units@.len(),
            k <= n,
            forall|j: int| 0 <= j < k ==> wears(views(classes@), #[trigger] views(units@)[j]),
        decreases n - k,
    {
        if !wears_exec(classes, units[k].as_str()) {
            proof {
                assert(views(units@)[k as int] == units@[k as int]@);
            }
            return false;
        }
        k = k + 1;
    }
    true
}

/// How specifically a rule's selector matches an element.
fn rank_of(class: &str, classes: &[String], ancestors: &[String]) -> (r: Option<usize>)
    ensures
        match r {
            Some(k) => selector_rank(class@, views(classes@), views(ancestors@)) == Some(k as nat),
            None => selector_rank(class@, views(classes@), views(ancestors@)) is None,
        },
{
    let chars = crate::text::chars_of(class);
    let len = chars.len();
    let split = descendant_at(&chars);
    let inner_chars: Vec<char>;
    let mut outer = false;
    match split {
        Some(i) => {
            let o = string_of(&chars, 0, i);
            proof {
                assert(chars@.subrange(0, i as int) =~= chars@.take(i as int));
            }
            if !wears_exec(ancestors, o.as_str()) {
                return None;
            }
            outer = true;
            let inner = string_of(&chars, i + 2, len);
            proof {
                assert(chars@.subrange(i + 2, len as int) =~= chars@.skip(i + 2));
            }
            inner_chars = crate::text::chars_of(inner.as_str());
        },
        None => {
            inner_chars = crate::text::chars_of(class);
        },
    }
    let ghost inner_spec = match split {
        Some(i) => class@.skip(i + 2),
        None => class@,
    };
    assert(inner_chars@ == inner_spec);
    assert(outer == split is Some);
    let units = units_of(&inner_chars);
    let n = units.len();
    proof {
        lemma_dot_units_len(inner_spec);
        assert(n <= inner_spec.len() + 1);
        if outer {
            assert(inner_spec.len() + 2 <= len);
        }
    }
    if !all_worn(&units, classes) {
        proof {
            assert(views(units@) == dot_units(inner_spec));
        }
        return None;
    }
    if outer {
        Some(n + 1)
    } else {
        Some(n)
    }
}

/// The first value a rule's props give `prop`.
fn prop_lookup<'a>(props: &'a Vec<(String, String)>, prop: &str) -> (r: Option<&'a str>)
    ensures
        match r {
            Some(v) => prop_value(props@, prop@, 0) == Some(v@),
            None => prop_value(props@, prop@, 0) is None,
        },
{
    let mut i: usize = 0;
    while i < props.len()
        invariant
            i <= props@.len(),
            prop_value(props@, prop@, 0) == prop_value(props@, prop@, i as int),
        decreases props@.len() - i,
    {
        if str_eq(props[i].0.as_str(), prop) {
            return Some(props[i].1.as_str());
        }
        i = i + 1;
    }
    None
}

impl RuleSet {
    /// Append the rules to the `<style>` body, every selector headed by the
    /// figure's own `scope` class rather than the shared `.lini` — one class
    /// either way, so specificity is unchanged and host CSS overrides exactly
    /// as before.
    pub fn emit(&self, out: &mut String, scope: &str)
        ensures
            final(out)@ == old(out)@ + rules_text(self.rules@, scope@),
    {
        let n = self.rules.len();
        let mut i: usize = 0;
        while i < n
            invariant
                n == self.rules@.len(),
                i <= n,
                out@ == old(out)@ + rules_text(self.rules@.take(i as int), scope@),
            decreases n - i,
        {
            let rule = &self.rules[i];
            let ghost before = out@;
            if rule.props.len() > 0 {
                push_str(out, "    .");
                push_str(out, scope);
                if !str_eq(rule.class.as_str(), "lini") {
                    out.push(' ');
                    out.push('.');
                    push_str(out, rule.class.as_str());
                }
                out.push(' ');
                out.push('{');
                let ghost head = out@;
                let m = rule.props.len();
                let mut j: usize = 0;
                while j < m
                    invariant
                        m == rule.props@.len(),
                        j <= m,
                        out@ == head + decls_text(rule.props@.take(j as int)),
                    decreases m - j,
                {
                    out.push(' ');
                    push_str(out, rule.props[j].0.as_str());
                    out.push(':');
                    out.push(' ');
                    push_str(out, rule.props[j].1.as_str());
                    out.push(';');
                    proof {
                        assert(rule.props@.take(j + 1).drop_last() =~= rule.props@.take(j as int));
                        assert(out@ =~= head + decls_text(rule.props@.take(j + 1)));
                    }
                    j = j + 1;
                }
                out.push(' ');
                out.push('}');
                out.push('\n');
                proof {
                    assert(rule.props@.take(m as int) =~= rule.props@);
                    assert(out@ =~= before + rule_text(*rule, scope@));
                }
            } else {
                proof {
                    assert(out@ =~= before + rule_text(*rule, scope@));
                }
            }
            proof {
                assert(self.rules@.take(i + 1).drop_last() =~= self.rules@.take(i as int));
                assert(out@ =~= old(out)@ + rules_text(self.rules@.take(i + 1), scope@));
            }
            i = i + 1;
        }
        proof {
            assert(self.rules@.take(n as int) =~= self.rules@);
        }
    }

    /// The value the sheet provides for an element carrying `classes` under
    /// DOM ancestors carrying `ancestors` — the **most specific** matching
    /// rule wins, later rules win the tie within a specificity, exactly the
    /// CSS cascade the emitted `<style>` computes.
    pub fn provided(&self, classes: &[String], ancestors: &[String], prop: &str) -> (r: Option<&str>)
        ensures
            match cascade(self.rules@, views(classes@), views(ancestors@), prop@) {
                Some(hit) => r matches Some(v) && v@ == hit.1,
                None => r is None,
            },
    {
        let n = self.rules.len();
        let mut hit: Option<(usize, &str)> = None;
        let mut i: usize = 0;
        while i < n
            invariant
                n == self.rules@.len(),
                i <= n,
                match cascade(self.rules@.take(i as int), views(classes@), views(ancestors@), prop@) {
                    Some(h) => hit matches Some(x) && x.0 == h.0 && x.1@ == h.1,
                    None => hit is None,
                },
            decreases n - i,
        {
            let rule = &self.rules[i];
            proof {
                assert(self.rules@.take(i + 1).drop_last() =~= self.rules@.take(i as int));
                assert(self.rules@.take(i + 1).last() == *rule);
            }
            match rank_of(rule.class.as_str(), classes, ancestors) {
                Some(rank) => {
                    match prop_lookup(&rule.props, prop) {
                        Some(v) => {
                            let keep = match hit {
                                Some((best, _)) => rank < best,
                                None => false,
                            };
                            if !keep {
                                hit = Some((rank, v));
                            }
                        },
                        None => {},
                    }
                },
                None => {},
            }
            i = i + 1;
        }
        proof {
            assert(self.rules@.take(n as int) =~= self.rules@);
        }
        match hit {
            Some((_, v)) => Some(v),
            None => None,
        }
    }

    /// The `fill` the sheet paints a `.lini-marker` with, for a marker nested
    /// in an element carrying `classes`: a marker is an element wearing
    /// `lini-marker` inside its line's `<g>`, so this is [`Self::provided`]
    /// asked that question.
    pub fn marker_fill(&self, classes: &[String]) -> (r: Option<&str>)
        ensures
            match cascade(self.rules@, seq![marker_class()@], views(classes@), "fill"@) {
                Some(hit) => r matches Some(v) && v@ == hit.1,
                None => r is None,
            },
    {
        let mut marker = String::new();
        push_str(&mut marker, "lini-marker");
        let worn = vec![marker];
        proof {
            assert(worn@.map_values(|s: String| s@) =~= seq![marker_class()@]);
            assert(views(worn@) =~= seq![marker_class()@]);
        }
        let r = self.provided(worn.as_slice(), classes, "fill");
        match r {
            Some(v) => Some(v),
            None => None,
        }
    }
}

/// The stroke colour an element actually paints with: its inline `stroke`,
/// else what its classes get from the sheet, else the `--lini-stroke`
/// default. `None` when the chosen value cannot be formatted (a variable
/// chain that loops).
pub open spec fn stroke_text(
    attrs: &AttrMap,
    classes: Seq<Seq<char>>,
    ancestors: Seq<Seq<char>>,
    rules: Seq<Rule>,
    vars: &VarTable,
    opts: &Options,
) -> Option<Seq<char>> {
    match entry_lookup(attrs.entries@, "stroke"@) {
        Some(v) => format_text(v.deep(), vars, opts),
        None => match cascade(rules, classes, ancestors, "stroke"@) {
            Some(hit) => Some(hit.1),
            None => format_text(Val::LiveVar("stroke"@, false), vars, opts),
        },
    }
}

/// The stroke colour an element actually paints with — its inline
/// `stroke`, else what its classes get from the sheet (`.lini-style-*`,
/// `.lini-link`), else the `--lini-stroke` default.
pub fn effective_stroke(
    attrs: &AttrMap,
    classes: &[String],
    ancestors: &[String],
    set: &RuleSet,
    vars: &VarTable,
    opts: &Options,
) -> (t: String)
    requires
        stroke_text(attrs, views(classes@), views(ancestors@), set.rules@, vars, opts) is Some,
    ensures
        t@ == stroke_text(attrs, views(classes@), views(ancestors@), set.rules@, vars, opts).unwrap(),
{
    match attrs.get("stroke") {
        Some(v) => {
            return format_value(v, vars, opts);
        },
        None => {},
    }
    match set.provided(classes, ancestors, "stroke") {
        Some(v) => {
            let mut t = String::new();
            push_str(&mut t, v);
            proof {
                assert(t@ =~= v@);
            }
            return t;
        },
        None => {},
    }
    let none = AttrMap::new();
    proof {
        assert(entry_lookup(none.entries@, "stroke"@) is None);
    }
    attr_or_var(&none, "stroke", "stroke", vars, opts)
}

/// The `stroke-dasharray` declaration an attribute map asks for —
/// `stroke-style` compiled jointly with `stroke-width` (0 when unset) — or
/// `None` without a `stroke-style`; `none` when the style draws solid.
pub open spec fn dash_decl(attrs: &AttrMap) -> Option<Seq<char>> {
    if entry_lookup(attrs.entries@, "stroke-style"@) is None {
        None
    } else {
        let width = match entry_lookup(attrs.entries@, "stroke-width"@) {
            Some(ResolvedValue::Number(n)) => n,
            _ => Num::spec_whole(0),
        };
        let dash = dasharray_text(attrs, width);
        Some(if dash.len() == 0 { "none"@ } else { dash })
    }
}

/// The `stroke-dasharray` value for `attrs`, or `None` when no
/// `stroke-style` is set; `"none"` when the style resolves to a solid line.
pub fn dash_value(attrs: &AttrMap) -> (r: Option<String>)
    ensures
        match dash_decl(attrs) {
            Some(d) => r matches Some(t) && t@ == d,
            None => r is None,
        },
{
    if attrs.get("stroke-style").is_none() {
        return None;
    }
    let width = match attrs.number("stroke-width") {
        Some(n) => n,
        None => Num::whole(0),
    };
    let dash = dasharray_value(attrs, &width);
    if dash.as_str().is_empty() {
        let mut none = String::new();
        push_str(&mut none, "none");
        Some(none)
    } else {
        Some(dash)
    }
}

/// Whether a prop list already states `prop`.
pub open spec fn states(props: Seq<(String, String)>, prop: Seq<char>) -> bool {
    exists|i: int| 0 <= i < props.len() && #[trigger] props[i].0@ == prop
}

/// Ensure a closed-shape rule masks `stroke-dasharray`, so a container's
/// `line:` can't bleed into children through a gap in the cascade.
pub fn ensure_dash_none(props: &mut Vec<(String, String)>)
    ensures
        states(old(props)@, "stroke-dasharray"@) ==> final(props)@ == old(props)@,
        !states(old(props)@, "stroke-dasharray"@) ==> final(props)@.len() == old(props)@.len() + 1
            && final(props)@.take(old(props)@.len() as int) == old(props)@
            && final(props)@.last().0@ == "stroke-dasharray"@ && final(props)@.last().1@ == "none"@,
{
    let mut i: usize = 0;
    while i < props.len()
        invariant
            i <= props@.len(),
            props@ == old(props)@,
            forall|j: int| 0 <= j < i ==> (#[trigger] props@[j]).0@ != "stroke-dasharray"@,
        decreases props@.len() - i,
    {
        if str_eq(props[i].0.as_str(), "stroke-dasharray") {
            return;
        }
        i = i + 1;
    }
    let mut p = String::new();
    push_str(&mut p, "stroke-dasharray");
    let mut v = String::new();
    push_str(&mut v, "none");
    props.push((p, v));
    proof {
        assert(props@.take(old(props)@.len() as int) =~= old(props)@);
    }
}

/// The inline paint declarations over paint props `0..i`: each one whose
/// formatted value the element has, kept only when the sheet does not
/// already provide exactly that value.
pub open spec fn paint_diff(
    rules: Seq<Rule>,
    classes: Seq<Seq<char>>,
    ancestors: Seq<Seq<char>>,
    formatted: Seq<Option<String>>,
    i: int,
) -> Seq<(Seq<char>, Seq<char>)>
    decreases i,
{
    if i <= 0 {
        Seq::empty()
    } else {
        let before = paint_diff(rules, classes, ancestors, formatted, i - 1);
        let prop = paint_prop(i - 1)@;
        match formatted[i - 1] {
            Some(f) => if cascade(rules, classes, ancestors, prop) matches Some(hit) && hit.1 == f@ {
                before
            } else {
                before.push((prop, f@))
            },
            None => before,
        }
    }
}

/// The full inline diff: the paint props, then the joint `stroke-style →
/// stroke-dasharray` declaration under the same rule.
pub open spec fn inline_diff(
    rules: Seq<Rule>,
    classes: Seq<Seq<char>>,
    ancestors: Seq<Seq<char>>,
    attrs: &AttrMap,
    formatted: Seq<Option<String>>,
) -> Seq<(Seq<char>, Seq<char>)> {
    let paints = paint_diff(rules, classes, ancestors, formatted, paint_prop_count() as int);
    match dash_decl(attrs) {
        Some(d) => if cascade(rules, classes, ancestors, "stroke-dasharray"@) matches Some(hit) && hit.1 == d {
            paints
        } else {
            paints.push(("stroke-dasharray"@, d))
        },
        None => paints,
    }
}

/// A declaration list as text pairs.
pub open spec fn decl_views(decls: Seq<(&'static str, String)>) -> Seq<(Seq<char>, Seq<char>)> {
    decls.map_values(|d: (&'static str, String)| (d.0@, d.1@))
}

impl RuleSet {
    /// The inline paint `style=` declarations for one element — a node
    /// `<g>` or a link `<g>` — as the **difference** from what its classes
    /// already provide. `formatted[i]` is the element's own value for paint
    /// prop `i`, already formatted the way its renderer formats it (a node
    /// aliases text `color` to `fill` and adds `px` to `font-size`; a link
    /// formats plainly); `None` where it sets none. Each is kept only when
    /// it differs from the class rule (so inline beats the rule), then the
    /// joint `stroke-style → stroke-dasharray` pair the same way.
    pub fn inline_paint_diff(
        &self,
        classes: &[String],
        ancestors: &[String],
        attrs: &AttrMap,
        formatted: &Vec<Option<String>>,
    ) -> (decls: Vec<(&'static str, String)>)
        requires
            formatted@.len() == paint_prop_count(),
        ensures
            decl_views(decls@) == inline_diff(self.rules@, views(classes@), views(ancestors@), attrs, formatted@),
    {
        let mut decls: Vec<(&'static str, String)> = Vec::new();
        let mut i: usize = 0;
        while i < 11
            invariant
                i <= 11,
                formatted@.len() == 11,
                decl_views(decls@) == paint_diff(self.rules@, views(classes@), views(ancestors@), formatted@, i as int),
            decreases 11 - i,
        {
            let css = paint_prop_at(i);
            match &formatted[i] {
                Some(f) => {
                    let same = match self.provided(classes, ancestors, css) {
                        Some(v) => str_eq(v, f.as_str()),
                        None => false,
                    };
                    if !same {
                        let mut t = String::new();
                        push_str(&mut t, f.as_str());
                        decls.push((css, t));
                        proof {
                            assert(decl_views(decls@) =~= decl_views(decls@.drop_last()).push((css@, f@)));
                        }
                    }
                },
                None => {},
            }
            i = i + 1;
        }
        match dash_value(attrs) {
            Some(value) => {
                let same = match self.provided(classes, ancestors, "stroke-dasharray") {
                    Some(v) => str_eq(v, value.as_str()),
                    None => false,
                };
                if !same {
                    let ghost d = value@;
                    decls.push(("stroke-dasharray", value));
                    proof {
                        assert(decl_views(decls@) =~= decl_views(decls@.drop_last()).push(("stroke-dasharray"@, d)));
                    }
                }
            },
            None => {},
        }
        decls
    }
}

/// A rule matches an element and sets `prop`.
pub open spec fn sets(rule: Rule, classes: Seq<Seq<char>>, ancestors: Seq<Seq<char>>, prop: Seq<char>) -> bool {
    selector_rank(rule.class@, classes, ancestors) is Some && prop_value(rule.props@, prop, 0) is Some
}

/// A rule's specificity for an element it matches.
pub open spec fn rank_in(rule: Rule, classes: Seq<Seq<char>>, ancestors: Seq<Seq<char>>) -> nat {
    selector_rank(rule.class@, classes, ancestors).unwrap()
}

/// Rule `k` is the one the cascade answers with `hit`: it sets the prop
/// with that value at that specificity, no rule setting the prop is more
/// specific, and every later one is less so.
pub open spec fn wins(
    rules: Seq<Rule>,
    classes: Seq<Seq<char>>,
    ancestors: Seq<Seq<char>>,
    prop: Seq<char>,
    k: int,
    hit: (nat, Seq<char>),
) -> bool {
    &&& 0 <= k < rules.len()
    &&& sets(rules[k], classes, ancestors, prop)
    &&& rank_in(rules[k], classes, ancestors) == hit.0
    &&& prop_value(rules[k].props@, prop, 0) == Some(hit.1)
    &&& forall|j: int|
        0 <= j < rules.len() && sets(#[trigger] rules[j], classes, ancestors, prop) ==> rank_in(rules[j], classes, ancestors)
            <= hit.0 && (j > k ==> rank_in(rules[j], classes, ancestors) < hit.0)
}

/// The cascade is CSS's: there is a value exactly when some rule matching
/// the element sets the prop, and it comes from a rule of the highest
/// specificity among those, the last such in sheet order.
pub proof fn law_most_specific_rule_wins(
    rules: Seq<Rule>,
    classes: Seq<Seq<char>>,
    ancestors: Seq<Seq<char>>,
    prop: Seq<char>,
)
    ensures
        cascade(rules, classes, ancestors, prop) is None <==> (forall|j: int|
            0 <= j < rules.len() ==> !sets(#[trigger] rules[j], classes, ancestors, prop)),
        cascade(rules, classes, ancestors, prop) matches Some(hit) ==> exists|k: int|
            wins(rules, classes, ancestors, prop, k, hit),
    decreases rules.len(),
{
    if rules.len() > 0 {
        let init = rules.drop_last();
        law_most_specific_rule_wins(init, classes, ancestors, prop);
        let last = rules.len() - 1;
        assert forall|j: int| 0 <= j < init.len() implies #[trigger] init[j] == rules[j] by {}
        let before = cascade(init, classes, ancestors, prop);
        let r = rules.last();
        assert(r == rules[last]);
        if sets(r, classes, ancestors, prop) {
            let rank = rank_in(r, classes, ancestors);
            match before {
                Some(b) => {
                    let k = choose|k: int| wins(init, classes, ancestors, prop, k, b);
                    if rank < b.0 {
                        assert forall|j: int|
                            0 <= j < rules.len() && sets(#[trigger] rules[j], classes, ancestors, prop) implies rank_in(
                            rules[j],
                            classes,
                            ancestors,
                        ) <= b.0 && (j > k ==> rank_in(rules[j], classes, ancestors) < b.0) by {
                            if j < last {
                                assert(init[j] == rules[j]);
                            }
                        }
                        assert(cascade(rules, classes, ancestors, prop) == Some(b));
                        assert(wins(rules, classes, ancestors, prop, k, cascade(rules, classes, ancestors, prop).unwrap()));
                    } else {
                        assert forall|j: int|
                            0 <= j < rules.len() && sets(#[trigger] rules[j], classes, ancestors, prop) implies rank_in(
                            rules[j],
                            classes,
                            ancestors,
                        ) <= rank by {
                            if j < last {
                                assert(init[j] == rules[j]);
                            }
                        }
                        assert(cascade(rules, classes, ancestors, prop) == Some((rank, prop_value(r.props@, prop, 0).unwrap())));
                        assert(wins(rules, classes, ancestors, prop, last, cascade(rules, classes, ancestors, prop).unwrap()));
                    }
                },
                None => {
                    assert forall|j: int|
                        0 <= j < rules.len() && sets(#[trigger] rules[j], classes, ancestors, prop) implies j == last by {
                        if j < last {
                            assert(init[j] == rules[j]);
                        }
                    }
                    assert(cascade(rules, classes, ancestors, prop) == Some((rank, prop_value(r.props@, prop, 0).unwrap())));
                    assert(wins(rules, classes, ancestors, prop, last, cascade(rules, classes, ancestors, prop).unwrap()));
                },
            }
        } else {
            match before {
                Some(b) => {
                    let k = choose|k: int| wins(init, classes, ancestors, prop, k, b);
                    assert forall|j: int|
                        0 <= j < rules.len() && sets(#[trigger] rules[j], classes, ancestors, prop) implies rank_in(
                        rules[j],
                        classes,
                        ancestors,
                    ) <= b.0 && (j > k ==> rank_in(rules[j], classes, ancestors) < b.0) by {
                        if j < last {
                            assert(init[j] == rules[j]);
                        }
                    }
                    assert(cascade(rules, classes, ancestors, prop) == Some(b));
                    assert(wins(rules, classes, ancestors, prop, k, cascade(rules, classes, ancestors, prop).unwrap()));
                },
                None => {
                    assert forall|j: int| 0 <= j < rules.len() implies !sets(#[trigger] rules[j], classes, ancestors, prop) by {
                        if j < last {
                            assert(init[j] == rules[j]);
                        }
                    }
                },
            }
        }
    }
}

} // verus!
