//! The `<style>` block: the `@layer lini.defaults` variable defaults (host
//! CSS wins automatically) plus the unlayered structural rules — paint rides
//! CSS, geometry bakes; unlayered so renderers that skip `@layer` still parse
//! them.

use super::fonts::{lead_with_scoped, led_stack};
use super::rules::{rules_text, RuleSet};
use super::values::{format_text, format_value};
use crate::resolve::{entry_lookup, ResolvedValue, Val, VarTable};
use crate::text::{chars_of, digits_of, push_str, str_eq};
use crate::Options;
use vstd::prelude::*;

verus! {

/// Lexicographic order on texts by character code — the order a sorted map
/// keyed by strings walks its keys in.
pub open spec fn text_lt(a: Seq<char>, b: Seq<char>) -> bool
    decreases a.len(),
{
    if b.len() == 0 {
        false
    } else if a.len() == 0 {
        true
    } else if a[0] != b[0] {
        (a[0] as int) < (b[0] as int)
    } else {
        text_lt(a.drop_first(), b.drop_first())
    }
}

proof fn lemma_text_lt_irreflexive(a: Seq<char>)
    ensures
        !text_lt(a, a),
    decreases a.len(),
{
    if a.len() > 0 {
        lemma_text_lt_irreflexive(a.drop_first());
    }
}

proof fn lemma_text_lt_transitive(a: Seq<char>, b: Seq<char>, c: Seq<char>)
    requires
        text_lt(a, b),
        text_lt(b, c),
    ensures
        text_lt(a, c),
    decreases a.len(),
{
    if a.len() > 0 && b.len() > 0 && c.len() > 0 && a[0] == b[0] && b[0] == c[0] {
        lemma_text_lt_transitive(a.drop_first(), b.drop_first(), c.drop_first());
    }
}

proof fn lemma_text_lt_total(a: Seq<char>, b: Seq<char>)
    requires
        a != b,
    ensures
        text_lt(a, b) || text_lt(b, a),
    decreases a.len(),
{
    if a.len() > 0 && b.len() > 0 && a[0] == b[0] {
        if a.drop_first() == b.drop_first() {
            assert(a =~= seq![a[0]] + a.drop_first());
            assert(b =~= seq![b[0]] + b.drop_first());
        }
        lemma_text_lt_total(a.drop_first(), b.drop_first());
    } else if a.len() > 0 && b.len() > 0 {
        assert((a[0] as int) != (b[0] as int));
    } else if a.len() == 0 && b.len() == 0 {
        assert(a =~= b);
    }
}

/// Whether `a` sorts before `b`.
fn text_less(a: &Vec<char>, b: &Vec<char>) -> (r: bool)
    ensures
        r == text_lt(a@, b@),
{
    let mut i: usize = 0;
    proof {
        assert(a@.skip(0) =~= a@);
        assert(b@.skip(0) =~= b@);
    }
    while i < a.len() && i < b.len() && a[i] == b[i]
        invariant
            i <= a@.len(),
            i <= b@.len(),
            text_lt(a@, b@) == text_lt(a@.skip(i as int), b@.skip(i as int)),
        decreases a@.len() - i,
    {
        proof {
            assert(a@.skip(i as int).drop_first() =~= a@.skip(i + 1));
            assert(b@.skip(i as int).drop_first() =~= b@.skip(i + 1));
        }
        i = i + 1;
    }
    if i == b.len() {
        false
    } else if i == a.len() {
        true
    } else {
        a[i] < b[i]
    }
}

/// Strictly ascending texts: sorted, no repeats.
pub open spec fn ascending(names: Seq<Seq<char>>) -> bool {
    forall|i: int, j: int| 0 <= i < j < names.len() ==> text_lt(#[trigger] names[i], #[trigger] names[j])
}

/// The variables worth emitting: those defined in the table and used by the
/// document.
pub open spec fn shaken(vars: Seq<(String, ResolvedValue)>, used: Seq<String>) -> Set<Seq<char>> {
    Set::new(
        |k: Seq<char>|
            (exists|i: int| 0 <= i < vars.len() && #[trigger] vars[i].0@ == k) && (exists|j: int|
                0 <= j < used.len() && #[trigger] used[j]@ == k),
    )
}

/// The used variables in key order.
pub open spec fn shaken_names(vars: Seq<(String, ResolvedValue)>, used: Seq<String>) -> Seq<Seq<char>> {
    choose|names: Seq<Seq<char>>| ascending(names) && names.to_set() == shaken(vars, used)
}

/// Two ascending lists of the same texts are the same list.
proof fn lemma_ascending_unique(a: Seq<Seq<char>>, b: Seq<Seq<char>>)
    requires
        ascending(a),
        ascending(b),
        a.to_set() == b.to_set(),
    ensures
        a == b,
    decreases a.len(),
{
    if a.len() == 0 {
        if b.len() > 0 {
            assert(b.to_set().contains(b[0]));
        }
        assert(a =~= b);
    } else if b.len() == 0 {
        assert(a.to_set().contains(a[0]));
    } else {
        // The first elements are both the least.
        assert(b.to_set().contains(a[0]));
        assert(a.to_set().contains(b[0]));
        let i = choose|i: int| 0 <= i < b.len() && b[i] == a[0];
        let j = choose|j: int| 0 <= j < a.len() && a[j] == b[0];
        if a[0] != b[0] {
            assert(i > 0 && j > 0);
            assert(text_lt(b[0], b[i]));
            assert(text_lt(a[0], a[j]));
            lemma_text_lt_transitive(a[0], b[0], a[0]);
            lemma_text_lt_irreflexive(a[0]);
        }
        let a1 = a.drop_first();
        let b1 = b.drop_first();
        assert(ascending(a1)) by {
            assert forall|x: int, y: int| 0 <= x < y < a1.len() implies text_lt(#[trigger] a1[x], #[trigger] a1[y]) by {
                assert(text_lt(a[x + 1], a[y + 1]));
            }
        }
        assert(ascending(b1)) by {
            assert forall|x: int, y: int| 0 <= x < y < b1.len() implies text_lt(#[trigger] b1[x], #[trigger] b1[y]) by {
                assert(text_lt(b[x + 1], b[y + 1]));
            }
        }
        assert(a1.to_set() =~= b1.to_set()) by {
            assert forall|t: Seq<char>| a1.to_set().contains(t) implies b1.to_set().contains(t) by {
                let x = choose|x: int| 0 <= x < a1.len() && a1[x] == t;
                assert(text_lt(a[0], a[x + 1]));
                assert(a.to_set().contains(t));
                assert(b.to_set().contains(t));
                let y = choose|y: int| 0 <= y < b.len() && b[y] == t;
                if y == 0 {
                    lemma_text_lt_irreflexive(a[0]);
                }
                assert(b1[y - 1] == t);
            }
            assert forall|t: Seq<char>| b1.to_set().contains(t) implies a1.to_set().contains(t) by {
                let x = choose|x: int| 0 <= x < b1.len() && b1[x] == t;
                assert(text_lt(b[0], b[x + 1]));
                assert(b.to_set().contains(t));
                assert(a.to_set().contains(t));
                let y = choose|y: int| 0 <= y < a.len() && a[y] == t;
                if y == 0 {
                    lemma_text_lt_irreflexive(b[0]);
                }
                assert(a1[y - 1] == t);
            }
        }
        lemma_ascending_unique(a1, b1);
        assert(a =~= seq![a[0]] + a1);
        assert(b =~= seq![b[0]] + b1);
    }
}

/// The views of a list of strings.
pub open spec fn views(v: Seq<String>) -> Seq<Seq<char>> {
    v.map_values(|s: String| s@)
}

/// Whether `name` is among `used`.
fn is_used(used: &[String], name: &str) -> (b: bool)
    ensures
        b == exists|j: int| 0 <= j < used@.len() && #[trigger] used@[j]@ == name@,
{
    let mut j: usize = 0;
    while j < used.len()
        invariant
            j <= used@.len(),
            forall|k: int| 0 <= k < j ==> (#[trigger] used@[k])@ != name@,
        decreases used@.len() - j,
    {
        if str_eq(used[j].as_str(), name) {
            return true;
        }
        j = j + 1;
    }
    false
}

/// Insert `name` into an ascending list, unless it is there already.
pub(crate) fn insert_sorted(names: &mut Vec<String>, name: String)
    requires
        ascending(views(old(names)@)),
    ensures
        ascending(views(final(names)@)),
        views(final(names)@).to_set() == views(old(names)@).to_set().insert(name@),
{
    let key = chars_of(name.as_str());
    let n = names.len();
    let mut p: usize = 0;
    while p < n
        invariant
            n == names@.len(),
            p <= n,
            key@ == name@,
            ascending(views(names@)),
            forall|q: int| 0 <= q < p ==> text_lt(#[trigger] views(names@)[q], name@),
        ensures
            p <= n,
            forall|q: int| 0 <= q < p ==> text_lt(#[trigger] views(names@)[q], name@),
            p < n ==> !text_lt(views(names@)[p as int], name@),
        decreases n - p,
    {
        let here = chars_of(names[p].as_str());
        proof {
            assert(views(names@)[p as int] == names@[p as int]@);
        }
        if !text_less(&here, &key) {
            break;
        }
        p = p + 1;
    }
    let ghost old_v = views(names@);
    if p < n && str_eq(names[p].as_str(), name.as_str()) {
        proof {
            assert(old_v[p as int] == name@);
            assert(old_v.to_set().insert(name@) =~= old_v.to_set());
        }
        return;
    }
    proof {
        if p < n {
            assert(old_v[p as int] != name@);
            lemma_text_lt_total(old_v[p as int], name@);
        }
    }
    let ghost nm = name@;
    names.insert(p, name);
    proof {
        let v = views(names@);
        assert(v =~= old_v.insert(p as int, nm));
        assert forall|i: int, j: int| 0 <= i < j < v.len() implies text_lt(#[trigger] v[i], #[trigger] v[j]) by {
            if j < p {
                assert(text_lt(old_v[i], old_v[j]));
            } else if j == p {
                assert(text_lt(old_v[i], nm));
            } else if i == p {
                assert(text_lt(nm, old_v[p as int]));
                if j - 1 > p {
                    assert(text_lt(old_v[p as int], old_v[j - 1]));
                    lemma_text_lt_transitive(nm, old_v[p as int], old_v[j - 1]);
                }
            } else if i < p {
                assert(text_lt(old_v[i], nm));
                assert(text_lt(nm, old_v[p as int]));
                lemma_text_lt_transitive(old_v[i], nm, old_v[p as int]);
                if j - 1 > p {
                    assert(text_lt(old_v[p as int], old_v[j - 1]));
                    lemma_text_lt_transitive(old_v[i], old_v[p as int], old_v[j - 1]);
                }
            } else {
                assert(text_lt(old_v[i - 1], old_v[j - 1]));
            }
        }
        assert(v.to_set() =~= old_v.to_set().insert(nm)) by {
            assert forall|t: Seq<char>| #[trigger] v.to_set().contains(t) implies old_v.to_set().insert(nm).contains(t) by {
                let x = choose|x: int| 0 <= x < v.len() && v[x] == t;
                if x < p {
                    assert(old_v[x] == t);
                } else if x > p {
                    assert(old_v[x - 1] == t);
                }
            }
            assert forall|t: Seq<char>| #[trigger] old_v.to_set().insert(nm).contains(t) implies v.to_set().contains(t) by {
                if t == nm {
                    assert(v[p as int] == t);
                } else {
                    let x = choose|x: int| 0 <= x < old_v.len() && old_v[x] == t;
                    if x < p {
                        assert(v[x] == t);
                    } else {
                        assert(v[x + 1] == t);
                    }
                }
            }
        }
    }
}

/// The used variables, in key order.
fn sorted_used(vars: &VarTable, used: &[String]) -> (names: Vec<String>)
    ensures
        views(names@) == shaken_names(vars.entries@, used@),
        ascending(views(names@)),
        views(names@).to_set() == shaken(vars.entries@, used@),
{
    let mut names: Vec<String> = Vec::new();
    let n = vars.entries.len();
    let mut i: usize = 0;
    proof {
        assert(views(names@).to_set() =~= shaken(vars.entries@.take(0), used@));
    }
    while i < n
        invariant
            n == vars.entries@.len(),
            i <= n,
            ascending(views(names@)),
            views(names@).to_set() == shaken(vars.entries@.take(i as int), used@),
        decreases n - i,
    {
        let ghost before = views(names@).to_set();
        let ghost k = vars.entries@[i as int].0@;
        proof {
            assert(vars.entries@.take(i + 1)[i as int] == vars.entries@[i as int]);
        }
        if is_used(used, vars.entries[i].0.as_str()) {
            let mut name = String::new();
            push_str(&mut name, vars.entries[i].0.as_str());
            insert_sorted(&mut names, name);
            proof {
                assert(shaken(vars.entries@.take(i + 1), used@) =~= before.insert(k)) by {
                    assert forall|t: Seq<char>| #[trigger] shaken(vars.entries@.take(i + 1), used@).contains(t)
                        == before.insert(k).contains(t) by {
                        if t != k && shaken(vars.entries@.take(i + 1), used@).contains(t) {
                            let x = choose|x: int| 0 <= x < i + 1 && #[trigger] vars.entries@.take(i + 1)[x].0@ == t;
                            assert(vars.entries@.take(i as int)[x].0@ == t);
                        }
                        if before.contains(t) {
                            let x = choose|x: int| 0 <= x < i && #[trigger] vars.entries@.take(i as int)[x].0@ == t;
                            assert(vars.entries@.take(i + 1)[x].0@ == t);
                        }
                    }
                }
            }
        } else {
            proof {
                assert(shaken(vars.entries@.take(i + 1), used@) =~= before) by {
                    assert forall|t: Seq<char>| #[trigger] shaken(vars.entries@.take(i + 1), used@).contains(t)
                        == before.contains(t) by {
                        if shaken(vars.entries@.take(i + 1), used@).contains(t) {
                            let x = choose|x: int| 0 <= x < i + 1 && #[trigger] vars.entries@.take(i + 1)[x].0@ == t;
                            if x < i {
                                assert(vars.entries@.take(i as int)[x].0@ == t);
                            }
                        }
                        if before.contains(t) {
                            let x = choose|x: int| 0 <= x < i && #[trigger] vars.entries@.take(i as int)[x].0@ == t;
                            assert(vars.entries@.take(i + 1)[x].0@ == t);
                        }
                    }
                }
            }
        }
        i = i + 1;
    }
    proof {
        assert(vars.entries@.take(n as int) =~= vars.entries@);
        let s = shaken_names(vars.entries@, used@);
        assert(ascending(views(names@)) && views(names@).to_set() == shaken(vars.entries@, used@));
        lemma_ascending_unique(s, views(names@));
    }
    names
}

/// The value of a defined variable.
pub open spec fn var_value(vars: &VarTable, name: Seq<char>) -> ResolvedValue {
    entry_lookup(vars.entries@, name).unwrap()
}

/// Whether every used variable can be formatted.
pub open spec fn defaults_formattable(vars: &VarTable, used: Seq<String>, opts: &Options) -> bool {
    forall|k: Seq<char>|
        #[trigger] shaken(vars.entries@, used).contains(k) ==> format_text(var_value(vars, k).deep(), vars, opts) is Some
}

/// A variable's default as it is declared: its formatted value, led by the
/// scoped font face for `font-family` under `--embed-font`.
pub open spec fn var_css(vars: &VarTable, opts: &Options, name: Seq<char>) -> Seq<char> {
    let t = format_text(var_value(vars, name).deep(), vars, opts).unwrap();
    if opts.embed_font && name == "font-family"@ {
        led_stack(t)
    } else {
        t
    }
}

/// The ` --lini-{name}: {value};` declarations of `names`.
pub open spec fn var_decls(names: Seq<Seq<char>>, vars: &VarTable, opts: &Options) -> Seq<char>
    decreases names.len(),
{
    if names.len() == 0 {
        Seq::empty()
    } else {
        var_decls(names.drop_last(), vars, opts) + " --lini-"@ + names.last() + seq![':', ' '] + var_css(
            vars,
            opts,
            names.last(),
        ) + seq![';']
    }
}

/// A `light-dark()` pair.
pub open spec fn is_light_dark(v: Val) -> bool {
    v matches Val::Call(name, _) && name == "light-dark"@
}

/// Whether any of `names` holds a `light-dark()` pair.
pub open spec fn adaptive(names: Seq<Seq<char>>, vars: &VarTable) -> bool {
    exists|k: int| 0 <= k < names.len() && is_light_dark(#[trigger] var_value(vars, names[k]).deep())
}

/// The rule forcing one colour scheme on a figure marked with it.
pub open spec fn theme_line(scope: Seq<char>, mode: Seq<char>) -> Seq<char> {
    "      ."@ + scope + "[data-theme=\""@ + mode + "\"], [data-theme=\""@ + mode + "\"] ."@ + scope
        + " { color-scheme: "@ + mode + "; }\n"@
}

/// The `@layer lini.defaults` block for `names`; nothing when none are used.
pub open spec fn defaults_block(names: Seq<Seq<char>>, scope: Seq<char>, vars: &VarTable, opts: &Options) -> Seq<char> {
    if names.len() == 0 {
        Seq::empty()
    } else {
        let flip = adaptive(names, vars);
        "    @layer lini.defaults {\n      :root, ."@ + scope + " {"@ + (if flip {
            " color-scheme: light dark;"@
        } else {
            Seq::empty()
        }) + var_decls(names, vars, opts) + " }\n"@ + (if flip {
            theme_line(scope, "dark"@) + theme_line(scope, "light"@)
        } else {
            Seq::empty()
        }) + "    }\n"@
    }
}

/// The hover rules revealing tooltip cards `0..k`.
pub open spec fn hit_lines(scope: Seq<char>, k: nat) -> Seq<char>
    decreases k,
{
    if k == 0 {
        Seq::empty()
    } else {
        let i = (k - 1) as nat;
        hit_lines(scope, i) + "    ."@ + scope + " .lini-hit-"@ + digits_of(i) + ":hover ~ .lini-tip-"@ + digits_of(i)
            + " { visibility: visible; }\n"@
    }
}

/// The rich chart tooltip rules: cards hidden in a top layer, each revealed
/// by hovering its mark.
pub open spec fn tooltip_rules(scope: Seq<char>, cards: nat) -> Seq<char> {
    if cards == 0 {
        Seq::empty()
    } else {
        "    ."@ + scope + " .lini-chart-tip { visibility: hidden; pointer-events: none; }\n"@ + hit_lines(scope, cards)
    }
}

/// Everything in the `<style>` whose selectors are headed by the figure's
/// scope class: the variable defaults (live output only), the structural
/// rules, the tooltip rules.
pub open spec fn scoped_text(
    scope: Seq<char>,
    vars: &VarTable,
    rules: &RuleSet,
    used: Seq<String>,
    opts: &Options,
    cards: nat,
) -> Seq<char> {
    (if !opts.static_mode {
        defaults_block(shaken_names(vars.entries@, used), scope, vars, opts)
    } else {
        Seq::empty()
    }) + rules_text(rules.rules@, scope) + tooltip_rules(scope, cards)
}

/// Whether a variable's value is a `light-dark()` pair.
fn light_dark_value(v: &ResolvedValue) -> (b: bool)
    ensures
        b == is_light_dark(v.deep()),
{
    match v {
        ResolvedValue::Call(c) => str_eq(c.name.as_str(), "light-dark"),
        _ => false,
    }
}

/// The value a defined variable holds.
fn value_of<'a>(vars: &'a VarTable, name: &str) -> (v: &'a ResolvedValue)
    requires
        entry_lookup(vars.entries@, name@) is Some,
    ensures
        *v == var_value(vars, name@),
{
    match vars.get(name) {
        Some(v) => v,
        None => {
            assert(false);
            &vars.entries[0].1
        },
    }
}

/// Every shaken name is a defined variable.
proof fn lemma_shaken_defined(vars: Seq<(String, ResolvedValue)>, used: Seq<String>, k: Seq<char>)
    requires
        shaken(vars, used).contains(k),
    ensures
        entry_lookup(vars, k) is Some,
    decreases vars.len(),
{
    let i = choose|i: int| 0 <= i < vars.len() && #[trigger] vars[i].0@ == k;
    if vars[0].0@ != k {
        assert(vars.drop_first()[i - 1].0@ == k);
        assert(shaken(vars.drop_first(), used).contains(k));
        lemma_shaken_defined(vars.drop_first(), used, k);
    }
}

/// Append the rule forcing one colour scheme.
fn push_theme_line(out: &mut String, scope: &str, mode: &str)
    ensures
        final(out)@ == old(out)@ + theme_line(scope@, mode@),
{
    push_str(out, "      .");
    push_str(out, scope);
    push_str(out, "[data-theme=\"");
    push_str(out, mode);
    push_str(out, "\"], [data-theme=\"");
    push_str(out, mode);
    push_str(out, "\"] .");
    push_str(out, scope);
    push_str(out, " { color-scheme: ");
    push_str(out, mode);
    push_str(out, "; }\n");
    proof {
        assert(final(out)@ =~= old(out)@ + theme_line(scope@, mode@));
    }
}

/// Append the variable defaults block.
fn emit_defaults(out: &mut String, scope: &str, vars: &VarTable, used: &[String], opts: &Options)
    requires
        defaults_formattable(vars, used@, opts),
    ensures
        final(out)@ == old(out)@ + defaults_block(shaken_names(vars.entries@, used@), scope@, vars, opts),
{
    let names = sorted_used(vars, used);
    let ghost nv = views(names@);
    let n = names.len();
    if n == 0 {
        proof {
            assert(nv.len() == 0);
            assert(old(out)@ + defaults_block(nv, scope@, vars, opts) =~= old(out)@);
        }
        return;
    }
    proof {
        assert forall|k: int| 0 <= k < n implies entry_lookup(vars.entries@, #[trigger] nv[k]) is Some
            && format_text(var_value(vars, nv[k]).deep(), vars, opts) is Some by {
            assert(nv.to_set().contains(nv[k]));
            lemma_shaken_defined(vars.entries@, used@, nv[k]);
        }
    }
    let mut flip = false;
    let mut k: usize = 0;
    while k < n
        invariant
            n == names@.len(),
            nv == views(names@),
            k <= n,
            forall|j: int| 0 <= j < n ==> entry_lookup(vars.entries@, #[trigger] nv[j]) is Some,
            flip == exists|j: int| 0 <= j < k && is_light_dark(#[trigger] var_value(vars, nv[j]).deep()),
        decreases n - k,
    {
        proof {
            assert(nv[k as int] == names@[k as int]@);
        }
        let v = value_of(vars, names[k].as_str());
        if light_dark_value(v) {
            flip = true;
        }
        k = k + 1;
    }
    push_str(out, "    @layer lini.defaults {\n      :root, .");
    push_str(out, scope);
    push_str(out, " {");
    if flip {
        push_str(out, " color-scheme: light dark;");
    }
    let ghost head = out@;
    let mut k: usize = 0;
    while k < n
        invariant
            n == names@.len(),
            nv == views(names@),
            k <= n,
            forall|j: int| 0 <= j < n ==> entry_lookup(vars.entries@, #[trigger] nv[j]) is Some
                && format_text(var_value(vars, nv[j]).deep(), vars, opts) is Some,
            out@ == head + var_decls(nv.take(k as int), vars, opts),
        decreases n - k,
    {
        proof {
            assert(nv[k as int] == names@[k as int]@);
        }
        let name = names[k].as_str();
        let v = value_of(vars, name);
        let mut css = format_value(v, vars, opts);
        if opts.embed_font && str_eq(name, "font-family") {
            css = lead_with_scoped(css.as_str());
        }
        push_str(out, " --lini-");
        push_str(out, name);
        out.push(':');
        out.push(' ');
        push_str(out, css.as_str());
        out.push(';');
        proof {
            assert(nv.take(k + 1).drop_last() =~= nv.take(k as int));
            assert(out@ =~= head + var_decls(nv.take(k + 1), vars, opts));
        }
        k = k + 1;
    }
    push_str(out, " }\n");
    if flip {
        push_theme_line(out, scope, "dark");
        push_theme_line(out, scope, "light");
    }
    push_str(out, "    }\n");
    proof {
        assert(nv.take(n as int) =~= nv);
        assert(final(out)@ =~= old(out)@ + defaults_block(nv, scope@, vars, opts));
    }
}

/// Append the tooltip rules for `cards` cards.
fn emit_tooltips(out: &mut String, scope: &str, cards: usize)
    ensures
        final(out)@ == old(out)@ + tooltip_rules(scope@, cards as nat),
{
    if cards == 0 {
        proof {
            assert(final(out)@ =~= old(out)@ + tooltip_rules(scope@, cards as nat));
        }
        return;
    }
    push_str(out, "    .");
    push_str(out, scope);
    push_str(out, " .lini-chart-tip { visibility: hidden; pointer-events: none; }\n");
    let ghost head = out@;
    let mut i: usize = 0;
    while i < cards
        invariant
            i <= cards,
            out@ == head + hit_lines(scope@, i as nat),
        decreases cards - i,
    {
        push_str(out, "    .");
        push_str(out, scope);
        push_str(out, " .lini-hit-");
        crate::text::push_digits(out, i as u64);
        push_str(out, ":hover ~ .lini-tip-");
        crate::text::push_digits(out, i as u64);
        push_str(out, " { visibility: visible; }\n");
        proof {
            assert(out@ =~= head + hit_lines(scope@, (i + 1) as nat));
        }
        i = i + 1;
    }
    proof {
        assert(final(out)@ =~= old(out)@ + tooltip_rules(scope@, cards as nat));
    }
}

/// Everything in the `<style>` whose selectors are headed by the figure's
/// scope class — the whole body bar the `@font-face` payload.
fn emit_scoped(
    out: &mut String,
    scope: &str,
    vars: &VarTable,
    rules: &RuleSet,
    used: &[String],
    opts: &Options,
    tooltip_cards: usize,
)
    requires
        defaults_formattable(vars, used@, opts),
    ensures
        final(out)@ == old(out)@ + scoped_text(scope@, vars, rules, used@, opts, tooltip_cards as nat),
{
    // `--static` inlines every value, so the themeable `@layer` block is only
    // emitted when vars stay live.
    if !opts.static_mode {
        emit_defaults(out, scope, vars, used, opts);
    }
    let ghost mid = out@;
    rules.emit(out, scope);
    emit_tooltips(out, scope, tooltip_cards);
    proof {
        assert(final(out)@ =~= old(out)@ + scoped_text(scope@, vars, rules, used@, opts, tooltip_cards as nat));
    }
}

/// The figure's scope class — the identity of its own stylesheet, so two
/// figures inlined in one document share a scope only when their CSS is
/// byte-identical and sharing is therefore a no-op. It hashes the body
/// rendered once under the bare `.lini` head; the `@font-face` payload stays
/// out.
pub fn scope_class(vars: &VarTable, rules: &RuleSet, used: &[String], opts: &Options, tooltip_cards: usize) -> (c: String)
    requires
        defaults_formattable(vars, used@, opts),
    ensures
        c@ == "lini-scope-"@ + crate::name::tag_text(
            vstd::utf8::encode_utf8(scoped_text("lini"@, vars, rules, used@, opts, tooltip_cards as nat)),
        ),
{
    let mut probe = String::new();
    emit_scoped(&mut probe, "lini", vars, rules, used, opts, tooltip_cards);
    proof {
        assert(probe@ =~= scoped_text("lini"@, vars, rules, used@, opts, tooltip_cards as nat));
    }
    crate::name::scope_class(probe.as_str())
}

/// The whole `<style>` block: the embedded `@font-face` rules first (when
/// `--embed-font` produced any), so the rules below already resolve against
/// them, then everything headed by the figure's `scope` class.
pub fn emit(
    out: &mut String,
    scope: &str,
    vars: &VarTable,
    rules: &RuleSet,
    used: &[String],
    opts: &Options,
    tooltip_cards: usize,
    font_faces: Option<&str>,
)
    requires
        defaults_formattable(vars, used@, opts),
    ensures
        final(out)@ == old(out)@ + "  <style>\n"@ + (match font_faces {
            Some(f) => f@,
            None => Seq::empty(),
        }) + scoped_text(scope@, vars, rules, used@, opts, tooltip_cards as nat) + "  </style>\n"@,
{
    push_str(out, "  <style>\n");
    match font_faces {
        Some(f) => push_str(out, f),
        None => {},
    }
    let ghost before = out@;
    emit_scoped(out, scope, vars, rules, used, opts, tooltip_cards);
    push_str(out, "  </style>\n");
    proof {
        let faces: Seq<char> = match font_faces {
            Some(f) => f@,
            None => Seq::empty(),
        };
        assert(before =~= old(out)@ + "  <style>\n"@ + faces);
        assert(final(out)@ =~= old(out)@ + "  <style>\n"@ + faces + scoped_text(
            scope@,
            vars,
            rules,
            used@,
            opts,
            tooltip_cards as nat,
        ) + "  </style>\n"@);
    }
}

} // verus!
