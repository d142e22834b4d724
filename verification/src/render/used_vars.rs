//! Tree-shaking the `@layer` variable block: the `--lini-*` variables a
//! document references — directly, or through another kept variable's value
//! — so the built-in palette costs a diagram that does not use it nothing.
//! A variable is kept exactly when it is reachable from what the output
//! names.

use crate::layout::{LaidOut, PlacedNode, RoutedText, RoutedWire};
use crate::render::paints::GradientDef;
use crate::render::rules::{views, Rule, RuleSet};
use crate::render::style_block::{ascending, insert_sorted, shaken};
use crate::resolve::{deep_seq, entry_lookup, lemma_deep_seq, AttrMap, ResolvedValue, Val, VarTable};
use crate::text::{chars_of, str_eq};
use vstd::prelude::*;

verus! {

/// The non-raw live-variable names in a value, in reading order.
pub open spec fn live_names(v: Val) -> Seq<Seq<char>>
    decreases v,
{
    match v {
        Val::LiveVar(n, raw) => if raw {
            Seq::empty()
        } else {
            seq![n]
        },
        Val::Tuple(items) => live_names_seq(items),
        Val::List(items) => live_names_seq(items),
        Val::Call(_, args) => live_names_seq(args),
        _ => Seq::empty(),
    }
}

/// The live-variable names of each value of a sequence, one after another.
pub open spec fn live_names_seq(items: Seq<Val>) -> Seq<Seq<char>>
    decreases items,
{
    if items.len() == 0 {
        Seq::empty()
    } else {
        live_names_seq(items.drop_last()) + live_names(items.last())
    }
}

/// The names in a list of strings, as a set.
pub open spec fn name_set(names: Seq<String>) -> Set<Seq<char>> {
    views(names).to_set()
}

/// Add `n` to a list of distinct names, unless it is there already.
fn insert_name(names: &mut Vec<String>, n: &str) -> (added: bool)
    requires
        views(old(names)@).no_duplicates(),
    ensures
        views(final(names)@).no_duplicates(),
        added == !views(old(names)@).contains(n@),
        views(final(names)@) == (if added {
            views(old(names)@).push(n@)
        } else {
            views(old(names)@)
        }),
{
    let k = names.len();
    let mut i: usize = 0;
    while i < k
        invariant
            k == names@.len(),
            names@ == old(names)@,
            views(old(names)@).no_duplicates(),
            i <= k,
            forall|j: int| 0 <= j < i ==> views(names@)[j] != n@,
        decreases k - i,
    {
        if str_eq(names[i].as_str(), n) {
            proof {
                assert(views(names@)[i as int] == n@);
            }
            return false;
        }
        i = i + 1;
    }
    let ghost before = views(names@);
    names.push(n.to_string());
    proof {
        assert(views(names@) =~= before.push(n@));
        assert(!before.contains(n@)) by {
            if before.contains(n@) {
                let j = choose|j: int| 0 <= j < before.len() && before[j] == n@;
                assert(views(old(names)@)[j] != n@);
            }
        }
    }
    true
}

/// Add every non-raw live-variable name reachable in `value`.
pub fn collect_live(value: &ResolvedValue, names: &mut Vec<String>)
    requires
        views(old(names)@).no_duplicates(),
    ensures
        views(final(names)@).no_duplicates(),
        name_set(final(names)@) == name_set(old(names)@) + live_names(value.deep()).to_set(),
        views(old(names)@).is_prefix_of(views(final(names)@)),
    decreases value,
{
    match value {
        ResolvedValue::LiveVar { name, raw } => {
            if !*raw {
                insert_name(names, name.as_str());
                proof {
                    assert(live_names(value.deep()) == seq![name@]);
                    let e = Seq::<Seq<char>>::empty();
                    assert(e.push(name@) =~= seq![name@]);
                    e.lemma_push_to_set_commute(name@);
                    assert(e.to_set() =~= Set::<Seq<char>>::empty());
                    assert(seq![name@].to_set() =~= set![name@]);
                    views(old(names)@).lemma_push_to_set_commute(name@);
                    assert(name_set(final(names)@) =~= name_set(old(names)@) + live_names(value.deep()).to_set());
                }
            } else {
                proof {
                    assert(name_set(final(names)@) =~= name_set(old(names)@) + live_names(value.deep()).to_set());
                }
            }
        },
        ResolvedValue::Tuple(items) => {
            collect_all(items, names);
        },
        ResolvedValue::List(items) => {
            collect_all(items, names);
        },
        ResolvedValue::Call(c) => {
            collect_all(&c.args, names);
        },
        _ => {
            proof {
                assert(name_set(final(names)@) =~= name_set(old(names)@) + live_names(value.deep()).to_set());
            }
        },
    }
}

/// Add every non-raw live-variable name reachable in each of `items`.
fn collect_all(items: &Vec<ResolvedValue>, names: &mut Vec<String>)
    requires
        views(old(names)@).no_duplicates(),
    ensures
        views(final(names)@).no_duplicates(),
        name_set(final(names)@) == name_set(old(names)@) + live_names_seq(deep_seq(items@)).to_set(),
        views(old(names)@).is_prefix_of(views(final(names)@)),
    decreases items,
{
    let n = items.len();
    let mut i: usize = 0;
    proof {
        lemma_deep_seq(items@);
        assert(deep_seq(items@).take(0) =~= Seq::<Val>::empty());
        assert(name_set(names@) =~= name_set(old(names)@) + live_names_seq(Seq::<Val>::empty()).to_set());
    }
    while i < n
        invariant
            n == items@.len(),
            i <= n,
            deep_seq(items@).len() == n,
            forall|j: int| 0 <= j < n ==> #[trigger] deep_seq(items@)[j] == items@[j].deep(),
            views(names@).no_duplicates(),
            name_set(names@) == name_set(old(names)@) + live_names_seq(deep_seq(items@).take(i as int)).to_set(),
            views(old(names)@).is_prefix_of(views(names@)),
        decreases n - i,
    {
        assert(decreases_to!(items => items@[i as int]));
        let ghost mid = names@;
        collect_live(&items[i], names);
        proof {
            let d = deep_seq(items@);
            assert(d.take(i + 1).drop_last() =~= d.take(i as int));
            assert(d.take(i + 1).last() == items@[i as int].deep());
            let a = live_names_seq(d.take(i as int));
            let b = live_names(items@[i as int].deep());
            vstd::seq_lib::seq_to_set_distributes_over_add(a, b);
            assert(name_set(names@) =~= name_set(old(names)@) + live_names_seq(d.take(i + 1)).to_set());
            assert(views(old(names)@).is_prefix_of(views(names@))) by {
                assert(views(mid).is_prefix_of(views(names@)));
            }
        }
        i = i + 1;
    }
    proof {
        assert(deep_seq(items@).take(n as int) =~= deep_seq(items@));
    }
}

/// The names the value of variable `n` mentions (none when `n` is
/// undefined).
pub open spec fn mentions(vars: Seq<(String, ResolvedValue)>, n: Seq<char>) -> Seq<Seq<char>> {
    match entry_lookup(vars, n) {
        Some(v) => live_names(v.deep()),
        None => Seq::empty(),
    }
}

/// A set of names that holds every name its members' values mention.
pub open spec fn closed(s: Set<Seq<char>>, vars: Seq<(String, ResolvedValue)>) -> bool {
    forall|n: Seq<char>, m: Seq<char>| s.contains(n) && #[trigger] mentions(vars, n).contains(m) ==> s.contains(m)
}

/// The names reachable from `start`: those in every closed set that holds
/// `start`.
pub open spec fn reachable(start: Set<Seq<char>>, vars: Seq<(String, ResolvedValue)>) -> Set<Seq<char>> {
    Set::new(
        |m: Seq<char>|
            forall|t: Set<Seq<char>>| start.subset_of(t) && closed(t, vars) ==> #[trigger] t.contains(m),
    )
}

/// The live-variable names of every stored value, entry by entry.
pub open spec fn all_mentions(vars: Seq<(String, ResolvedValue)>) -> Seq<Seq<char>>
    decreases vars.len(),
{
    if vars.len() == 0 {
        Seq::empty()
    } else {
        live_names(vars[0].1.deep()) + all_mentions(vars.drop_first())
    }
}

/// What a variable's value mentions is among all the mentions.
proof fn lemma_mentions_in_all(vars: Seq<(String, ResolvedValue)>, n: Seq<char>, m: Seq<char>)
    requires
        mentions(vars, n).contains(m),
    ensures
        all_mentions(vars).contains(m),
    decreases vars.len(),
{
    let here = live_names(vars[0].1.deep());
    let rest = all_mentions(vars.drop_first());
    if vars[0].0@ == n {
        let k = choose|k: int| 0 <= k < here.len() && here[k] == m;
        assert((here + rest)[k] == m);
    } else {
        lemma_mentions_in_all(vars.drop_first(), n, m);
        let k = choose|k: int| 0 <= k < rest.len() && rest[k] == m;
        assert((here + rest)[here.len() + k] == m);
    }
}

/// A list without repeats, all of whose items are in `y`, is no longer
/// than `y`.
proof fn lemma_distinct_within(x: Seq<Seq<char>>, y: Seq<Seq<char>>)
    requires
        x.no_duplicates(),
        forall|a: Seq<char>| x.contains(a) ==> y.contains(a),
    ensures
        x.len() <= y.len(),
{
    x.unique_seq_to_set();
    y.lemma_cardinality_of_set();
    vstd::seq_lib::seq_to_set_is_finite(y);
    assert(x.to_set().subset_of(y.to_set()));
    vstd::set_lib::lemma_len_subset(x.to_set(), y.to_set());
}

/// A copy of a list of names.
fn copy_names(names: &Vec<String>) -> (r: Vec<String>)
    ensures
        views(r@) == views(names@),
{
    let mut r: Vec<String> = Vec::new();
    let mut i: usize = 0;
    while i < names.len()
        invariant
            i <= names@.len(),
            views(r@) == views(names@).take(i as int),
        decreases names@.len() - i,
    {
        let ghost r0 = r@;
        let s = names[i].as_str().to_string();
        r.push(s);
        proof {
            assert(views(r@) =~= views(r0).push(names@[i as int]@));
            assert(views(names@).take(i + 1) =~= views(names@).take(i as int).push(names@[i as int]@));
        }
        i = i + 1;
    }
    proof {
        assert(views(names@).take(names@.len() as int) =~= views(names@));
    }
    r
}

/// Pull in every variable a kept variable's value mentions, to a fixed
/// point: the names end up exactly those reachable from the ones given.
pub fn close_over_vars(names: &mut Vec<String>, vars: &VarTable)
    requires
        views(old(names)@).no_duplicates(),
    ensures
        views(final(names)@).no_duplicates(),
        name_set(final(names)@) == reachable(name_set(old(names)@), vars.entries@),
{
    let ghost start = name_set(names@);
    let ghost e = vars.entries@;
    let ghost bound = views(names@) + all_mentions(e);
    let mut frontier = copy_names(names);
    proof {
        assert forall|x: Seq<char>| views(names@).contains(x) implies bound.contains(x) by {
            let q = choose|q: int| 0 <= q < views(names@).len() && views(names@)[q] == x;
            assert(bound[q] == x);
        }
    }
    while frontier.len() > 0
        invariant
            e == vars.entries@,
            start == name_set(old(names)@),
            bound == views(old(names)@) + all_mentions(e),
            views(names@).no_duplicates(),
            start.subset_of(name_set(names@)),
            forall|x: Seq<char>| views(names@).contains(x) ==> bound.contains(x),
            forall|x: Seq<char>| views(names@).contains(x) ==> reachable(start, e).contains(x),
            forall|x: Seq<char>|
                views(names@).contains(x) ==> views(frontier@).contains(x) || (forall|m: Seq<char>|
                    #[trigger] mentions(e, x).contains(m) ==> views(names@).contains(m)),
            forall|y: Seq<char>| views(frontier@).contains(y) ==> views(names@).contains(y),
        decreases bound.len() - names@.len(), frontier@.len(),
    {
        proof {
            lemma_distinct_within(views(names@), bound);
        }
        let ghost fr0 = frontier@;
        let name = frontier.pop().unwrap();
        let ghost x = name@;
        let ghost names_mid = names@;
        let ghost front_mid = frontier@;
        proof {
            assert(views(fr0).contains(x)) by {
                assert(views(fr0)[fr0.len() - 1] == x);
            }
            assert(views(front_mid) =~= views(fr0).drop_last());
        }
        match vars.get(name.as_str()) {
            Some(value) => {
                let mut found: Vec<String> = Vec::new();
                proof {
                    assert(views(found@) =~= Seq::<Seq<char>>::empty());
                }
                collect_live(value, &mut found);
                proof {
                    assert(mentions(e, x) == live_names(value.deep()));
                    assert(name_set(found@) =~= mentions(e, x).to_set());
                }
                let mut k: usize = 0;
                while k < found.len()
                    invariant
                        e == vars.entries@,
                        start == name_set(old(names)@),
                        bound == views(old(names)@) + all_mentions(e),
                        name_set(found@) == mentions(e, x).to_set(),
                        views(names_mid).contains(x),
                        reachable(start, e).contains(x),
                        k <= found@.len(),
                        views(names@).no_duplicates(),
                        views(names_mid).is_prefix_of(views(names@)),
                        views(front_mid).is_prefix_of(views(frontier@)),
                        frontier@.len() - front_mid.len() == names@.len() - names_mid.len(),
                        forall|y: Seq<char>|
                            views(names@).contains(y) ==> views(names_mid).contains(y) || mentions(e, x).contains(y),
                        forall|j: int| 0 <= j < k ==> views(names@).contains(#[trigger] views(found@)[j]),
                        forall|y: Seq<char>|
                            views(names@).contains(y) && !views(names_mid).contains(y) ==> views(frontier@).contains(y),
                        forall|y: Seq<char>|
                            views(frontier@).contains(y) ==> views(front_mid).contains(y) || views(names@).contains(y),
                    decreases found@.len() - k,
                {
                    let ghost before = names@;
                    let ghost fbefore = frontier@;
                    let f = found[k].as_str();
                    if insert_name(names, f) {
                        frontier.push(f.to_string());
                        proof {
                            assert(views(frontier@) =~= views(fbefore).push(f@));
                        }
                    }
                    proof {
                        assert(name_set(found@).contains(f@)) by {
                            assert(views(found@)[k as int] == f@);
                        }
                        assert(mentions(e, x).contains(f@));
                        assert forall|y: Seq<char>| views(names@).contains(y) implies views(names_mid).contains(y)
                            || mentions(e, x).contains(y) by {
                            if !views(before).contains(y) {
                                assert(y == f@);
                            }
                        }
                        assert forall|j: int| 0 <= j < k + 1 implies views(names@).contains(#[trigger] views(found@)[j]) by {
                            if j < k {
                                assert(views(before).contains(views(found@)[j]));
                                let q = choose|q: int| 0 <= q < views(before).len() && views(before)[q] == views(found@)[j];
                                assert(views(names@)[q] == views(found@)[j]);
                            } else {
                                assert(views(found@)[j] == f@);
                                if views(before).contains(f@) {
                                    let q = choose|q: int| 0 <= q < views(before).len() && views(before)[q] == f@;
                                    assert(views(names@)[q] == f@);
                                } else {
                                    assert(views(names@)[views(names@).len() - 1] == f@);
                                }
                            }
                        }
                        assert forall|y: Seq<char>| views(names@).contains(y) && !views(names_mid).contains(y)
                            implies views(frontier@).contains(y) by {
                            if views(before).contains(y) {
                                assert(views(fbefore).contains(y));
                                let q = choose|q: int| 0 <= q < views(fbefore).len() && views(fbefore)[q] == y;
                                assert(views(frontier@)[q] == y);
                            } else {
                                assert(y == f@);
                                assert(views(frontier@)[views(frontier@).len() - 1] == f@);
                            }
                        }
                        assert forall|y: Seq<char>| views(frontier@).contains(y) implies views(front_mid).contains(y)
                            || views(names@).contains(y) by {
                            if !views(fbefore).contains(y) {
                                assert(y == f@);
                                assert(views(names@)[views(names@).len() - 1] == f@);
                            } else if !views(front_mid).contains(y) {
                                assert(views(before).contains(y));
                                let q = choose|q: int| 0 <= q < views(before).len() && views(before)[q] == y;
                                assert(views(names@)[q] == y);
                            }
                        }
                    }
                    k = k + 1;
                }
                proof {
                    assert forall|m: Seq<char>| mentions(e, x).contains(m) implies views(names@).contains(m) by {
                        assert(name_set(found@).contains(m));
                        let j = choose|j: int| 0 <= j < views(found@).len() && views(found@)[j] == m;
                        assert(views(names@).contains(views(found@)[j]));
                    }
                }
            },
            None => {
                proof {
                    assert(mentions(e, x) =~= Seq::<Seq<char>>::empty());
                }
            },
        }
        proof {
            let cur = views(names@);
            assert forall|y: Seq<char>| cur.contains(y) implies bound.contains(y) by {
                if !views(names_mid).contains(y) {
                    assert(mentions(e, x).contains(y));
                    lemma_mentions_in_all(e, x, y);
                    let q = choose|q: int| 0 <= q < all_mentions(e).len() && all_mentions(e)[q] == y;
                    assert(bound[views(old(names)@).len() + q] == y);
                }
            }
            assert forall|y: Seq<char>| cur.contains(y) implies reachable(start, e).contains(y) by {
                if !views(names_mid).contains(y) {
                    assert(mentions(e, x).contains(y));
                    assert forall|t: Set<Seq<char>>| start.subset_of(t) && closed(t, e) implies #[trigger] t.contains(y) by {
                        assert(t.contains(x));
                    }
                }
            }
            assert(start.subset_of(name_set(names@))) by {
                assert forall|y: Seq<char>| start.contains(y) implies name_set(names@).contains(y) by {
                    let q = choose|q: int| 0 <= q < views(names_mid).len() && views(names_mid)[q] == y;
                    assert(cur[q] == y);
                }
            }
            assert forall|z: Seq<char>| cur.contains(z) implies views(frontier@).contains(z) || (forall|m: Seq<char>|
                #[trigger] mentions(e, z).contains(m) ==> cur.contains(m)) by {
                if z == x {
                } else if views(names_mid).contains(z) {
                    if views(fr0).contains(z) {
                        let q = choose|q: int| 0 <= q < views(fr0).len() && views(fr0)[q] == z;
                        assert(q < views(fr0).len() - 1);
                        assert(views(front_mid)[q] == z);
                        assert(views(frontier@)[q] == z);
                    } else {
                        assert forall|m: Seq<char>| #[trigger] mentions(e, z).contains(m) implies cur.contains(m) by {
                            assert(views(names_mid).contains(m));
                            let q = choose|q: int| 0 <= q < views(names_mid).len() && views(names_mid)[q] == m;
                            assert(cur[q] == m);
                        }
                    }
                }
            }
            assert forall|y: Seq<char>| views(frontier@).contains(y) implies cur.contains(y) by {
                if views(front_mid).contains(y) {
                    let q = choose|q: int| 0 <= q < views(front_mid).len() && views(front_mid)[q] == y;
                    assert(views(fr0)[q] == y);
                    assert(views(fr0).contains(y));
                    assert(views(names_mid).contains(y));
                    let p = choose|p: int| 0 <= p < views(names_mid).len() && views(names_mid)[p] == y;
                    assert(cur[p] == y);
                }
            }
            lemma_distinct_within(cur, bound);
        }
    }
    proof {
        let s = name_set(names@);
        assert forall|n: Seq<char>, m: Seq<char>| s.contains(n) && #[trigger] mentions(e, n).contains(m) implies s.contains(
            m,
        ) by {
            assert(views(names@).contains(n));
            assert(!views(frontier@).contains(n));
        }
        assert(closed(s, e));
        assert(s =~= reachable(start, e)) by {
            assert forall|y: Seq<char>| reachable(start, e).contains(y) implies s.contains(y) by {
                assert(start.subset_of(s) && closed(s, e));
            }
        }
    }
}

/// Add the live-variable names of every value stored in `attrs`.
pub fn walk_attrs(attrs: &AttrMap, names: &mut Vec<String>)
    requires
        views(old(names)@).no_duplicates(),
    ensures
        views(final(names)@).no_duplicates(),
        name_set(final(names)@) == name_set(old(names)@) + all_mentions(attrs.entries@).to_set(),
{
    let n = attrs.entries.len();
    let mut i: usize = 0;
    proof {
        assert(attrs.entries@.skip(0) =~= attrs.entries@);
    }
    while i < n
        invariant
            n == attrs.entries@.len(),
            i <= n,
            views(names@).no_duplicates(),
            name_set(names@) + all_mentions(attrs.entries@.skip(i as int)).to_set() == name_set(old(names)@)
                + all_mentions(attrs.entries@).to_set(),
        decreases n - i,
    {
        let ghost before = names@;
        collect_live(&attrs.entries[i].1, names);
        proof {
            let rest = attrs.entries@.skip(i as int);
            assert(rest.drop_first() =~= attrs.entries@.skip(i + 1));
            assert(rest[0] == attrs.entries@[i as int]);
            let here = live_names(attrs.entries@[i as int].1.deep());
            vstd::seq_lib::seq_to_set_distributes_over_add(here, all_mentions(rest.drop_first()));
            assert(name_set(names@) + all_mentions(attrs.entries@.skip(i + 1)).to_set() =~= name_set(before)
                + all_mentions(rest).to_set());
        }
        i = i + 1;
    }
    proof {
        assert(attrs.entries@.skip(n as int) =~= Seq::<(String, ResolvedValue)>::empty());
        assert(all_mentions(Seq::<(String, ResolvedValue)>::empty()).to_set() =~= Set::<Seq<char>>::empty());
        assert(name_set(names@) =~= name_set(names@) + Set::<Seq<char>>::empty());
    }
}

/// The text a CSS reference to a Lini variable opens with: `var(--lini-`.
pub open spec fn var_prefix() -> Seq<char> {
    seq!['v', 'a', 'r', '(', '-', '-', 'l', 'i', 'n', 'i', '-']
}

/// Whether the prefix starts at character `k`.
pub open spec fn prefix_at(s: Seq<char>, k: int) -> bool {
    0 <= k && k + 11 <= s.len() && s.subrange(k, k + 11) == var_prefix()
}

/// The first position at or after `i` where the prefix starts.
pub open spec fn find_prefix(s: Seq<char>, i: int) -> Option<int>
    decreases s.len() - i,
{
    if i < 0 || i + 11 > s.len() {
        None
    } else if prefix_at(s, i) {
        Some(i)
    } else {
        find_prefix(s, i + 1)
    }
}

/// A character of a variable name: an ASCII letter or digit, or `-`.
pub open spec fn name_char(c: char) -> bool {
    ('a' <= c <= 'z') || ('A' <= c <= 'Z') || ('0' <= c <= '9') || c == '-'
}

/// The end of the name run from `k`.
pub open spec fn name_end(s: Seq<char>, k: int) -> int
    decreases s.len() - k,
{
    if 0 <= k < s.len() && name_char(s[k]) {
        name_end(s, k + 1)
    } else {
        k
    }
}

/// The names of the `var(--lini-NAME)` references in `s` from `i` on, left
/// to right: after each prefix, the run of name characters (skipped when
/// empty).
pub open spec fn css_refs(s: Seq<char>, i: int) -> Seq<Seq<char>>
    decreases s.len() - i,
{
    match find_prefix(s, i) {
        None => Seq::empty(),
        Some(k) => {
            let st = k + 11;
            let e = name_end(s, st);
            let here = if e > st {
                seq![s.subrange(st, e)]
            } else {
                Seq::empty()
            };
            let next = if e > st {
                e
            } else {
                st + 1
            };
            if i < next <= s.len() {
                here + css_refs(s, next)
            } else {
                here
            }
        },
    }
}

/// Every prefix in `s` is followed by an ASCII character (after a prefix
/// the scan steps one byte ahead, which must land between characters).
pub open spec fn prefixes_followed(s: Seq<char>) -> bool {
    forall|k: int| #[trigger] prefix_at(s, k) ==> k + 11 < s.len() && (s[k + 11] as u32) < 0x80
}

/// Whether the prefix starts at `k` of `chars`.
fn prefix_here(chars: &Vec<char>, k: usize) -> (b: bool)
    requires
        k + 11 <= chars@.len(),
    ensures
        b == prefix_at(chars@, k as int),
{
    let _len = chars.len();
    let b = chars[k] == 'v' && chars[k + 1] == 'a' && chars[k + 2] == 'r' && chars[k + 3] == '(' && chars[k + 4] == '-'
        && chars[k + 5] == '-' && chars[k + 6] == 'l' && chars[k + 7] == 'i' && chars[k + 8] == 'n' && chars[k + 9] == 'i'
        && chars[k + 10] == '-';
    proof {
        if b {
            assert(chars@.subrange(k as int, k + 11) =~= var_prefix());
        } else {
            if chars@.subrange(k as int, k + 11) == var_prefix() {
                assert(chars@.subrange(k as int, k + 11)[0] == 'v');
                assert(chars@.subrange(k as int, k + 11)[10] == '-');
                assert(chars@.subrange(k as int, k + 11)[1] == 'a');
                assert(chars@.subrange(k as int, k + 11)[2] == 'r');
                assert(chars@.subrange(k as int, k + 11)[3] == '(');
                assert(chars@.subrange(k as int, k + 11)[4] == '-');
                assert(chars@.subrange(k as int, k + 11)[5] == '-');
                assert(chars@.subrange(k as int, k + 11)[6] == 'l');
                assert(chars@.subrange(k as int, k + 11)[7] == 'i');
                assert(chars@.subrange(k as int, k + 11)[8] == 'n');
                assert(chars@.subrange(k as int, k + 11)[9] == 'i');
            }
        }
    }
    b
}

fn name_char_c(c: char) -> (b: bool)
    ensures
        b == name_char(c),
{
    ('a' <= c && c <= 'z') || ('A' <= c && c <= 'Z') || ('0' <= c && c <= '9') || c == '-'
}

/// Add the names of the `var(--lini-NAME)` references in a formatted CSS
/// string (the structural rules carry their colours this way).
pub fn scan_css(s: &str, names: &mut Vec<String>)
    requires
        views(old(names)@).no_duplicates(),
        prefixes_followed(s@),
    ensures
        views(final(names)@).no_duplicates(),
        name_set(final(names)@) == name_set(old(names)@) + css_refs(s@, 0).to_set(),
{
    let chars = chars_of(s);
    let n = chars.len();
    let mut i: usize = 0;
    while i <= n
        invariant
            chars@ == s@,
            n == s@.len(),
            prefixes_followed(s@),
            views(names@).no_duplicates(),
            name_set(names@) + css_refs(s@, i as int).to_set() == name_set(old(names)@) + css_refs(s@, 0).to_set(),
        decreases n + 1 - i,
    {
        let mut k = i;
        while n - k >= 11 && !prefix_here(&chars, k)
            invariant
                chars@ == s@,
                n == s@.len(),
                i <= k <= n,
                find_prefix(s@, i as int) == find_prefix(s@, k as int),
            decreases n - k,
        {
            k = k + 1;
        }
        if n - k < 11 {
            proof {
                assert(css_refs(s@, i as int) =~= Seq::<Seq<char>>::empty());
                assert(css_refs(s@, i as int).to_set() =~= Set::<Seq<char>>::empty());
                assert(name_set(names@) =~= name_set(names@) + Set::<Seq<char>>::empty());
            }
            return;
        }
        assert(find_prefix(s@, i as int) == Some(k as int));
        assert(prefix_at(s@, k as int));
        let st = k + 11;
        let mut e = st;
        while e < n && name_char_c(chars[e])
            invariant
                chars@ == s@,
                n == s@.len(),
                st <= e <= n,
                name_end(s@, st as int) == name_end(s@, e as int),
            decreases n - e,
        {
            e = e + 1;
        }
        let ghost before = names@;
        if e > st {
            let name = crate::render::rules::string_of(&chars, st, e);
            insert_name(names, name.as_str());
            proof {
                let here = seq![s@.subrange(st as int, e as int)];
                views(before).lemma_push_to_set_commute(s@.subrange(st as int, e as int));
                let z = Seq::<Seq<char>>::empty();
                assert(z.push(s@.subrange(st as int, e as int)) =~= here);
                z.lemma_push_to_set_commute(s@.subrange(st as int, e as int));
                assert(z.to_set() =~= Set::<Seq<char>>::empty());
                vstd::seq_lib::seq_to_set_distributes_over_add(here, css_refs(s@, e as int));
                assert(name_set(names@) + css_refs(s@, e as int).to_set() =~= name_set(before) + css_refs(
                    s@,
                    i as int,
                ).to_set());
            }
            i = e;
        } else {
            proof {
                assert(css_refs(s@, i as int) =~= Seq::<Seq<char>>::empty() + css_refs(s@, st + 1));
            }
            i = st + 1;
        }
    }
}

/// The live-variable names of an attribute map's values.
pub open spec fn attr_names(a: AttrMap) -> Set<Seq<char>> {
    all_mentions(a.entries@).to_set()
}

/// The live-variable names in a node's attributes and, recursively, its
/// children's.
pub open spec fn node_names(n: PlacedNode) -> Set<Seq<char>>
    decreases n,
{
    attr_names(n.attrs) + nodes_names(n.children@)
}

/// The live-variable names of each node of a list.
pub open spec fn nodes_names(ns: Seq<PlacedNode>) -> Set<Seq<char>>
    decreases ns,
{
    if ns.len() == 0 {
        Set::empty()
    } else {
        nodes_names(ns.drop_last()) + node_names(ns.last())
    }
}

/// The live-variable names of a wire's texts.
pub open spec fn texts_names(ts: Seq<RoutedText>) -> Set<Seq<char>>
    decreases ts.len(),
{
    if ts.len() == 0 {
        Set::empty()
    } else {
        texts_names(ts.drop_last()) + attr_names(ts.last().attrs)
    }
}

/// The live-variable names of each wire: its attributes and its texts'.
pub open spec fn wires_names(ws: Seq<RoutedWire>) -> Set<Seq<char>>
    decreases ws.len(),
{
    if ws.len() == 0 {
        Set::empty()
    } else {
        wires_names(ws.drop_last()) + attr_names(ws.last().attrs) + texts_names(ws.last().texts@)
    }
}

/// The live-variable names of the sheet's class rules.
pub open spec fn class_rules_names(cs: Seq<(String, AttrMap)>) -> Set<Seq<char>>
    decreases cs.len(),
{
    if cs.len() == 0 {
        Set::empty()
    } else {
        class_rules_names(cs.drop_last()) + attr_names(cs.last().1)
    }
}

/// The variables a rule's formatted values reference as `var(--lini-…)`.
pub open spec fn props_names(props: Seq<(String, String)>) -> Set<Seq<char>>
    decreases props.len(),
{
    if props.len() == 0 {
        Set::empty()
    } else {
        props_names(props.drop_last()) + css_refs(props.last().1@, 0).to_set()
    }
}

/// The variables each rule's formatted values reference.
pub open spec fn rules_names(rules: Seq<Rule>) -> Set<Seq<char>>
    decreases rules.len(),
{
    if rules.len() == 0 {
        Set::empty()
    } else {
        rules_names(rules.drop_last()) + props_names(rules.last().props@)
    }
}

/// The live-variable names of each gradient's stops.
pub open spec fn stops_names(gs: Seq<GradientDef>) -> Set<Seq<char>>
    decreases gs.len(),
{
    if gs.len() == 0 {
        Set::empty()
    } else {
        stops_names(gs.drop_last()) + live_names_seq(deep_seq(gs.last().stops@)).to_set()
    }
}

/// Every name the output references directly: the structural rules' CSS,
/// every output-bound value (node, wire, text, sheet and canvas attributes,
/// gradient stops), and the airwire paint when an airwire is drawn.
pub open spec fn seeds(laid: LaidOut, rules: RuleSet) -> Set<Seq<char>> {
    rules_names(rules.rules@) + nodes_names(laid.nodes@) + wires_names(laid.wires@) + (if laid.airwires > 0 {
        set!["airwire"@]
    } else {
        Set::empty()
    }) + class_rules_names(laid.sheet.class_rules@) + attr_names(laid.sheet.wire_defaults) + attr_names(
        laid.sheet.root_text,
    ) + (match laid.canvas_fill {
        Some(v) => live_names(v.deep()).to_set(),
        None => Set::empty(),
    }) + stops_names(laid.gradients@)
}

/// Add the live-variable names of a node's attributes and, recursively, its
/// children's.
fn walk_node(n: &PlacedNode, names: &mut Vec<String>)
    requires
        views(old(names)@).no_duplicates(),
    ensures
        views(final(names)@).no_duplicates(),
        name_set(final(names)@) == name_set(old(names)@) + node_names(*n),
    decreases n,
{
    walk_attrs(&n.attrs, names);
    let ghost mid = name_set(names@);
    let k = n.children.len();
    let mut i: usize = 0;
    proof {
        assert(n.children@.take(0) =~= Seq::<PlacedNode>::empty());
        assert(name_set(names@) =~= mid + nodes_names(n.children@.take(0)));
    }
    while i < k
        invariant
            k == n.children@.len(),
            i <= k,
            views(names@).no_duplicates(),
            name_set(names@) == mid + nodes_names(n.children@.take(i as int)),
        decreases k - i,
    {
        assert(decreases_to!(n => n.children@[i as int]));
        walk_node(&n.children[i], names);
        proof {
            let c = n.children@;
            assert(c.take(i + 1).drop_last() =~= c.take(i as int));
            assert(c.take(i + 1).last() == c[i as int]);
            assert(name_set(names@) =~= mid + nodes_names(c.take(i + 1)));
        }
        i = i + 1;
    }
    proof {
        assert(n.children@.take(k as int) =~= n.children@);
        assert(name_set(names@) =~= name_set(old(names)@) + node_names(*n));
    }
}

/// The set of `--lini-*` names (without the prefix) the document
/// references, directly or through a kept variable's value, in key order.
pub fn referenced(laid: &LaidOut, ruleset: &RuleSet) -> (out: Vec<String>)
    requires
        forall|r: int, p: int|
            0 <= r < ruleset.rules@.len() && 0 <= p < ruleset.rules@[r].props@.len() ==> prefixes_followed(
                #[trigger] ruleset.rules@[r].props@[p].1@,
            ),
    ensures
        ascending(views(out@)),
        views(out@).to_set() == reachable(seeds(*laid, *ruleset), laid.vars.entries@),
{
    let mut names: Vec<String> = Vec::new();
    proof {
        assert(views(names@) =~= Seq::<Seq<char>>::empty());
        assert(name_set(names@) =~= Set::<Seq<char>>::empty());
        assert(ruleset.rules@.take(0) =~= Seq::<Rule>::empty());
    }
    // The structural rules' CSS.
    let nr = ruleset.rules.len();
    let mut r: usize = 0;
    while r < nr
        invariant
            nr == ruleset.rules@.len(),
            r <= nr,
            forall|r: int, p: int|
                0 <= r < ruleset.rules@.len() && 0 <= p < ruleset.rules@[r].props@.len() ==> prefixes_followed(
                    #[trigger] ruleset.rules@[r].props@[p].1@,
                ),
            views(names@).no_duplicates(),
            name_set(names@) == rules_names(ruleset.rules@.take(r as int)),
        decreases nr - r,
    {
        let rule = &ruleset.rules[r];
        let ghost before = name_set(names@);
        let np = rule.props.len();
        let mut p: usize = 0;
        proof {
            assert(rule.props@.take(0) =~= Seq::<(String, String)>::empty());
            assert(name_set(names@) =~= before + props_names(rule.props@.take(0)));
        }
        while p < np
            invariant
                np == rule.props@.len(),
                p <= np,
                rule == ruleset.rules@[r as int],
                r < ruleset.rules@.len(),
                forall|r: int, p: int|
                    0 <= r < ruleset.rules@.len() && 0 <= p < ruleset.rules@[r].props@.len() ==> prefixes_followed(
                        #[trigger] ruleset.rules@[r].props@[p].1@,
                    ),
                views(names@).no_duplicates(),
                name_set(names@) == before + props_names(rule.props@.take(p as int)),
            decreases np - p,
        {
            assert(prefixes_followed(ruleset.rules@[r as int].props@[p as int].1@));
            scan_css(rule.props[p].1.as_str(), &mut names);
            proof {
                let ps = rule.props@;
                assert(ps.take(p + 1).drop_last() =~= ps.take(p as int));
                assert(ps.take(p + 1).last() == ps[p as int]);
                assert(name_set(names@) =~= before + props_names(ps.take(p + 1)));
            }
            p = p + 1;
        }
        proof {
            let rs = ruleset.rules@;
            assert(rule.props@.take(np as int) =~= rule.props@);
            assert(rs.take(r + 1).drop_last() =~= rs.take(r as int));
            assert(rs.take(r + 1).last() == rs[r as int]);
            assert(name_set(names@) =~= rules_names(rs.take(r + 1)));
        }
        r = r + 1;
    }
    proof {
        assert(ruleset.rules@.take(nr as int) =~= ruleset.rules@);
    }
    let ghost after_rules = name_set(names@);
    // Every node, recursively.
    let nn = laid.nodes.len();
    let mut i: usize = 0;
    proof {
        assert(laid.nodes@.take(0) =~= Seq::<PlacedNode>::empty());
        assert(name_set(names@) =~= after_rules + nodes_names(laid.nodes@.take(0)));
    }
    while i < nn
        invariant
            nn == laid.nodes@.len(),
            i <= nn,
            views(names@).no_duplicates(),
            name_set(names@) == after_rules + nodes_names(laid.nodes@.take(i as int)),
        decreases nn - i,
    {
        walk_node(&laid.nodes[i], &mut names);
        proof {
            let ns = laid.nodes@;
            assert(ns.take(i + 1).drop_last() =~= ns.take(i as int));
            assert(ns.take(i + 1).last() == ns[i as int]);
            assert(name_set(names@) =~= after_rules + nodes_names(ns.take(i + 1)));
        }
        i = i + 1;
    }
    proof {
        assert(laid.nodes@.take(nn as int) =~= laid.nodes@);
    }
    let ghost after_nodes = name_set(names@);
    // Every wire and its texts.
    let nw = laid.wires.len();
    let mut w: usize = 0;
    proof {
        assert(laid.wires@.take(0) =~= Seq::<RoutedWire>::empty());
        assert(name_set(names@) =~= after_nodes + wires_names(laid.wires@.take(0)));
    }
    while w < nw
        invariant
            nw == laid.wires@.len(),
            w <= nw,
            views(names@).no_duplicates(),
            name_set(names@) == after_nodes + wires_names(laid.wires@.take(w as int)),
        decreases nw - w,
    {
        let wire = &laid.wires[w];
        let ghost before = name_set(names@);
        walk_attrs(&wire.attrs, &mut names);
        let ghost mid = name_set(names@);
        let nt = wire.texts.len();
        let mut k: usize = 0;
        proof {
            assert(wire.texts@.take(0) =~= Seq::<RoutedText>::empty());
            assert(name_set(names@) =~= mid + texts_names(wire.texts@.take(0)));
        }
        while k < nt
            invariant
                nt == wire.texts@.len(),
                k <= nt,
                views(names@).no_duplicates(),
                name_set(names@) == mid + texts_names(wire.texts@.take(k as int)),
            decreases nt - k,
        {
            walk_attrs(&wire.texts[k].attrs, &mut names);
            proof {
                let ts = wire.texts@;
                assert(ts.take(k + 1).drop_last() =~= ts.take(k as int));
                assert(ts.take(k + 1).last() == ts[k as int]);
                assert(name_set(names@) =~= mid + texts_names(ts.take(k + 1)));
            }
            k = k + 1;
        }
        proof {
            let ws = laid.wires@;
            assert(wire.texts@.take(nt as int) =~= wire.texts@);
            assert(ws.take(w + 1).drop_last() =~= ws.take(w as int));
            assert(ws.take(w + 1).last() == ws[w as int]);
            assert(name_set(names@) =~= after_nodes + wires_names(ws.take(w + 1)));
        }
        w = w + 1;
    }
    proof {
        assert(laid.wires@.take(nw as int) =~= laid.wires@);
    }
    let ghost after_wires = name_set(names@);
    // The airwire paint.
    if laid.airwires > 0 {
        let ghost before = views(names@);
        insert_name(&mut names, "airwire");
        proof {
            before.lemma_push_to_set_commute("airwire"@);
            assert(name_set(names@) =~= after_wires + set!["airwire"@]);
        }
    } else {
        proof {
            assert(name_set(names@) =~= after_wires + Set::<Seq<char>>::empty());
        }
    }
    let ghost after_air = name_set(names@);
    // The sheet: class rules, wire defaults, root text.
    let nc = laid.sheet.class_rules.len();
    let mut c: usize = 0;
    proof {
        assert(laid.sheet.class_rules@.take(0) =~= Seq::<(String, AttrMap)>::empty());
        assert(name_set(names@) =~= after_air + class_rules_names(laid.sheet.class_rules@.take(0)));
    }
    while c < nc
        invariant
            nc == laid.sheet.class_rules@.len(),
            c <= nc,
            views(names@).no_duplicates(),
            name_set(names@) == after_air + class_rules_names(laid.sheet.class_rules@.take(c as int)),
        decreases nc - c,
    {
        walk_attrs(&laid.sheet.class_rules[c].1, &mut names);
        proof {
            let cs = laid.sheet.class_rules@;
            assert(cs.take(c + 1).drop_last() =~= cs.take(c as int));
            assert(cs.take(c + 1).last() == cs[c as int]);
            assert(name_set(names@) =~= after_air + class_rules_names(cs.take(c + 1)));
        }
        c = c + 1;
    }
    proof {
        assert(laid.sheet.class_rules@.take(nc as int) =~= laid.sheet.class_rules@);
    }
    walk_attrs(&laid.sheet.wire_defaults, &mut names);
    walk_attrs(&laid.sheet.root_text, &mut names);
    let ghost after_sheet = name_set(names@);
    // The canvas fill.
    match &laid.canvas_fill {
        Some(fill) => {
            collect_live(fill, &mut names);
        },
        None => {
            proof {
                assert(name_set(names@) =~= after_sheet + Set::<Seq<char>>::empty());
            }
        },
    }
    let ghost after_fill = name_set(names@);
    // Gradient stops, which left the attrs when the gradients were interned.
    let ng = laid.gradients.len();
    let mut g: usize = 0;
    proof {
        assert(laid.gradients@.take(0) =~= Seq::<GradientDef>::empty());
        assert(name_set(names@) =~= after_fill + stops_names(laid.gradients@.take(0)));
    }
    while g < ng
        invariant
            ng == laid.gradients@.len(),
            g <= ng,
            views(names@).no_duplicates(),
            name_set(names@) == after_fill + stops_names(laid.gradients@.take(g as int)),
        decreases ng - g,
    {
        collect_all(&laid.gradients[g].stops, &mut names);
        proof {
            let gs = laid.gradients@;
            assert(gs.take(g + 1).drop_last() =~= gs.take(g as int));
            assert(gs.take(g + 1).last() == gs[g as int]);
            assert(name_set(names@) =~= after_fill + stops_names(gs.take(g + 1)));
        }
        g = g + 1;
    }
    proof {
        assert(laid.gradients@.take(ng as int) =~= laid.gradients@);
        assert(name_set(names@) =~= seeds(*laid, *ruleset));
    }
    close_over_vars(&mut names, &laid.vars);
    // In key order.
    let mut out: Vec<String> = Vec::new();
    let n = names.len();
    let mut q: usize = 0;
    proof {
        assert(views(out@) =~= Seq::<Seq<char>>::empty());
        assert(views(out@).to_set() =~= views(names@).take(0).to_set());
    }
    while q < n
        invariant
            n == names@.len(),
            q <= n,
            ascending(views(out@)),
            views(out@).to_set() == views(names@).take(q as int).to_set(),
        decreases n - q,
    {
        insert_sorted(&mut out, names[q].as_str().to_string());
        proof {
            let v = views(names@);
            assert(v.take(q + 1) =~= v.take(q as int).push(v[q as int]));
            v.take(q as int).lemma_push_to_set_commute(v[q as int]);
        }
        q = q + 1;
    }
    proof {
        assert(views(names@).take(n as int) =~= views(names@));
    }
    out
}

/// The tree-shake's invariant: with the names `referenced` gathers as the
/// used list, the `@layer` block emits a variable exactly when the table
/// defines it and the output reaches it — directly, or through a kept
/// variable's value.
pub proof fn law_emitted_iff_reachable(laid: LaidOut, rules: RuleSet, used: Seq<String>)
    requires
        views(used).to_set() == reachable(seeds(laid, rules), laid.vars.entries@),
    ensures
        forall|k: Seq<char>|
            #[trigger] shaken(laid.vars.entries@, used).contains(k) <==> ((exists|i: int|
                0 <= i < laid.vars.entries@.len() && #[trigger] laid.vars.entries@[i].0@ == k) && reachable(
                seeds(laid, rules),
                laid.vars.entries@,
            ).contains(k)),
{
    let e = laid.vars.entries@;
    assert forall|k: Seq<char>|
        #[trigger] shaken(e, used).contains(k) <==> ((exists|i: int| 0 <= i < e.len() && #[trigger] e[i].0@ == k)
            && reachable(seeds(laid, rules), e).contains(k)) by {
        if (exists|j: int| 0 <= j < used.len() && #[trigger] used[j]@ == k) {
            let j = choose|j: int| 0 <= j < used.len() && #[trigger] used[j]@ == k;
            assert(views(used)[j] == k);
            assert(views(used).to_set().contains(k));
        }
        if reachable(seeds(laid, rules), e).contains(k) {
            assert(views(used).to_set().contains(k));
            let j = choose|j: int| 0 <= j < views(used).len() && views(used)[j] == k;
            assert(used[j]@ == k);
        }
    }
}

} // verus!
