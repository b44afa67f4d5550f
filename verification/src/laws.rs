//! Laws that relate the library's operations across calls.
//!
//! Parsing and evaluation are specified as pure functions of their
//! inputs, so the round-trip and idempotence guarantees below are stated
//! once here and hold of every call through the exact contracts of
//! [`crate::parser::StyleSheetParser::parse`] and
//! [`crate::apply::apply_pass`].

use vstd::prelude::*;

use crate::apply::{spec_apply, spec_write_get, spec_write_insert, WritesModel};
use crate::error::ErrorModel;
use crate::matching::{ComponentFilterRegistry, Tree};
use crate::parser::{spec_parse, spec_rules, RuleModel};
use crate::property::{spec_props_get, spec_props_insert, PropertyTokenModel, PropsModel};
use crate::resolver::{PropertyKind, TypedValueModel};
use crate::selector::{
    spec_groups, spec_parse_selector, spec_sel_scan, spec_split_acc, spec_trim_child,
    SelectorElementModel,
};
use crate::tokenizer::spec_tokenize;
use crate::tokens::TokenModel;

verus! {

/// Law: parsing is deterministic.  Two parses of the same sheet text
/// yield structurally equal rule lists, whatever the text.
pub proof fn lemma_parse_deterministic(s: Seq<char>, r1: Seq<RuleModel>, r2: Seq<RuleModel>)
    requires
        r1 == spec_parse(s),
        r2 == spec_parse(s),
    ensures
        r1 == r2,
{
}

/// Law: an evaluation pass is idempotent.  With an unchanged sheet, tree
/// snapshot and registries, re-running the pass yields identical applied
/// values, whatever the inputs.
pub proof fn lemma_apply_idempotent(
    t: Tree,
    kreg: ComponentFilterRegistry,
    preg: Seq<(Seq<char>, PropertyKind)>,
    rules: Seq<RuleModel>,
    r1: WritesModel,
    r2: WritesModel,
)
    requires
        r1 == spec_apply(t, kreg, preg, rules),
        r2 == spec_apply(t, kreg, preg, rules),
    ensures
        r1 == r2,
{
}

/// Law: the empty text denotes no rules.
pub proof fn lemma_parse_empty()
    ensures
        spec_parse(Seq::<char>::empty()) == Seq::<RuleModel>::empty(),
{
    assert(spec_tokenize(Seq::<char>::empty()) =~= Seq::<TokenModel>::empty());
    assert(spec_parse(Seq::<char>::empty()) =~= Seq::<RuleModel>::empty());
}

/// Law: every parsed rule stems from a block whose prelude was a valid
/// selector.  A block with an empty or invalid prelude contributes no
/// rule, so a text with none but such blocks yields zero rules.
pub proof fn lemma_rules_from_valid_preludes(ts: Seq<TokenModel>, i: int, acc: Seq<RuleModel>)
    ensures
        spec_rules(ts, i, acc).len() >= acc.len(),
        forall|j: int| 0 <= j < acc.len() ==> spec_rules(ts, i, acc)[j] == acc[j],
        forall|j: int|
            acc.len() <= j < spec_rules(ts, i, acc).len() ==> exists|lo: int, hi: int|
                spec_parse_selector(ts, lo, hi) == Ok::<_, ErrorModel>(
                    #[trigger] spec_rules(ts, i, acc)[j].selector,
                ),
    decreases ts.len() - i,
{
    let len = ts.len() as int;
    if 0 <= i < len {
        let p = crate::parser::step_to(crate::parser::spec_skip_ws(ts, i, len), i, len);
        if p < len {
            let open = crate::parser::step_to(crate::parser::spec_find_open(ts, p, len), p, len);
            if open < len {
                let close = crate::parser::step_to(
                    crate::parser::spec_find_close(ts, open + 1, len, 0),
                    open + 1,
                    len,
                );
                let nx = if close < len {
                    close + 1
                } else {
                    len
                };
                match spec_parse_selector(ts, p, open) {
                    Ok(sel) => {
                        let rule = RuleModel {
                            selector: sel,
                            properties: crate::parser::spec_decls(
                                ts,
                                open + 1,
                                close,
                                Seq::empty(),
                            ),
                        };
                        lemma_rules_from_valid_preludes(ts, nx, acc.push(rule));
                        let r = spec_rules(ts, i, acc);
                        assert(r == spec_rules(ts, nx, acc.push(rule)));
                        assert forall|j: int| 0 <= j < acc.len() implies r[j] == acc[j] by {
                            assert(spec_rules(ts, nx, acc.push(rule))[j] == acc.push(rule)[j]);
                        }
                        assert forall|j: int|
                            acc.len() <= j < r.len() implies exists|lo: int, hi: int|
                            spec_parse_selector(ts, lo, hi) == Ok::<_, ErrorModel>(
                                #[trigger] r[j].selector,
                            ) by {
                            if j == acc.len() {
                                assert(r[j] == acc.push(rule)[j]);
                                assert(spec_parse_selector(ts, p, open) == Ok::<_, ErrorModel>(
                                    r[j].selector,
                                ));
                            }
                        }
                    },
                    Err(_) => {
                        lemma_rules_from_valid_preludes(ts, nx, acc);
                    },
                }
            }
        }
    }
}

/// Trimming removes every dangling descendant boundary: what remains is
/// empty or ends in a real element.
pub proof fn lemma_trim_no_trailing_child(els: Seq<SelectorElementModel>)
    ensures
        spec_trim_child(els).len() > 0 ==> spec_trim_child(els).last()
            != SelectorElementModel::Child,
    decreases els.len(),
{
    if els.len() > 0 && els.last() == SelectorElementModel::Child {
        lemma_trim_no_trailing_child(els.drop_last());
    }
}

/// Law: a selector that parses never ends in a descendant boundary, so
/// trailing whitespace before the terminating brace produces no extra
/// empty trailing group.
pub proof fn lemma_selector_no_trailing_boundary(ts: Seq<TokenModel>, lo: int, hi: int)
    ensures
        (spec_parse_selector(ts, lo, hi) matches Ok(sel) && sel.len() > 0) ==> (
        spec_parse_selector(ts, lo, hi) matches Ok(sel) && sel.last()
            != SelectorElementModel::Child),
{
    match spec_sel_scan(ts, lo, hi, false, Seq::empty()) {
        Ok(els) => {
            lemma_trim_no_trailing_child(els);
        },
        Err(_) => {},
    }
}

/// Law: within one declaration set, the last declaration of a name wins
/// and no other name is touched, whatever was declared before.
pub proof fn lemma_declaration_last_wins(
    m: PropsModel,
    k: Seq<char>,
    v: Seq<PropertyTokenModel>,
)
    requires
        forall|a: int, b: int| 0 <= a < b < m.len() ==> m[a].0 != m[b].0,
    ensures
        spec_props_get(spec_props_insert(m, k, v), k) == Some(v),
        forall|k2: Seq<char>|
            k2 != k ==> spec_props_get(spec_props_insert(m, k, v), k2) == spec_props_get(m, k2),
{
    let m2 = spec_props_insert(m, k, v);
    if exists|j: int| 0 <= j < m.len() && m[j].0 == k {
        let j = choose|j: int| 0 <= j < m.len() && m[j].0 == k;
        assert(m2 == m.update(j, (k, v)));
        assert(m2[j] == (k, v));
        assert forall|u: int| 0 <= u < m2.len() && m2[u].0 == k implies u == j by {
            if u != j {
                assert(m2[u] == m[u]);
                if u < j {
                    assert(m[u].0 != m[j].0);
                } else {
                    assert(m[j].0 != m[u].0);
                }
            }
        }
        assert forall|k2: Seq<char>| k2 != k implies spec_props_get(m2, k2) == spec_props_get(
            m,
            k2,
        ) by {
            if exists|t: int| 0 <= t < m.len() && m[t].0 == k2 {
                let t = choose|t: int| 0 <= t < m.len() && m[t].0 == k2;
                assert(t != j);
                assert(m2[t].0 == k2);
                let t2 = choose|t: int| 0 <= t < m2.len() && m2[t].0 == k2;
                assert(t2 != j);
                assert(m[t2].0 == k2);
                if t < t2 {
                    assert(m[t].0 != m[t2].0);
                } else if t2 < t {
                    assert(m[t2].0 != m[t].0);
                }
            } else {
                assert forall|t: int| 0 <= t < m2.len() implies m2[t].0 != k2 by {
                    if t != j {
                        assert(m2[t] == m[t]);
                    }
                }
            }
        }
    } else {
        let m2p = m.push((k, v));
        let j = m.len() as int;
        assert(m2p[j] == (k, v));
        assert forall|u: int| 0 <= u < m2p.len() && m2p[u].0 == k implies u == j by {
            if u < j {
                assert(m2p[u] == m[u]);
            }
        }
        assert forall|k2: Seq<char>| k2 != k implies spec_props_get(m2p, k2) == spec_props_get(
            m,
            k2,
        ) by {
            if exists|t: int| 0 <= t < m.len() && m[t].0 == k2 {
                let t = choose|t: int| 0 <= t < m.len() && m[t].0 == k2;
                assert(m2p[t].0 == k2);
                assert forall|u: int| 0 <= u < m2p.len() && m2p[u].0 == k2 implies u == t by {
                    if u < j {
                        assert(m2p[u] == m[u]);
                        if u < t {
                            assert(m[u].0 != m[t].0);
                        } else if t < u {
                            assert(m[t].0 != m[u].0);
                        }
                    }
                }
                assert forall|u: int| 0 <= u < m.len() && m[u].0 == k2 implies u == t by {
                    if u < t {
                        assert(m[u].0 != m[t].0);
                    } else if t < u {
                        assert(m[t].0 != m[u].0);
                    }
                }
                let t2 = choose|u: int| 0 <= u < m2p.len() && m2p[u].0 == k2;
                let t1 = choose|u: int| 0 <= u < m.len() && m[u].0 == k2;
                assert(t2 == t);
                assert(t1 == t);
                assert(m2p[t] == m[t]);
            } else {
                assert forall|t: int| 0 <= t < m2p.len() implies m2p[t].0 != k2 by {
                    if t < j {
                        assert(m2p[t] == m[t]);
                    }
                }
            }
        }
    }
}

/// Law: a later write to a (node, property) slot overwrites the earlier
/// one and leaves every other slot alone — the whole cascade, stated once
/// over the write model.
pub proof fn lemma_write_last_wins(
    m: WritesModel,
    node: usize,
    name: Seq<char>,
    v: TypedValueModel,
)
    requires
        forall|a: int, b: int|
            0 <= a < b < m.len() ==> !(m[a].0 == m[b].0 && m[a].1 == m[b].1),
    ensures
        spec_write_get(spec_write_insert(m, node, name, v), node, name) == Some(v),
        forall|n2: usize, k2: Seq<char>|
            !(n2 == node && k2 == name) ==> spec_write_get(
                spec_write_insert(m, node, name, v),
                n2,
                k2,
            ) == spec_write_get(m, n2, k2),
{
    let m2 = spec_write_insert(m, node, name, v);
    if exists|j: int| 0 <= j < m.len() && m[j].0 == node && m[j].1 == name {
        let j = choose|j: int| 0 <= j < m.len() && m[j].0 == node && m[j].1 == name;
        assert(m2 == m.update(j, (node, name, v)));
        assert(m2[j] == (node, name, v));
        assert forall|u: int|
            0 <= u < m2.len() && m2[u].0 == node && m2[u].1 == name implies u == j by {
            if u != j {
                assert(m2[u] == m[u]);
            }
        }
        assert forall|n2: usize, k2: Seq<char>|
            !(n2 == node && k2 == name) implies spec_write_get(m2, n2, k2) == spec_write_get(
            m,
            n2,
            k2,
        ) by {
            if exists|t: int| 0 <= t < m.len() && m[t].0 == n2 && m[t].1 == k2 {
                let t = choose|t: int| 0 <= t < m.len() && m[t].0 == n2 && m[t].1 == k2;
                assert(t != j);
                assert(m2[t] == m[t]);
                let t2 = choose|t: int| 0 <= t < m2.len() && m2[t].0 == n2 && m2[t].1 == k2;
                assert(t2 != j);
                assert(m[t2] == m2[t2]);
                if t < t2 {
                    assert(!(m[t].0 == m[t2].0 && m[t].1 == m[t2].1));
                } else if t2 < t {
                    assert(!(m[t2].0 == m[t].0 && m[t2].1 == m[t].1));
                }
            } else {
                assert forall|t: int| 0 <= t < m2.len() implies !(m2[t].0 == n2 && m2[t].1
                    == k2) by {
                    if t != j {
                        assert(m2[t] == m[t]);
                    }
                }
            }
        }
    } else {
        let j = m.len() as int;
        assert(m2 == m.push((node, name, v)));
        assert(m2[j] == (node, name, v));
        assert forall|u: int|
            0 <= u < m2.len() && m2[u].0 == node && m2[u].1 == name implies u == j by {
            if u < j {
                assert(m2[u] == m[u]);
            }
        }
        assert forall|n2: usize, k2: Seq<char>|
            !(n2 == node && k2 == name) implies spec_write_get(m2, n2, k2) == spec_write_get(
            m,
            n2,
            k2,
        ) by {
            if exists|t: int| 0 <= t < m.len() && m[t].0 == n2 && m[t].1 == k2 {
                let t = choose|t: int| 0 <= t < m.len() && m[t].0 == n2 && m[t].1 == k2;
                assert(m2[t] == m[t]);
                assert forall|u: int|
                    0 <= u < m2.len() && m2[u].0 == n2 && m2[u].1 == k2 implies u == t by {
                    if u < j {
                        assert(m2[u] == m[u]);
                        if u < t {
                            assert(!(m[u].0 == m[t].0 && m[u].1 == m[t].1));
                        } else if t < u {
                            assert(!(m[t].0 == m[u].0 && m[t].1 == m[u].1));
                        }
                    }
                }
                assert forall|u: int|
                    0 <= u < m.len() && m[u].0 == n2 && m[u].1 == k2 implies u == t by {
                    if u < t {
                        assert(!(m[u].0 == m[t].0 && m[u].1 == m[t].1));
                    } else if t < u {
                        assert(!(m[t].0 == m[u].0 && m[t].1 == m[u].1));
                    }
                }
                let t2 = choose|u: int| 0 <= u < m2.len() && m2[u].0 == n2 && m2[u].1 == k2;
                let t1 = choose|u: int| 0 <= u < m.len() && m[u].0 == n2 && m[u].1 == k2;
                assert(t2 == t);
                assert(t1 == t);
            } else {
                assert forall|t: int| 0 <= t < m2.len() implies !(m2[t].0 == n2 && m2[t].1
                    == k2) by {
                    if t < j {
                        assert(m2[t] == m[t]);
                    }
                }
            }
        }
    }
}

/// Splitting keeps boundary markers out of every group.
proof fn lemma_split_acc_no_boundary(
    els: Seq<SelectorElementModel>,
    i: int,
    cur: Seq<SelectorElementModel>,
    acc: Seq<Seq<SelectorElementModel>>,
)
    requires
        forall|x: int| 0 <= x < cur.len() ==> cur[x] != SelectorElementModel::Child,
        forall|g: int, x: int|
            0 <= g < acc.len() && 0 <= x < acc[g].len() ==> acc[g][x]
                != SelectorElementModel::Child,
    ensures
        forall|g: int, x: int|
            0 <= g < spec_split_acc(els, i, cur, acc).len() && 0 <= x < spec_split_acc(
                els,
                i,
                cur,
                acc,
            )[g].len() ==> spec_split_acc(els, i, cur, acc)[g][x] != SelectorElementModel::Child,
    decreases els.len() - i,
{
    if 0 <= i < els.len() {
        if els[i] == SelectorElementModel::Child {
            lemma_split_acc_no_boundary(els, i + 1, Seq::empty(), acc.push(cur));
        } else {
            lemma_split_acc_no_boundary(els, i + 1, cur.push(els[i]), acc);
        }
    }
}

/// Law: a selector's groups hold match elements only — the descendant
/// boundaries that separated them appear in none.
pub proof fn lemma_groups_no_boundary(els: Seq<SelectorElementModel>)
    ensures
        forall|g: int, x: int|
            0 <= g < spec_groups(els).len() && 0 <= x < spec_groups(els)[g].len() ==> spec_groups(
                els,
            )[g][x] != SelectorElementModel::Child,
{
    lemma_split_acc_no_boundary(els, 0, Seq::empty(), Seq::empty());
}

/// If the element list ends in a real element, splitting ends in a
/// non-empty group.
proof fn lemma_split_acc_last_group(
    els: Seq<SelectorElementModel>,
    i: int,
    cur: Seq<SelectorElementModel>,
    acc: Seq<Seq<SelectorElementModel>>,
)
    requires
        0 <= i < els.len(),
        els.last() != SelectorElementModel::Child,
    ensures
        spec_split_acc(els, i, cur, acc).last().len() > 0,
    decreases els.len() - i,
{
    if els[i] == SelectorElementModel::Child {
        assert(i + 1 < els.len());
        lemma_split_acc_last_group(els, i + 1, Seq::empty(), acc.push(cur));
    } else {
        if i + 1 < els.len() {
            lemma_split_acc_last_group(els, i + 1, cur.push(els[i]), acc);
        } else {
            assert(spec_split_acc(els, i + 1, cur.push(els[i]), acc) == acc.push(
                cur.push(els[i]),
            ));
        }
    }
}

/// Law: a parsed selector with at least one element ends in a non-empty
/// group — trimming the dangling boundaries leaves no phantom empty
/// trailing group for the matching engine to satisfy trivially.
pub proof fn lemma_parsed_selector_last_group_nonempty(ts: Seq<TokenModel>, lo: int, hi: int)
    ensures
        (spec_parse_selector(ts, lo, hi) matches Ok(sel) && sel.len() > 0) ==> (
        spec_parse_selector(ts, lo, hi) matches Ok(sel) && spec_groups(sel).last().len() > 0),
{
    match spec_parse_selector(ts, lo, hi) {
        Ok(sel) => {
            lemma_selector_no_trailing_boundary(ts, lo, hi);
            if sel.len() > 0 {
                lemma_split_acc_last_group(sel, 0, Seq::empty(), Seq::empty());
            }
        },
        Err(_) => {},
    }
}

} // verus!
