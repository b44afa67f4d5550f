//! The per-pass evaluation: rules × tree → typed attribute writes.
//!
//! For every rule in sheet order, for every node its selector matches,
//! for every declared property, the value tokens are resolved under the
//! registered grammar and written.  Later writes to the same (node,
//! property) slot overwrite earlier ones, so the last matching rule in
//! sheet order wins — that is the entire cascade.  A resolution failure
//! skips that one application and nothing else.

use vstd::prelude::*;

use crate::matching::{match_selector, spec_matched, ComponentFilterRegistry, Tree};
use crate::parser::RuleModel;
use crate::property::PropsModel;
use crate::resolver::{
    spec_prop_kind_lookup, spec_try_parse, try_parse_value, PropertyKind, PropertyRegistry,
    TypedValue, TypedValueModel,
};
use crate::stylesheet::StyleSheetAsset;

verus! {

/// The model of one pass's output: (node, property, value) writes, the
/// surviving value for each slot, in first-write order.
pub type WritesModel = Seq<(usize, Seq<char>, TypedValueModel)>;

/// Write a slot: an existing (node, property) slot keeps its position and
/// takes the new value, a new slot goes to the end.
pub open spec fn spec_write_insert(
    m: WritesModel,
    node: usize,
    name: Seq<char>,
    v: TypedValueModel,
) -> WritesModel {
    if exists|j: int| 0 <= j < m.len() && m[j].0 == node && m[j].1 == name {
        m.update(
            choose|j: int| 0 <= j < m.len() && m[j].0 == node && m[j].1 == name,
            (node, name, v),
        )
    } else {
        m.push((node, name, v))
    }
}

/// The value standing in a slot, if any write reached it.
pub open spec fn spec_write_get(m: WritesModel, node: usize, name: Seq<char>) -> Option<
    TypedValueModel,
> {
    if exists|j: int| 0 <= j < m.len() && m[j].0 == node && m[j].1 == name {
        Some(m[choose|j: int| 0 <= j < m.len() && m[j].0 == node && m[j].1 == name].2)
    } else {
        None
    }
}

/// One rule's declarations applied to one node, in declaration order,
/// folded over `acc`.  An unregistered property or an ill-shaped value is
/// skipped alone.
pub open spec fn spec_apply_props(
    preg: Seq<(Seq<char>, PropertyKind)>,
    node: usize,
    props: PropsModel,
    j: int,
    acc: WritesModel,
) -> WritesModel
    decreases props.len() - j,
{
    if 0 <= j < props.len() {
        let acc2 = match spec_prop_kind_lookup(preg, props[j].0) {
            Some(kind) => match spec_try_parse(kind, props[j].1) {
                Some(v) => spec_write_insert(acc, node, props[j].0, v),
                None => acc,
            },
            None => acc,
        };
        spec_apply_props(preg, node, props, j + 1, acc2)
    } else {
        acc
    }
}

/// One rule's declarations applied to each matched node in ascending
/// node order, folded over `acc`.
pub open spec fn spec_apply_nodes(
    preg: Seq<(Seq<char>, PropertyKind)>,
    props: PropsModel,
    nodes: Seq<usize>,
    i: int,
    acc: WritesModel,
) -> WritesModel
    decreases nodes.len() - i,
{
    if 0 <= i < nodes.len() {
        spec_apply_nodes(preg, props, nodes, i + 1, spec_apply_props(preg, nodes[i], props, 0, acc))
    } else {
        acc
    }
}

/// All rules applied in sheet order, folded over `acc`.
pub open spec fn spec_apply_rules(
    t: Tree,
    kreg: ComponentFilterRegistry,
    preg: Seq<(Seq<char>, PropertyKind)>,
    rules: Seq<RuleModel>,
    r: int,
    acc: WritesModel,
) -> WritesModel
    decreases rules.len() - r,
{
    if 0 <= r < rules.len() {
        spec_apply_rules(
            t,
            kreg,
            preg,
            rules,
            r + 1,
            spec_apply_nodes(
                preg,
                rules[r].properties,
                spec_matched(t, kreg, rules[r].selector, 0),
                0,
                acc,
            ),
        )
    } else {
        acc
    }
}

/// The exact outcome of one evaluation pass over a sheet, a tree snapshot
/// and the two registries.  A pure function of its inputs: there is no
/// cross-pass state.
pub open spec fn spec_apply(
    t: Tree,
    kreg: ComponentFilterRegistry,
    preg: Seq<(Seq<char>, PropertyKind)>,
    rules: Seq<RuleModel>,
) -> WritesModel {
    spec_apply_rules(t, kreg, preg, rules, 0, Seq::empty())
}

/// The typed attribute writes of one pass, one surviving value per
/// (node, property) slot.
#[derive(Debug, Clone, PartialEq, Eq)]
pub struct AppliedStyles {
    pub writes: Vec<(usize, String, TypedValue)>,
}

impl View for AppliedStyles {
    type V = WritesModel;

    open spec fn view(&self) -> WritesModel {
        self.writes@.map_values(|w: (usize, String, TypedValue)| (w.0, w.1@, w.2@))
    }
}

impl AppliedStyles {
    /// Slots are pairwise distinct.
    pub open spec fn wf(self) -> bool {
        forall|a: int, b: int|
            0 <= a < b < self@.len() ==> !(self@[a].0 == self@[b].0 && self@[a].1 == self@[b].1)
    }

    /// No writes yet.
    pub fn new() -> (r: AppliedStyles)
        ensures
            r@ == Seq::<(usize, Seq<char>, TypedValueModel)>::empty(),
            r.wf(),
    {
        let r = AppliedStyles { writes: Vec::new() };
        proof {
            assert(r@ =~= Seq::<(usize, Seq<char>, TypedValueModel)>::empty());
        }
        r
    }

    /// Write one slot; a later write to the same slot overwrites.
    fn set_value(&mut self, node: usize, name: String, v: TypedValue)
        requires
            old(self).wf(),
        ensures
            final(self)@ == spec_write_insert(old(self)@, node, name@, v@),
            final(self).wf(),
    {
        let ghost m = self@;
        let mut j: usize = 0;
        while j < self.writes.len()
            invariant
                j <= self@.len(),
                self@ == m,
                m == old(self)@,
                self.wf(),
                forall|t: int| 0 <= t < j ==> !(self@[t].0 == node && self@[t].1 == name@),
            decreases self@.len() - j,
        {
            if self.writes[j].0 == node && self.writes[j].1 == name {
                proof {
                    assert(m[j as int].0 == node && m[j as int].1 == name@);
                    assert forall|k: int|
                        0 <= k < m.len() && m[k].0 == node && m[k].1 == name@ implies k
                        == j as int by {
                        if k < j as int {
                            assert(!(m[k].0 == node && m[k].1 == name@));
                        } else if k > j as int {
                            assert(!(m[j as int].0 == m[k].0 && m[j as int].1 == m[k].1));
                        }
                    }
                }
                self.writes.set(j, (node, name, v));
                proof {
                    assert(self@ =~= m.update(j as int, (node, name@, v@)));
                    let w = choose|t: int|
                        0 <= t < m.len() && m[t].0 == node && m[t].1 == name@;
                    assert(w == j as int);
                }
                return ;
            }
            j += 1;
        }
        self.writes.push((node, name, v));
        proof {
            assert(self@ =~= m.push((node, name@, v@)));
            assert(!(exists|t: int| 0 <= t < m.len() && m[t].0 == node && m[t].1 == name@));
        }
    }

    /// The value a pass left in a slot, if any.
    pub fn get_value(&self, node: usize, name: &String) -> (r: Option<&TypedValue>)
        requires
            self.wf(),
        ensures
            match r {
                Some(v) => spec_write_get(self@, node, name@) == Some(v@),
                None => spec_write_get(self@, node, name@) is None,
            },
    {
        let mut j: usize = 0;
        while j < self.writes.len()
            invariant
                j <= self@.len(),
                self.wf(),
                forall|t: int| 0 <= t < j ==> !(self@[t].0 == node && self@[t].1 == name@),
            decreases self@.len() - j,
        {
            if self.writes[j].0 == node && self.writes[j].1 == *name {
                proof {
                    let ghost m = self@;
                    assert(m[j as int].0 == node && m[j as int].1 == name@);
                    assert forall|k: int|
                        0 <= k < m.len() && m[k].0 == node && m[k].1 == name@ implies k
                        == j as int by {
                        if k < j as int {
                            assert(!(m[k].0 == node && m[k].1 == name@));
                        } else if k > j as int {
                            assert(!(m[j as int].0 == m[k].0 && m[j as int].1 == m[k].1));
                        }
                    }
                    let w = choose|t: int|
                        0 <= t < m.len() && m[t].0 == node && m[t].1 == name@;
                    assert(w == j as int);
                }
                return Some(&self.writes[j].2);
            }
            j += 1;
        }
        proof {
            assert(!(exists|t: int|
                0 <= t < self@.len() && self@[t].0 == node && self@[t].1 == name@));
        }
        None
    }

    /// How many slots took a value.
    pub fn len(&self) -> (r: usize)
        ensures
            r == self@.len(),
    {
        self.writes.len()
    }
}

/// Run one evaluation pass: resolve and apply every matching declaration,
/// rules in sheet order, matched nodes ascending, declarations in order.
/// The result is exactly [`spec_apply`] of the four inputs.
pub fn apply_pass(
    sheet: &StyleSheetAsset,
    tree: &Tree,
    kinds: &ComponentFilterRegistry,
    props: &PropertyRegistry,
) -> (r: AppliedStyles)
    requires
        tree.wf(),
        kinds.wf(),
        props.wf(),
        sheet.wf(),
    ensures
        r@ == spec_apply(*tree, *kinds, props@, sheet@),
        r.wf(),
{
    let ghost rules_m = sheet@;
    let mut out = AppliedStyles::new();
    let mut r: usize = 0;
    proof {
        assert(spec_apply(*tree, *kinds, props@, rules_m) == spec_apply_rules(
            *tree,
            *kinds,
            props@,
            rules_m,
            0,
            Seq::empty(),
        ));
    }
    while r < sheet.rules.len()
        invariant
            r <= sheet.rules@.len(),
            rules_m == sheet@,
            tree.wf(),
            kinds.wf(),
            props.wf(),
            sheet.wf(),
            out.wf(),
            spec_apply(*tree, *kinds, props@, rules_m) == spec_apply_rules(
                *tree,
                *kinds,
                props@,
                rules_m,
                r as int,
                out@,
            ),
        decreases sheet.rules@.len() - r,
    {
        let rule = &sheet.rules[r];
        proof {
            assert(rules_m[r as int] == rule@);
        }
        let matched = match_selector(tree, kinds, &rule.selector);
        let ghost props_m = rule.properties@;
        let ghost acc0 = out@;
        let mut i: usize = 0;
        while i < matched.len()
            invariant
                i <= matched@.len(),
                matched@ == spec_matched(*tree, *kinds, rules_m[r as int].selector, 0),
                props_m == rules_m[r as int].properties,
                r < rules_m.len(),
                rules_m == sheet@,
                tree.wf(),
                kinds.wf(),
                props.wf(),
                sheet.wf(),
                out.wf(),
                (forall|a: int, b: int|
                    0 <= a < b < props_m.len() ==> props_m[a].0 != props_m[b].0),
                rule == sheet.rules@[r as int],
                spec_apply_nodes(props@, props_m, matched@, 0, acc0) == spec_apply_nodes(
                    props@,
                    props_m,
                    matched@,
                    i as int,
                    out@,
                ),
            decreases matched@.len() - i,
        {
            let node = matched[i];
            let ghost acc1 = out@;
            let mut j: usize = 0;
            while j < rule.properties.entries.len()
                invariant
                    j <= props_m.len(),
                    props_m == rules_m[r as int].properties,
                    r < rules_m.len(),
                    rules_m == sheet@,
                    rule == sheet.rules@[r as int],
                    props_m == rule.properties@,
                    props.wf(),
                    out.wf(),
                    spec_apply_props(props@, node, props_m, 0, acc1) == spec_apply_props(
                        props@,
                        node,
                        props_m,
                        j as int,
                        out@,
                    ),
                decreases props_m.len() - j,
            {
                let name = &rule.properties.entries[j].0;
                let vals = &rule.properties.entries[j].1;
                proof {
                    assert(props_m[j as int] == (name@, vals@));
                }
                match props.lookup(name) {
                    Some(kind) => {
                        match try_parse_value(kind, vals) {
                            Ok(v) => {
                                out.set_value(node, name.clone(), v);
                            },
                            Err(_) => {},
                        }
                    },
                    None => {},
                }
                j += 1;
            }
            i += 1;
        }
        r += 1;
    }
    out
}

} // verus!
