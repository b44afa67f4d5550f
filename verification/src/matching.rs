//! The matching engine: which tree nodes satisfy a selector.
//!
//! The host hands over a read-only snapshot of its object tree (parent
//! links, class tags, identity tags) and a registry mapping each
//! dynamically registered node-kind name to the nodes of that kind.
//! Matching is a pure function of the snapshot: a node is matched when its
//! own group holds of it and every earlier group is satisfied somewhere
//! strictly above it on its ancestor chain.

use vstd::prelude::*;

use crate::selector::{group_models, spec_groups, Selector, SelectorElement, SelectorElementModel};

verus! {

/// One node of the host tree snapshot.
#[derive(Debug, Clone)]
pub struct Node {
    /// Index of the parent node, absent for a root.
    pub parent: Option<usize>,
    /// Class tags of the node.
    pub classes: Vec<String>,
    /// The unique identity tag of the node, if it carries one.
    pub name: Option<String>,
}

/// A read-only snapshot of the host's object tree.
#[derive(Debug, Clone)]
pub struct Tree {
    pub nodes: Vec<Node>,
}

impl Tree {
    /// Each node comes after its parent, so every ancestor chain is
    /// finite and strictly descending in index.
    pub open spec fn wf(self) -> bool {
        forall|i: int|
            0 <= i < self.nodes@.len() ==> ((#[trigger] self.nodes@[i]).parent matches Some(p)
                ==> p < i)
    }

    /// How many nodes the snapshot holds.
    pub fn len(&self) -> (r: usize)
        ensures
            r == self.nodes@.len(),
    {
        self.nodes.len()
    }
}

/// The registry of dynamically registered node kinds: for each kind name,
/// the nodes currently of that kind.  Host-populated at setup, read-only
/// during matching.
#[derive(Debug, Clone)]
pub struct ComponentFilterRegistry {
    pub entries: Vec<(String, Vec<usize>)>,
}

impl View for ComponentFilterRegistry {
    type V = Seq<(Seq<char>, Seq<usize>)>;

    open spec fn view(&self) -> Seq<(Seq<char>, Seq<usize>)> {
        self.entries@.map_values(|p: (String, Vec<usize>)| (p.0@, p.1@))
    }
}

/// The nodes registered under a kind name, if the name is registered.
pub open spec fn spec_kind_lookup(m: Seq<(Seq<char>, Seq<usize>)>, k: Seq<char>) -> Option<
    Seq<usize>,
> {
    if exists|j: int| 0 <= j < m.len() && m[j].0 == k {
        Some(m[choose|j: int| 0 <= j < m.len() && m[j].0 == k].1)
    } else {
        None
    }
}

impl ComponentFilterRegistry {
    /// Kind names are pairwise distinct.
    pub open spec fn wf(self) -> bool {
        forall|a: int, b: int| 0 <= a < b < self@.len() ==> self@[a].0 != self@[b].0
    }

    /// An empty registry: no kind matches anything.
    pub fn new() -> (r: ComponentFilterRegistry)
        ensures
            r@ == Seq::<(Seq<char>, Seq<usize>)>::empty(),
            r.wf(),
    {
        let r = ComponentFilterRegistry { entries: Vec::new() };
        proof {
            assert(r@ =~= Seq::<(Seq<char>, Seq<usize>)>::empty());
        }
        r
    }

    /// Register the nodes of a kind.  Registering a name again replaces
    /// its node set: the last registration wins.
    pub fn register(&mut self, name: String, members: Vec<usize>)
        requires
            old(self).wf(),
        ensures
            final(self).wf(),
            spec_kind_lookup(final(self)@, name@) == Some(members@),
            forall|k: Seq<char>|
                k != name@ ==> spec_kind_lookup(final(self)@, k) == spec_kind_lookup(
                    old(self)@,
                    k,
                ),
    {
        let ghost m = self@;
        let mut j: usize = 0;
        while j < self.entries.len()
            invariant
                j <= self@.len(),
                self@ == m,
                m == old(self)@,
                self.wf(),
                forall|t: int| 0 <= t < j ==> self@[t].0 != name@,
            decreases self@.len() - j,
        {
            if self.entries[j].0 == name {
                proof {
                    assert(m[j as int].0 == name@);
                    assert forall|k: int| 0 <= k < m.len() && m[k].0 == name@ implies k
                        == j as int by {
                        if k < j as int {
                            assert(m[k].0 != name@);
                        } else if k > j as int {
                            assert(m[j as int].0 != m[k].0);
                        }
                    }
                }
                self.entries.set(j, (name, members));
                proof {
                    assert(self@ =~= m.update(j as int, (name@, members@)));
                    lemma_kind_lookup_update(m, j as int, name@, members@);
                }
                return ;
            }
            j += 1;
        }
        self.entries.push((name, members));
        proof {
            assert(self@ =~= m.push((name@, members@)));
            assert(!(exists|t: int| 0 <= t < m.len() && m[t].0 == name@));
            lemma_kind_lookup_push(m, name@, members@);
        }
    }

    /// The nodes registered under `name`, if any.
    pub fn lookup(&self, name: &String) -> (r: Option<&Vec<usize>>)
        requires
            self.wf(),
        ensures
            match r {
                Some(v) => spec_kind_lookup(self@, name@) == Some(v@),
                None => spec_kind_lookup(self@, name@) is None,
            },
    {
        let mut j: usize = 0;
        while j < self.entries.len()
            invariant
                j <= self@.len(),
                self.wf(),
                forall|t: int| 0 <= t < j ==> self@[t].0 != name@,
            decreases self@.len() - j,
        {
            if self.entries[j].0 == *name {
                proof {
                    let ghost m = self@;
                    assert(m[j as int].0 == name@);
                    assert forall|k: int| 0 <= k < m.len() && m[k].0 == name@ implies k
                        == j as int by {
                        if k < j as int {
                            assert(m[k].0 != name@);
                        } else if k > j as int {
                            assert(m[j as int].0 != m[k].0);
                        }
                    }
                    let w = choose|t: int| 0 <= t < m.len() && m[t].0 == name@;
                    assert(w == j as int);
                }
                return Some(&self.entries[j].1);
            }
            j += 1;
        }
        proof {
            assert(!(exists|t: int| 0 <= t < self@.len() && self@[t].0 == name@));
        }
        None
    }
}

proof fn lemma_kind_lookup_update(
    m: Seq<(Seq<char>, Seq<usize>)>,
    j: int,
    name: Seq<char>,
    members: Seq<usize>,
)
    requires
        0 <= j < m.len(),
        m[j].0 == name,
        forall|a: int, b: int| 0 <= a < b < m.len() ==> m[a].0 != m[b].0,
    ensures
        spec_kind_lookup(m.update(j, (name, members)), name) == Some(members),
        forall|k: Seq<char>|
            k != name ==> spec_kind_lookup(m.update(j, (name, members)), k) == spec_kind_lookup(
                m,
                k,
            ),
{
    let m2 = m.update(j, (name, members));
    assert(m2[j].0 == name);
    assert forall|k: int| 0 <= k < m2.len() && m2[k].0 == name implies k == j by {
        if k != j {
            assert(m[k].0 == name);
            if k < j {
                assert(m[k].0 != m[j].0);
            } else {
                assert(m[j].0 != m[k].0);
            }
        }
    }
    assert forall|k: Seq<char>| k != name implies spec_kind_lookup(m2, k) == spec_kind_lookup(
        m,
        k,
    ) by {
        assert forall|t: int| 0 <= t < m.len() && t != j implies m2[t] == m[t] by {}
        if exists|t: int| 0 <= t < m.len() && m[t].0 == k {
            let t = choose|t: int| 0 <= t < m.len() && m[t].0 == k;
            assert(t != j);
            assert(m2[t].0 == k);
            let t2 = choose|t: int| 0 <= t < m2.len() && m2[t].0 == k;
            assert(t2 != j);
            assert(m[t2].0 == k);
            if t < t2 {
                assert(m[t].0 != m[t2].0);
            } else if t2 < t {
                assert(m[t2].0 != m[t].0);
            }
        } else {
            assert forall|t: int| 0 <= t < m2.len() implies m2[t].0 != k by {
                if t != j {
                    assert(m2[t] == m[t]);
                }
            }
        }
    }
}

proof fn lemma_kind_lookup_push(m: Seq<(Seq<char>, Seq<usize>)>, name: Seq<char>, members: Seq<usize>)
    requires
        !(exists|t: int| 0 <= t < m.len() && m[t].0 == name),
        forall|a: int, b: int| 0 <= a < b < m.len() ==> m[a].0 != m[b].0,
    ensures
        spec_kind_lookup(m.push((name, members)), name) == Some(members),
        forall|k: Seq<char>|
            k != name ==> spec_kind_lookup(m.push((name, members)), k) == spec_kind_lookup(m, k),
{
    let m2 = m.push((name, members));
    let j = m.len() as int;
    assert(m2[j].0 == name);
    assert forall|k: int| 0 <= k < m2.len() && m2[k].0 == name implies k == j by {
        if k < j {
            assert(m2[k] == m[k]);
        }
    }
    assert forall|k: Seq<char>| k != name implies spec_kind_lookup(m2, k) == spec_kind_lookup(
        m,
        k,
    ) by {
        if exists|t: int| 0 <= t < m.len() && m[t].0 == k {
            let t = choose|t: int| 0 <= t < m.len() && m[t].0 == k;
            assert(m2[t].0 == k);
            assert forall|u: int| 0 <= u < m2.len() && m2[u].0 == k implies u == t by {
                if u < j {
                    assert(m2[u] == m[u]);
                    if u < t {
                        assert(m[u].0 != m[t].0);
                    } else if t < u {
                        assert(m[t].0 != m[u].0);
                    }
                }
            }
            assert forall|u: int| 0 <= u < m.len() && m[u].0 == k implies u == t by {
                if u < t {
                    assert(m[u].0 != m[t].0);
                } else if t < u {
                    assert(m[t].0 != m[u].0);
                }
            }
            let t2 = choose|u: int| 0 <= u < m2.len() && m2[u].0 == k;
            let t1 = choose|u: int| 0 <= u < m.len() && m[u].0 == k;
            assert(t2 == t);
            assert(t1 == t);
            assert(m2[t] == m[t]);
        } else {
            assert forall|t: int| 0 <= t < m2.len() implies m2[t].0 != k by {
                if t < j {
                    assert(m2[t] == m[t]);
                }
            }
        }
    }
}

// --- element, group and chain satisfaction ---

/// Whether node list `ms` holds node `n`.
pub open spec fn spec_members_contain(ms: Seq<usize>, n: int) -> bool {
    exists|k: int| 0 <= k < ms.len() && ms[k] as int == n
}

/// Whether one selector element holds of node `n`.  An unregistered kind
/// name matches nothing (by design no error); a descendant boundary is no
/// element predicate and holds of no node.
pub open spec fn spec_element_matches(
    t: Tree,
    reg: ComponentFilterRegistry,
    n: int,
    el: SelectorElementModel,
) -> bool
    recommends
        0 <= n < t.nodes@.len(),
{
    match el {
        SelectorElementModel::Component(name) => match spec_kind_lookup(reg@, name) {
            Some(members) => spec_members_contain(members, n),
            None => false,
        },
        SelectorElementModel::Class(name) => exists|k: int|
            0 <= k < t.nodes@[n].classes@.len() && t.nodes@[n].classes@[k]@ == name,
        SelectorElementModel::Name(name) => t.nodes@[n].name matches Some(s) && s@ == name,
        SelectorElementModel::Child => false,
    }
}

/// Whether every element of a group holds of node `n`.
pub open spec fn spec_group_matches(
    t: Tree,
    reg: ComponentFilterRegistry,
    n: int,
    g: Seq<SelectorElementModel>,
) -> bool {
    forall|k: int| 0 <= k < g.len() ==> spec_element_matches(t, reg, n, #[trigger] g[k])
}

/// Whether node `a` lies strictly above node `d` on its parent chain.
pub open spec fn spec_is_strict_ancestor(t: Tree, a: int, d: int) -> bool
    decreases d,
{
    if 0 <= d < t.nodes@.len() {
        match t.nodes@[d].parent {
            Some(p) => a == p as int || ((p as int) < d && spec_is_strict_ancestor(t, a, p as int)),
            None => false,
        }
    } else {
        false
    }
}

/// `a` is `d` itself or a strict ancestor of `d`.
pub open spec fn spec_anc_or_self(t: Tree, a: int, d: int) -> bool {
    a == d || spec_is_strict_ancestor(t, a, d)
}

/// Whether groups `0..=k` of the chain are satisfied with node `n`
/// playing group `k`: group `k` holds of `n`, and each earlier group is
/// satisfied with some strict ancestor playing it.
pub open spec fn spec_sat(
    t: Tree,
    reg: ComponentFilterRegistry,
    groups: Seq<Seq<SelectorElementModel>>,
    k: int,
    n: int,
) -> bool
    decreases k,
{
    spec_group_matches(t, reg, n, groups[k]) && (k <= 0 || (exists|a: int|
        spec_is_strict_ancestor(t, a, n) && spec_sat(t, reg, groups, k - 1, a)))
}

/// Whether the whole selector matches node `n`: its last group holds of
/// `n` and the rest of the descendant chain is satisfied above it.
pub open spec fn spec_selector_matches(
    t: Tree,
    reg: ComponentFilterRegistry,
    sel: Seq<SelectorElementModel>,
    n: int,
) -> bool {
    spec_sat(t, reg, spec_groups(sel), spec_groups(sel).len() - 1, n)
}

/// On a well-formed tree, the strict ancestors of `n` are exactly its
/// parent and the parent's ancestors-or-self.
proof fn lemma_anc_step(t: Tree, n: int)
    requires
        t.wf(),
        0 <= n < t.nodes@.len(),
    ensures
        forall|a: int|
            spec_is_strict_ancestor(t, a, n) <==> (t.nodes@[n].parent matches Some(p)
                && spec_anc_or_self(t, a, p as int)),
{
    assert forall|a: int|
        spec_is_strict_ancestor(t, a, n) <==> (t.nodes@[n].parent matches Some(p)
            && spec_anc_or_self(t, a, p as int)) by {
        match t.nodes@[n].parent {
            Some(p) => {
                assert((p as int) < n);
            },
            None => {},
        }
    }
}

// --- executable matching ---

fn members_contain(ms: &Vec<usize>, n: usize) -> (r: bool)
    ensures
        r == spec_members_contain(ms@, n as int),
{
    let mut k: usize = 0;
    while k < ms.len()
        invariant
            k <= ms@.len(),
            forall|t: int| 0 <= t < k ==> ms@[t] != n,
        decreases ms@.len() - k,
    {
        if ms[k] == n {
            return true;
        }
        k += 1;
    }
    false
}

fn classes_contain(cs: &Vec<String>, name: &String) -> (r: bool)
    ensures
        r == (exists|k: int| 0 <= k < cs@.len() && cs@[k]@ == name@),
{
    let mut k: usize = 0;
    while k < cs.len()
        invariant
            k <= cs@.len(),
            forall|t: int| 0 <= t < k ==> cs@[t]@ != name@,
        decreases cs@.len() - k,
    {
        if cs[k] == *name {
            return true;
        }
        k += 1;
    }
    false
}

fn element_matches(t: &Tree, reg: &ComponentFilterRegistry, n: usize, el: &SelectorElement) -> (r:
    bool)
    requires
        n < t.nodes@.len(),
        reg.wf(),
    ensures
        r == spec_element_matches(*t, *reg, n as int, el@),
{
    match el {
        SelectorElement::Component(name) => match reg.lookup(name) {
            Some(members) => members_contain(members, n),
            None => false,
        },
        SelectorElement::Class(name) => classes_contain(&t.nodes[n].classes, name),
        SelectorElement::Name(name) => match &t.nodes[n].name {
            Some(s) => *s == *name,
            None => false,
        },
        SelectorElement::Child => false,
    }
}

fn group_matches(t: &Tree, reg: &ComponentFilterRegistry, n: usize, g: &Vec<SelectorElement>) -> (r:
    bool)
    requires
        n < t.nodes@.len(),
        reg.wf(),
    ensures
        r == spec_group_matches(*t, *reg, n as int, crate::selector::element_models(g@)),
{
    let ghost gm = crate::selector::element_models(g@);
    let mut k: usize = 0;
    while k < g.len()
        invariant
            k <= g@.len(),
            gm == crate::selector::element_models(g@),
            n < t.nodes@.len(),
            reg.wf(),
            forall|j: int| 0 <= j < k ==> spec_element_matches(*t, *reg, n as int, #[trigger] gm[j]),
        decreases g@.len() - k,
    {
        if !element_matches(t, reg, n, &g[k]) {
            proof {
                assert(gm[k as int] == g@[k as int]@);
                assert(!spec_group_matches(*t, *reg, n as int, gm));
            }
            return false;
        }
        proof {
            assert(gm[k as int] == g@[k as int]@);
        }
        k += 1;
    }
    true
}

/// Whether groups `0..=k` are satisfied with node `n` playing group `k`.
fn sat_exec(
    t: &Tree,
    reg: &ComponentFilterRegistry,
    groups: &Vec<Vec<SelectorElement>>,
    k: usize,
    n: usize,
) -> (r: bool)
    requires
        t.wf(),
        reg.wf(),
        k < groups@.len(),
        n < t.nodes@.len(),
    ensures
        r == spec_sat(*t, *reg, group_models(groups@), k as int, n as int),
    decreases k,
{
    let ghost gm = group_models(groups@);
    proof {
        assert(gm[k as int] == crate::selector::element_models(groups@[k as int]@));
    }
    if !group_matches(t, reg, n, &groups[k]) {
        return false;
    }
    if k == 0 {
        return true;
    }
    let mut cand: Option<usize> = t.nodes[n].parent;
    proof {
        lemma_anc_step(*t, n as int);
        match cand {
            Some(c) => {
                assert(spec_is_strict_ancestor(*t, c as int, n as int));
                if exists|a: int|
                    spec_is_strict_ancestor(*t, a, n as int) && spec_sat(*t, *reg, gm, k - 1, a) {
                    let a = choose|a: int|
                        spec_is_strict_ancestor(*t, a, n as int) && spec_sat(*t, *reg, gm, k - 1, a);
                    assert(spec_anc_or_self(*t, a, c as int));
                }
                if exists|a: int|
                    spec_anc_or_self(*t, a, c as int) && spec_sat(*t, *reg, gm, k - 1, a) {
                    let a = choose|a: int|
                        spec_anc_or_self(*t, a, c as int) && spec_sat(*t, *reg, gm, k - 1, a);
                    assert(spec_is_strict_ancestor(*t, a, n as int));
                }
            },
            None => {
                if exists|a: int|
                    spec_is_strict_ancestor(*t, a, n as int) && spec_sat(*t, *reg, gm, k - 1, a) {
                    let a = choose|a: int|
                        spec_is_strict_ancestor(*t, a, n as int) && spec_sat(*t, *reg, gm, k - 1, a);
                    assert(false);
                }
            },
        }
    }
    while cand.is_some()
        invariant
            t.wf(),
            reg.wf(),
            k < groups@.len(),
            k > 0,
            gm == group_models(groups@),
            spec_group_matches(*t, *reg, n as int, gm[k as int]),
            cand matches Some(c) ==> c < t.nodes@.len(),
            cand matches Some(c) ==> ((exists|a: int|
                spec_is_strict_ancestor(*t, a, n as int) && spec_sat(*t, *reg, gm, k - 1, a))
                <==> (exists|a: int|
                spec_anc_or_self(*t, a, c as int) && spec_sat(*t, *reg, gm, k - 1, a))),
            cand is None ==> !(exists|a: int|
                spec_is_strict_ancestor(*t, a, n as int) && spec_sat(*t, *reg, gm, k - 1, a)),
        decreases (if cand is Some { cand.unwrap() + 1 } else { 0 }),
    {
        let c = cand.unwrap();
        if sat_exec(t, reg, groups, k - 1, c) {
            proof {
                assert(spec_anc_or_self(*t, c as int, c as int));
                assert(exists|a: int|
                    spec_anc_or_self(*t, a, c as int) && spec_sat(*t, *reg, gm, k - 1, a));
                assert(exists|a: int|
                    spec_is_strict_ancestor(*t, a, n as int) && spec_sat(*t, *reg, gm, k - 1, a));
                assert(spec_sat(*t, *reg, gm, k as int, n as int));
            }
            return true;
        }
        let next: Option<usize> = t.nodes[c].parent;
        proof {
            lemma_anc_step(*t, c as int);
            match next {
                Some(p) => {
                    if exists|a: int|
                        spec_anc_or_self(*t, a, c as int) && spec_sat(*t, *reg, gm, k - 1, a) {
                        let a = choose|a: int|
                            spec_anc_or_self(*t, a, c as int) && spec_sat(*t, *reg, gm, k - 1, a);
                        assert(a != c as int);
                        assert(spec_is_strict_ancestor(*t, a, c as int));
                        assert(spec_anc_or_self(*t, a, p as int));
                    }
                    if exists|a: int|
                        spec_anc_or_self(*t, a, p as int) && spec_sat(*t, *reg, gm, k - 1, a) {
                        let a = choose|a: int|
                            spec_anc_or_self(*t, a, p as int) && spec_sat(*t, *reg, gm, k - 1, a);
                        assert(spec_is_strict_ancestor(*t, a, c as int));
                        assert(spec_anc_or_self(*t, a, c as int));
                    }
                },
                None => {
                    if exists|a: int|
                        spec_anc_or_self(*t, a, c as int) && spec_sat(*t, *reg, gm, k - 1, a) {
                        let a = choose|a: int|
                            spec_anc_or_self(*t, a, c as int) && spec_sat(*t, *reg, gm, k - 1, a);
                        assert(a != c as int);
                        assert(spec_is_strict_ancestor(*t, a, c as int));
                    }
                },
            }
        }
        cand = next;
    }
    false
}

/// The ascending list of nodes at or after `n` that the selector matches.
pub open spec fn spec_matched(
    t: Tree,
    reg: ComponentFilterRegistry,
    sel: Seq<SelectorElementModel>,
    n: int,
) -> Seq<usize>
    decreases t.nodes@.len() - n,
{
    if 0 <= n < t.nodes@.len() {
        if spec_selector_matches(t, reg, sel, n) {
            seq![n as usize] + spec_matched(t, reg, sel, n + 1)
        } else {
            spec_matched(t, reg, sel, n + 1)
        }
    } else {
        Seq::empty()
    }
}

/// The exact set of nodes the selector matches, ascending.  Evaluated
/// fresh from the snapshot on every call: there is no cached match state.
pub fn match_selector(t: &Tree, reg: &ComponentFilterRegistry, sel: &Selector) -> (r: Vec<usize>)
    requires
        t.wf(),
        reg.wf(),
    ensures
        r@ == spec_matched(*t, *reg, sel@, 0),
{
    let groups = sel.get_parent_tree();
    let ghost gm = group_models(groups@);
    let mut out: Vec<usize> = Vec::new();
    let mut n: usize = 0;
    let len = t.nodes.len();
    proof {
        assert(out@ + spec_matched(*t, *reg, sel@, 0) =~= spec_matched(*t, *reg, sel@, 0));
    }
    while n < len
        invariant
            n <= len,
            len == t.nodes@.len(),
            t.wf(),
            reg.wf(),
            groups@.len() >= 1,
            gm == group_models(groups@),
            gm == spec_groups(sel@),
            out@ + spec_matched(*t, *reg, sel@, n as int) == spec_matched(*t, *reg, sel@, 0),
        decreases len - n,
    {
        let hit = sat_exec(t, reg, &groups, groups.len() - 1, n);
        proof {
            assert(hit == spec_selector_matches(*t, *reg, sel@, n as int));
        }
        if hit {
            proof {
                assert((out@.push(n)) + spec_matched(*t, *reg, sel@, n + 1 as int) =~= out@ + (seq![
                    n,
                ] + spec_matched(*t, *reg, sel@, n + 1 as int)));
            }
            out.push(n);
        }
        n += 1;
    }
    out
}

/// Law: the matching engine is exact.  A node stands in the matched list
/// exactly when the selector's descendant chain is satisfied at it, and
/// the list is strictly ascending (so it holds no duplicates).
pub proof fn lemma_match_exact(
    t: Tree,
    reg: ComponentFilterRegistry,
    sel: Seq<SelectorElementModel>,
    lo: int,
)
    requires
        0 <= lo,
        t.nodes@.len() <= usize::MAX,
    ensures
        forall|n: usize|
            #[trigger] spec_matched(t, reg, sel, lo).contains(n) <==> (lo <= n as int
                && (n as int) < t.nodes@.len() && spec_selector_matches(t, reg, sel, n as int)),
        forall|j1: int, j2: int|
            0 <= j1 < j2 < spec_matched(t, reg, sel, lo).len() ==> spec_matched(
                t,
                reg,
                sel,
                lo,
            )[j1] < spec_matched(t, reg, sel, lo)[j2],
    decreases t.nodes@.len() - lo,
{
    let m = spec_matched(t, reg, sel, lo);
    if 0 <= lo < t.nodes@.len() {
        lemma_match_exact(t, reg, sel, lo + 1);
        let rest = spec_matched(t, reg, sel, lo + 1);
        assert forall|j: int| 0 <= j < rest.len() implies (rest[j] as int) > lo by {
            assert(rest.contains(rest[j]));
        }
        if spec_selector_matches(t, reg, sel, lo) {
            assert(m == seq![lo as usize] + rest);
            assert forall|n: usize|
                #[trigger] m.contains(n) implies (lo <= n as int && (n as int) < t.nodes@.len()
                && spec_selector_matches(t, reg, sel, n as int)) by {
                let j = choose|j: int| 0 <= j < m.len() && m[j] == n;
                if j == 0 {
                    assert(n == lo as usize);
                    assert(n as int == lo);
                } else {
                    assert(rest[j - 1] == n);
                    assert(rest.contains(n));
                }
            }
            assert forall|n: usize|
                (lo <= n as int && (n as int) < t.nodes@.len() && spec_selector_matches(
                    t,
                    reg,
                    sel,
                    n as int,
                )) implies #[trigger] m.contains(n) by {
                if n as int == lo {
                    assert(m[0] == n);
                } else {
                    assert(rest.contains(n));
                    let j = choose|j: int| 0 <= j < rest.len() && rest[j] == n;
                    assert(m[j + 1] == n);
                }
            }
        } else {
            assert(m == rest);
            assert forall|n: usize|
                #[trigger] m.contains(n) implies (lo <= n as int && (n as int) < t.nodes@.len()
                && spec_selector_matches(t, reg, sel, n as int)) by {
                assert(rest.contains(n));
            }
            assert forall|n: usize|
                (lo <= n as int && (n as int) < t.nodes@.len() && spec_selector_matches(
                    t,
                    reg,
                    sel,
                    n as int,
                )) implies #[trigger] m.contains(n) by {
                assert(n as int != lo);
                assert(rest.contains(n));
            }
        }
    } else {
        assert(m =~= Seq::<usize>::empty());
    }
}

} // verus!
