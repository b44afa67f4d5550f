//! Selectors: descendant chains of element groups.
//!
//! A selector is stored as a flat element list in source order, with
//! [`SelectorElement::Child`] marking the descendant boundaries that
//! whitespace introduced.  [`Selector::get_parent_tree`] splits the list
//! into groups: each group must hold of one node, and each earlier group
//! must be satisfied by a strict ancestor of the node satisfying the next.

use vstd::prelude::*;
use vstd::string::*;

use crate::error::{EcssError, ErrorModel};
use crate::tokens::{token_models, Token, TokenModel};

verus! {

/// One element of a selector.
#[derive(Debug, Clone, PartialEq, Eq)]
pub enum SelectorElement {
    /// Matches nodes of a dynamically registered kind.
    Component(String),
    /// Matches nodes carrying the class tag.
    Class(String),
    /// Matches the node with the unique identity tag.
    Name(String),
    /// A descendant boundary between two groups.
    Child,
}

/// The mathematical shape of a [`SelectorElement`].
pub enum SelectorElementModel {
    Component(Seq<char>),
    Class(Seq<char>),
    Name(Seq<char>),
    Child,
}

impl View for SelectorElement {
    type V = SelectorElementModel;

    open spec fn view(&self) -> SelectorElementModel {
        match self {
            SelectorElement::Component(s) => SelectorElementModel::Component(s@),
            SelectorElement::Class(s) => SelectorElementModel::Class(s@),
            SelectorElement::Name(s) => SelectorElementModel::Name(s@),
            SelectorElement::Child => SelectorElementModel::Child,
        }
    }
}

impl SelectorElement {
    /// A structural copy, equal to `self` in every contract.
    pub fn duplicate(&self) -> (r: SelectorElement)
        ensures
            r@ == self@,
    {
        match self {
            SelectorElement::Component(s) => SelectorElement::Component(s.clone()),
            SelectorElement::Class(s) => SelectorElement::Class(s.clone()),
            SelectorElement::Name(s) => SelectorElement::Name(s.clone()),
            SelectorElement::Child => SelectorElement::Child,
        }
    }
}

/// The models of an element sequence, in order.
pub open spec fn element_models(es: Seq<SelectorElement>) -> Seq<SelectorElementModel> {
    es.map_values(|e: SelectorElement| e@)
}

/// An ordered chain of selector groups, outermost ancestor first, stored
/// flat with [`SelectorElement::Child`] boundaries.
#[derive(Debug, Clone, PartialEq, Eq)]
pub struct Selector {
    pub elements: Vec<SelectorElement>,
}

impl View for Selector {
    type V = Seq<SelectorElementModel>;

    open spec fn view(&self) -> Seq<SelectorElementModel> {
        element_models(self.elements@)
    }
}

// --- the selector grammar over tokens ---

/// Scan selector tokens left to right.  An identifier after a `.`
/// delimiter is a class element, any other identifier a component (kind)
/// element, a non-empty hash an identity element, whitespace a descendant
/// boundary; an empty hash or any other token rejects the selector.
pub open spec fn spec_sel_scan(
    ts: Seq<TokenModel>,
    i: int,
    hi: int,
    next_class: bool,
    acc: Seq<SelectorElementModel>,
) -> Result<Seq<SelectorElementModel>, ErrorModel>
    decreases hi - i,
{
    if i >= hi {
        Ok(acc)
    } else {
        match ts[i] {
            TokenModel::Identifier(v) => spec_sel_scan(
                ts,
                i + 1,
                hi,
                false,
                acc.push(
                    if next_class {
                        SelectorElementModel::Class(v)
                    } else {
                        SelectorElementModel::Component(v)
                    },
                ),
            ),
            TokenModel::Hash(v) => if v.len() == 0 {
                Err(ErrorModel::InvalidSelector)
            } else {
                spec_sel_scan(ts, i + 1, hi, next_class, acc.push(SelectorElementModel::Name(v)))
            },
            TokenModel::Whitespace => spec_sel_scan(
                ts,
                i + 1,
                hi,
                next_class,
                acc.push(SelectorElementModel::Child),
            ),
            TokenModel::Delimiter(c) => if c == '.' {
                spec_sel_scan(ts, i + 1, hi, true, acc)
            } else {
                Err(ErrorModel::UnexpectedToken(ts[i]))
            },
            _ => Err(ErrorModel::UnexpectedToken(ts[i])),
        }
    }
}

/// Remove descendant boundaries dangling at the end of an element list.
pub open spec fn spec_trim_child(els: Seq<SelectorElementModel>) -> Seq<SelectorElementModel>
    decreases els.len(),
{
    if els.len() > 0 && els.last() == SelectorElementModel::Child {
        spec_trim_child(els.drop_last())
    } else {
        els
    }
}

/// The selector denoted by the tokens `ts[lo..hi)`: the scanned element
/// list with trailing boundaries trimmed, or the first error.  A selector
/// with no elements at all is invalid.
pub open spec fn spec_parse_selector(ts: Seq<TokenModel>, lo: int, hi: int) -> Result<
    Seq<SelectorElementModel>,
    ErrorModel,
> {
    match spec_sel_scan(ts, lo, hi, false, Seq::empty()) {
        Ok(els) => if els.len() == 0 {
            Err(ErrorModel::InvalidSelector)
        } else {
            Ok(spec_trim_child(els))
        },
        Err(e) => Err(e),
    }
}

fn is_child(e: &SelectorElement) -> (r: bool)
    ensures
        r == (e@ == SelectorElementModel::Child),
{
    match e {
        SelectorElement::Child => true,
        _ => false,
    }
}

/// Parse the tokens `toks[lo..hi)` as a selector.
pub fn parse_selector_range(toks: &Vec<Token>, lo: usize, hi: usize) -> (r: Result<
    Selector,
    EcssError,
>)
    requires
        lo <= hi <= toks@.len(),
    ensures
        (match r {
            Ok(sel) => spec_parse_selector(token_models(toks@), lo as int, hi as int) matches Ok(m)
                && m == sel@,
            Err(e) => spec_parse_selector(token_models(toks@), lo as int, hi as int) matches Err(m)
                && m == e@,
        }),
{
    let ghost tm = token_models(toks@);
    let mut els: Vec<SelectorElement> = Vec::new();
    let mut next_class = false;
    let mut i = lo;
    proof {
        assert(element_models(els@) =~= Seq::<SelectorElementModel>::empty());
    }
    while i < hi
        invariant
            lo <= i <= hi <= toks@.len(),
            tm == token_models(toks@),
            spec_sel_scan(tm, lo as int, hi as int, false, Seq::empty()) == spec_sel_scan(
                tm,
                i as int,
                hi as int,
                next_class,
                element_models(els@),
            ),
        decreases hi - i,
    {
        let ghost before = element_models(els@);
        match &toks[i] {
            Token::Identifier(v) => {
                let e = if next_class {
                    SelectorElement::Class(v.clone())
                } else {
                    SelectorElement::Component(v.clone())
                };
                proof {
                    assert(element_models(els@.push(e)) =~= before.push(e@));
                }
                els.push(e);
                next_class = false;
            },
            Token::Hash(v) => {
                if v.as_str().is_empty() {
                    return Err(EcssError::InvalidSelector);
                }
                let e = SelectorElement::Name(v.clone());
                proof {
                    assert(element_models(els@.push(e)) =~= before.push(e@));
                }
                els.push(e);
            },
            Token::Whitespace => {
                let e = SelectorElement::Child;
                proof {
                    assert(element_models(els@.push(e)) =~= before.push(e@));
                }
                els.push(e);
            },
            Token::Delimiter(c) => {
                if *c == '.' {
                    next_class = true;
                } else {
                    return Err(EcssError::UnexpectedToken(toks[i].duplicate()));
                }
            },
            _ => {
                return Err(EcssError::UnexpectedToken(toks[i].duplicate()));
            },
        }
        i += 1;
    }
    if els.len() == 0 {
        return Err(EcssError::InvalidSelector);
    }
    let ghost scanned = element_models(els@);
    while els.len() > 0 && is_child(&els[els.len() - 1])
        invariant
            spec_trim_child(scanned) == spec_trim_child(element_models(els@)),
        decreases els@.len(),
    {
        let ghost before = element_models(els@);
        els.pop();
        proof {
            assert(element_models(els@) =~= before.drop_last());
        }
    }
    Ok(Selector { elements: els })
}

// --- groups ---

/// Split a flat element list on its descendant boundaries, accumulating
/// the group under construction and the groups already closed.
pub open spec fn spec_split_acc(
    els: Seq<SelectorElementModel>,
    i: int,
    cur: Seq<SelectorElementModel>,
    acc: Seq<Seq<SelectorElementModel>>,
) -> Seq<Seq<SelectorElementModel>>
    decreases els.len() - i,
{
    if 0 <= i < els.len() {
        if els[i] == SelectorElementModel::Child {
            spec_split_acc(els, i + 1, Seq::empty(), acc.push(cur))
        } else {
            spec_split_acc(els, i + 1, cur.push(els[i]), acc)
        }
    } else {
        acc.push(cur)
    }
}

/// The groups of a selector, outermost ancestor first.  There is always at
/// least one group; boundary markers themselves appear in none.
pub open spec fn spec_groups(els: Seq<SelectorElementModel>) -> Seq<Seq<SelectorElementModel>> {
    spec_split_acc(els, 0, Seq::empty(), Seq::empty())
}

/// The models of a sequence of element groups.
pub open spec fn group_models(gs: Seq<Vec<SelectorElement>>) -> Seq<Seq<SelectorElementModel>> {
    gs.map_values(|g: Vec<SelectorElement>| element_models(g@))
}

impl Selector {
    /// A selector over the given flat element list.
    pub fn new(elements: Vec<SelectorElement>) -> (r: Selector)
        ensures
            r@ == element_models(elements@),
    {
        Selector { elements }
    }

    /// The descendant chain of this selector as explicit groups, outermost
    /// ancestor first, the target group last.
    pub fn get_parent_tree(&self) -> (r: Vec<Vec<SelectorElement>>)
        ensures
            group_models(r@) == spec_groups(self@),
            r@.len() >= 1,
    {
        let mut acc: Vec<Vec<SelectorElement>> = Vec::new();
        let mut cur: Vec<SelectorElement> = Vec::new();
        let mut i: usize = 0;
        proof {
            assert(element_models(cur@) =~= Seq::<SelectorElementModel>::empty());
            assert(group_models(acc@) =~= Seq::<Seq<SelectorElementModel>>::empty());
        }
        while i < self.elements.len()
            invariant
                i <= self.elements@.len(),
                spec_split_acc(self@, i as int, element_models(cur@), group_models(acc@))
                    == spec_groups(self@),
            decreases self.elements@.len() - i,
        {
            let ghost cur_m = element_models(cur@);
            let ghost acc_m = group_models(acc@);
            if is_child(&self.elements[i]) {
                proof {
                    assert(group_models(acc@.push(cur)) =~= acc_m.push(cur_m));
                }
                acc.push(cur);
                cur = Vec::new();
                proof {
                    assert(element_models(cur@) =~= Seq::<SelectorElementModel>::empty());
                }
            } else {
                let e = self.elements[i].duplicate();
                proof {
                    assert(element_models(cur@.push(e)) =~= cur_m.push(self@[i as int]));
                }
                cur.push(e);
            }
            i += 1;
        }
        let ghost acc_m = group_models(acc@);
        let ghost cur_m = element_models(cur@);
        proof {
            assert(group_models(acc@.push(cur)) =~= acc_m.push(cur_m));
        }
        acc.push(cur);
        acc
    }
}

} // verus!
