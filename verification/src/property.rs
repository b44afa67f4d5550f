//! Declared property values: token sequences keyed by property name.
//!
//! Within one rule a later declaration for the same property name
//! overwrites the earlier one (last wins); distinct names keep their first
//! insertion order.

use vstd::prelude::*;

use crate::num::Num;
use crate::tokens::{Token, TokenModel};

verus! {

/// One token of a declared property value.  Only value-bearing tokens
/// appear here: whitespace and delimiters of the source text are dropped
/// when a declaration is read.
#[derive(Debug, Clone, PartialEq, Eq)]
pub enum PropertyToken {
    Identifier(String),
    Hash(String),
    Dimension(Num),
    Percentage(Num),
    Number(Num),
    Str(String),
}

/// The mathematical shape of a [`PropertyToken`].
pub enum PropertyTokenModel {
    Identifier(Seq<char>),
    Hash(Seq<char>),
    Dimension(Num),
    Percentage(Num),
    Number(Num),
    Str(Seq<char>),
}

impl View for PropertyToken {
    type V = PropertyTokenModel;

    open spec fn view(&self) -> PropertyTokenModel {
        match self {
            PropertyToken::Identifier(s) => PropertyTokenModel::Identifier(s@),
            PropertyToken::Hash(s) => PropertyTokenModel::Hash(s@),
            PropertyToken::Dimension(n) => PropertyTokenModel::Dimension(*n),
            PropertyToken::Percentage(n) => PropertyTokenModel::Percentage(*n),
            PropertyToken::Number(n) => PropertyTokenModel::Number(*n),
            PropertyToken::Str(s) => PropertyTokenModel::Str(s@),
        }
    }
}

/// The value token denoted by a lexical token, if any: whitespace and
/// delimiters carry no value.
pub open spec fn spec_prop_token(t: TokenModel) -> Option<PropertyTokenModel> {
    match t {
        TokenModel::Identifier(v) => Some(PropertyTokenModel::Identifier(v)),
        TokenModel::Hash(v) => Some(PropertyTokenModel::Hash(v)),
        TokenModel::Dimension(n) => Some(PropertyTokenModel::Dimension(n)),
        TokenModel::Percentage(n) => Some(PropertyTokenModel::Percentage(n)),
        TokenModel::Number(n) => Some(PropertyTokenModel::Number(n)),
        TokenModel::Str(v) => Some(PropertyTokenModel::Str(v)),
        TokenModel::Whitespace => None,
        TokenModel::Delimiter(_) => None,
    }
}

impl PropertyToken {
    /// The value token a lexical token carries, if any.
    pub fn try_from_token(t: &Token) -> (r: Option<PropertyToken>)
        ensures
            match r {
                Some(pt) => spec_prop_token(t@) == Some(pt@),
                None => spec_prop_token(t@) is None,
            },
    {
        match t {
            Token::Identifier(s) => Some(PropertyToken::Identifier(s.clone())),
            Token::Hash(s) => Some(PropertyToken::Hash(s.clone())),
            Token::Dimension(n) => Some(PropertyToken::Dimension(*n)),
            Token::Percentage(n) => Some(PropertyToken::Percentage(*n)),
            Token::Number(n) => Some(PropertyToken::Number(*n)),
            Token::Str(s) => Some(PropertyToken::Str(s.clone())),
            Token::Whitespace => None,
            Token::Delimiter(_) => None,
        }
    }
}

/// The models of a value token sequence, in order.
pub open spec fn value_models(vs: Seq<PropertyToken>) -> Seq<PropertyTokenModel> {
    vs.map_values(|v: PropertyToken| v@)
}

/// The ordered token sequence declared for one property.
#[derive(Debug, Clone, PartialEq, Eq)]
pub struct PropertyValues(pub Vec<PropertyToken>);

impl View for PropertyValues {
    type V = Seq<PropertyTokenModel>;

    open spec fn view(&self) -> Seq<PropertyTokenModel> {
        value_models(self.0@)
    }
}

impl PropertyValues {
    /// How many value tokens were declared.
    pub fn len(&self) -> (r: usize)
        ensures
            r == self@.len(),
    {
        self.0.len()
    }

    /// Whether no value token was declared.
    pub fn is_empty(&self) -> (r: bool)
        ensures
            r == (self@.len() == 0),
    {
        self.0.len() == 0
    }
}

/// The model of a declaration set: property names with their value token
/// sequences, in first-insertion order, names unique.
pub type PropsModel = Seq<(Seq<char>, Seq<PropertyTokenModel>)>;

/// Insert into a declaration set: an existing name keeps its position and
/// takes the new value (last declaration wins), a new name goes to the end.
pub open spec fn spec_props_insert(m: PropsModel, k: Seq<char>, v: Seq<PropertyTokenModel>)
    -> PropsModel {
    if exists|j: int| 0 <= j < m.len() && m[j].0 == k {
        m.update(choose|j: int| 0 <= j < m.len() && m[j].0 == k, (k, v))
    } else {
        m.push((k, v))
    }
}

/// The value declared for a name, if any.
pub open spec fn spec_props_get(m: PropsModel, k: Seq<char>) -> Option<Seq<PropertyTokenModel>> {
    if exists|j: int| 0 <= j < m.len() && m[j].0 == k {
        Some(m[choose|j: int| 0 <= j < m.len() && m[j].0 == k].1)
    } else {
        None
    }
}

/// The declarations of one style rule: property name to value token
/// sequence, last declaration of a name winning.
#[derive(Debug, Clone, PartialEq, Eq)]
pub struct Properties {
    pub entries: Vec<(String, PropertyValues)>,
}

impl View for Properties {
    type V = PropsModel;

    open spec fn view(&self) -> PropsModel {
        self.entries@.map_values(|p: (String, PropertyValues)| (p.0@, p.1@))
    }
}

impl Properties {
    /// Property names are pairwise distinct.
    pub open spec fn wf(self) -> bool {
        forall|a: int, b: int| 0 <= a < b < self@.len() ==> self@[a].0 != self@[b].0
    }

    /// An empty declaration set.
    pub fn new() -> (r: Properties)
        ensures
            r@ == Seq::<(Seq<char>, Seq<PropertyTokenModel>)>::empty(),
            r.wf(),
    {
        let r = Properties { entries: Vec::new() };
        proof {
            assert(r@ =~= Seq::<(Seq<char>, Seq<PropertyTokenModel>)>::empty());
        }
        r
    }

    /// How many properties are declared.
    pub fn len(&self) -> (r: usize)
        ensures
            r == self@.len(),
    {
        self.entries.len()
    }

    /// Whether nothing is declared.
    pub fn is_empty(&self) -> (r: bool)
        ensures
            r == (self@.len() == 0),
    {
        self.entries.len() == 0
    }

    /// Declare `name: values`; a name already declared keeps its place and
    /// takes the new values.
    pub fn insert(&mut self, name: String, values: PropertyValues)
        requires
            old(self).wf(),
        ensures
            final(self)@ == spec_props_insert(old(self)@, name@, values@),
            final(self).wf(),
    {
        let ghost m = self@;
        let mut j: usize = 0;
        while j < self.entries.len()
            invariant
                j <= self@.len(),
                self@ == m,
                m == old(self)@,
                self.wf(),
                forall|t: int| 0 <= t < j ==> self@[t].0 != name@,
            decreases self@.len() - j,
        {
            if self.entries[j].0 == name {
                proof {
                    assert(m[j as int].0 == name@);
                    assert forall|k: int| 0 <= k < m.len() && m[k].0 == name@ implies k == j as int by {
                        if k < j as int {
                            assert(m[k].0 != name@);
                        } else if k > j as int {
                            assert(m[j as int].0 != m[k].0);
                        }
                    }
                }
                self.entries.set(j, (name, values));
                proof {
                    assert(self@ =~= m.update(j as int, (name@, values@)));
                    let w = choose|t: int| 0 <= t < m.len() && m[t].0 == name@;
                    assert(w == j as int);
                    assert(spec_props_insert(m, name@, values@) == m.update(
                        j as int,
                        (name@, values@),
                    ));
                }
                return ;
            }
            j += 1;
        }
        self.entries.push((name, values));
        proof {
            assert(self@ =~= m.push((name@, values@)));
            assert(!(exists|t: int| 0 <= t < m.len() && m[t].0 == name@));
        }
    }

    /// The values declared for `name`, if any.
    pub fn get(&self, name: &String) -> (r: Option<&PropertyValues>)
        requires
            self.wf(),
        ensures
            match r {
                Some(v) => spec_props_get(self@, name@) == Some(v@),
                None => spec_props_get(self@, name@) is None,
            },
    {
        let mut j: usize = 0;
        while j < self.entries.len()
            invariant
                j <= self@.len(),
                self.wf(),
                forall|t: int| 0 <= t < j ==> self@[t].0 != name@,
            decreases self@.len() - j,
        {
            if self.entries[j].0 == *name {
                proof {
                    let ghost m = self@;
                    assert(m[j as int].0 == name@);
                    assert forall|k: int| 0 <= k < m.len() && m[k].0 == name@ implies k == j as int by {
                        if k < j as int {
                            assert(m[k].0 != name@);
                        } else if k > j as int {
                            assert(m[j as int].0 != m[k].0);
                        }
                    }
                    let w = choose|t: int| 0 <= t < m.len() && m[t].0 == name@;
                    assert(w == j as int);
                }
                return Some(&self.entries[j].1);
            }
            j += 1;
        }
        proof {
            assert(!(exists|t: int| 0 <= t < self@.len() && self@[t].0 == name@));
        }
        None
    }

    /// Whether `name` is declared at all.
    pub fn contains_key(&self, name: &String) -> (r: bool)
        requires
            self.wf(),
        ensures
            r == (spec_props_get(self@, name@) is Some),
    {
        self.get(name).is_some()
    }
}

} // verus!
