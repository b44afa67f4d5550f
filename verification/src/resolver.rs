//! The property value resolver: declared token sequences to typed values.
//!
//! Each registered property name owns one grammar, a [`PropertyKind`]:
//! how many tokens it consumes and in what combinations.  Resolution
//! either yields a typed value or rejects the declaration with a local,
//! non-fatal failure.

use vstd::prelude::*;
use vstd::string::*;

use crate::error::EcssError;
use crate::num::Num;
use crate::property::{PropertyToken, PropertyTokenModel, PropertyValues};

verus! {

/// A length-like component value: a pixel magnitude, a percentage, or the
/// keyword `auto`.  A bare number counts as a pixel magnitude.
#[derive(Debug, Clone, Copy, PartialEq, Eq)]
pub enum Val {
    Px(Num),
    Percent(Num),
    Auto,
}

/// The grammar a property's value tokens must fit.
#[derive(Debug, Clone, Copy, PartialEq, Eq)]
pub enum PropertyKind {
    /// One identifier, kept as a keyword (an enum-like property).
    Keyword,
    /// One length-like token.
    Length,
    /// One hash token (a color literal).
    Color,
    /// One quoted string (text content).
    Content,
    /// A box-spacing shorthand: one, two or four length-like tokens.
    Rect,
}

/// A resolved, strongly typed property value, ready to be written into
/// host attribute storage.
#[derive(Debug, Clone, PartialEq, Eq)]
pub enum TypedValue {
    Keyword(String),
    Length(Val),
    Color(String),
    Content(String),
    Rect(Val, Val, Val, Val),
}

/// The mathematical shape of a [`TypedValue`].
pub enum TypedValueModel {
    Keyword(Seq<char>),
    Length(Val),
    Color(Seq<char>),
    Content(Seq<char>),
    Rect(Val, Val, Val, Val),
}

impl View for TypedValue {
    type V = TypedValueModel;

    open spec fn view(&self) -> TypedValueModel {
        match self {
            TypedValue::Keyword(s) => TypedValueModel::Keyword(s@),
            TypedValue::Length(v) => TypedValueModel::Length(*v),
            TypedValue::Color(s) => TypedValueModel::Color(s@),
            TypedValue::Content(s) => TypedValueModel::Content(s@),
            TypedValue::Rect(a, b, c, d) => TypedValueModel::Rect(*a, *b, *c, *d),
        }
    }
}

impl TypedValue {
    /// A structural copy, equal to `self` in every contract.
    pub fn duplicate(&self) -> (r: TypedValue)
        ensures
            r@ == self@,
    {
        match self {
            TypedValue::Keyword(s) => TypedValue::Keyword(s.clone()),
            TypedValue::Length(v) => TypedValue::Length(*v),
            TypedValue::Color(s) => TypedValue::Color(s.clone()),
            TypedValue::Content(s) => TypedValue::Content(s.clone()),
            TypedValue::Rect(a, b, c, d) => TypedValue::Rect(*a, *b, *c, *d),
        }
    }
}

/// The length-like value a single token denotes, if any.
pub open spec fn spec_val_of(t: PropertyTokenModel) -> Option<Val> {
    match t {
        PropertyTokenModel::Dimension(n) => Some(Val::Px(n)),
        PropertyTokenModel::Percentage(n) => Some(Val::Percent(n)),
        PropertyTokenModel::Number(n) => Some(Val::Px(n)),
        PropertyTokenModel::Identifier(v) => if v == "auto"@ {
            Some(Val::Auto)
        } else {
            None
        },
        _ => None,
    }
}

fn val_of(t: &PropertyToken) -> (r: Option<Val>)
    ensures
        r == spec_val_of(t@),
{
    match t {
        PropertyToken::Dimension(n) => Some(Val::Px(*n)),
        PropertyToken::Percentage(n) => Some(Val::Percent(*n)),
        PropertyToken::Number(n) => Some(Val::Px(*n)),
        PropertyToken::Identifier(s) => {
            if *s == String::from_str("auto") {
                Some(Val::Auto)
            } else {
                None
            }
        },
        _ => None,
    }
}

/// The typed value a declared token sequence resolves to under a
/// property kind's grammar, or nothing when the shape does not fit.
pub open spec fn spec_try_parse(kind: PropertyKind, vals: Seq<PropertyTokenModel>) -> Option<
    TypedValueModel,
> {
    match kind {
        PropertyKind::Keyword => if vals.len() == 1 {
            match vals[0] {
                PropertyTokenModel::Identifier(v) => Some(TypedValueModel::Keyword(v)),
                _ => None,
            }
        } else {
            None
        },
        PropertyKind::Length => if vals.len() == 1 {
            match spec_val_of(vals[0]) {
                Some(v) => Some(TypedValueModel::Length(v)),
                None => None,
            }
        } else {
            None
        },
        PropertyKind::Color => if vals.len() == 1 {
            match vals[0] {
                PropertyTokenModel::Hash(h) => Some(TypedValueModel::Color(h)),
                _ => None,
            }
        } else {
            None
        },
        PropertyKind::Content => if vals.len() == 1 {
            match vals[0] {
                PropertyTokenModel::Str(s) => Some(TypedValueModel::Content(s)),
                _ => None,
            }
        } else {
            None
        },
        PropertyKind::Rect => if vals.len() == 1 {
            match spec_val_of(vals[0]) {
                Some(v) => Some(TypedValueModel::Rect(v, v, v, v)),
                None => None,
            }
        } else if vals.len() == 2 {
            match (spec_val_of(vals[0]), spec_val_of(vals[1])) {
                (Some(v0), Some(v1)) => Some(TypedValueModel::Rect(v0, v1, v0, v1)),
                _ => None,
            }
        } else if vals.len() == 4 {
            match (spec_val_of(vals[0]), spec_val_of(vals[1]), spec_val_of(vals[2]), spec_val_of(
                vals[3],
            )) {
                (Some(v0), Some(v1), Some(v2), Some(v3)) => Some(
                    TypedValueModel::Rect(v0, v1, v2, v3),
                ),
                _ => None,
            }
        } else {
            None
        },
    }
}

/// Resolve a declared token sequence under a property kind's grammar.
/// Returns the typed value exactly when the tokens fit the grammar, and
/// [`EcssError::PropertyValueParseFailure`] exactly when they do not.
pub fn try_parse_value(kind: PropertyKind, values: &PropertyValues) -> (r: Result<
    TypedValue,
    EcssError,
>)
    ensures
        match r {
            Ok(v) => spec_try_parse(kind, values@) == Some(v@),
            Err(e) => spec_try_parse(kind, values@) is None && e@
                == crate::error::ErrorModel::PropertyValueParseFailure,
        },
{
    proof {
        assert forall|i: int| 0 <= i < values.0@.len() implies values@[i] == values.0@[i]@ by {}
    }
    let n = values.0.len();
    match kind {
        PropertyKind::Keyword => {
            if n == 1 {
                match &values.0[0] {
                    PropertyToken::Identifier(s) => {
                        return Ok(TypedValue::Keyword(s.clone()));
                    },
                    _ => {
                        return Err(EcssError::PropertyValueParseFailure);
                    },
                }
            }
            Err(EcssError::PropertyValueParseFailure)
        },
        PropertyKind::Length => {
            if n == 1 {
                match val_of(&values.0[0]) {
                    Some(v) => {
                        return Ok(TypedValue::Length(v));
                    },
                    None => {
                        return Err(EcssError::PropertyValueParseFailure);
                    },
                }
            }
            Err(EcssError::PropertyValueParseFailure)
        },
        PropertyKind::Color => {
            if n == 1 {
                match &values.0[0] {
                    PropertyToken::Hash(s) => {
                        return Ok(TypedValue::Color(s.clone()));
                    },
                    _ => {
                        return Err(EcssError::PropertyValueParseFailure);
                    },
                }
            }
            Err(EcssError::PropertyValueParseFailure)
        },
        PropertyKind::Content => {
            if n == 1 {
                match &values.0[0] {
                    PropertyToken::Str(s) => {
                        return Ok(TypedValue::Content(s.clone()));
                    },
                    _ => {
                        return Err(EcssError::PropertyValueParseFailure);
                    },
                }
            }
            Err(EcssError::PropertyValueParseFailure)
        },
        PropertyKind::Rect => {
            if n == 1 {
                match val_of(&values.0[0]) {
                    Some(v) => {
                        return Ok(TypedValue::Rect(v, v, v, v));
                    },
                    None => {
                        return Err(EcssError::PropertyValueParseFailure);
                    },
                }
            }
            if n == 2 {
                match (val_of(&values.0[0]), val_of(&values.0[1])) {
                    (Some(v0), Some(v1)) => {
                        return Ok(TypedValue::Rect(v0, v1, v0, v1));
                    },
                    _ => {
                        return Err(EcssError::PropertyValueParseFailure);
                    },
                }
            }
            if n == 4 {
                match (
                    val_of(&values.0[0]),
                    val_of(&values.0[1]),
                    val_of(&values.0[2]),
                    val_of(&values.0[3]),
                ) {
                    (Some(v0), Some(v1), Some(v2), Some(v3)) => {
                        return Ok(TypedValue::Rect(v0, v1, v2, v3));
                    },
                    _ => {
                        return Err(EcssError::PropertyValueParseFailure);
                    },
                }
            }
            Err(EcssError::PropertyValueParseFailure)
        },
    }
}

// --- the per-property registry ---

/// The grammar registered under a property name, if the name is registered.
pub open spec fn spec_prop_kind_lookup(m: Seq<(Seq<char>, PropertyKind)>, k: Seq<char>) -> Option<
    PropertyKind,
> {
    if exists|j: int| 0 <= j < m.len() && m[j].0 == k {
        Some(m[choose|j: int| 0 <= j < m.len() && m[j].0 == k].1)
    } else {
        None
    }
}

/// The registry of property kinds: for each registered property name, the
/// grammar its declared values must fit.  Host-populated at setup.
#[derive(Debug, Clone)]
pub struct PropertyRegistry {
    pub entries: Vec<(String, PropertyKind)>,
}

impl View for PropertyRegistry {
    type V = Seq<(Seq<char>, PropertyKind)>;

    open spec fn view(&self) -> Seq<(Seq<char>, PropertyKind)> {
        self.entries@.map_values(|p: (String, PropertyKind)| (p.0@, p.1))
    }
}

/// Hosts register property grammars through this trait, one name at a
/// time, before evaluation starts.
pub trait RegisterProperty {
    /// Registered names are pairwise distinct.
    spec fn reg_wf(&self) -> bool;

    /// The registered (name, grammar) pairs, in registration order.
    spec fn reg_view(&self) -> Seq<(Seq<char>, PropertyKind)>;

    /// Register the grammar for a property name; registering a name again
    /// replaces its grammar, other names keep theirs.
    fn register_property(&mut self, name: String, kind: PropertyKind)
        requires
            old(self).reg_wf(),
        ensures
            final(self).reg_wf(),
            spec_prop_kind_lookup(final(self).reg_view(), name@) == Some(kind),
            forall|k: Seq<char>|
                k != name@ ==> spec_prop_kind_lookup(final(self).reg_view(), k)
                    == spec_prop_kind_lookup(old(self).reg_view(), k),
    ;
}

impl PropertyRegistry {
    /// Property names are pairwise distinct.
    pub open spec fn wf(self) -> bool {
        forall|a: int, b: int| 0 <= a < b < self@.len() ==> self@[a].0 != self@[b].0
    }

    /// An empty registry: no property resolves.
    pub fn new() -> (r: PropertyRegistry)
        ensures
            r@ == Seq::<(Seq<char>, PropertyKind)>::empty(),
            r.wf(),
    {
        let r = PropertyRegistry { entries: Vec::new() };
        proof {
            assert(r@ =~= Seq::<(Seq<char>, PropertyKind)>::empty());
        }
        r
    }

    /// The grammar registered for `name`, if any.
    pub fn lookup(&self, name: &String) -> (r: Option<PropertyKind>)
        requires
            self.wf(),
        ensures
            r == spec_prop_kind_lookup(self@, name@),
    {
        let mut j: usize = 0;
        while j < self.entries.len()
            invariant
                j <= self@.len(),
                self.wf(),
                forall|t: int| 0 <= t < j ==> self@[t].0 != name@,
            decreases self@.len() - j,
        {
            if self.entries[j].0 == *name {
                proof {
                    let ghost m = self@;
                    assert(m[j as int].0 == name@);
                    assert forall|k: int| 0 <= k < m.len() && m[k].0 == name@ implies k
                        == j as int by {
                        if k < j as int {
                            assert(m[k].0 != name@);
                        } else if k > j as int {
                            assert(m[j as int].0 != m[k].0);
                        }
                    }
                    let w = choose|t: int| 0 <= t < m.len() && m[t].0 == name@;
                    assert(w == j as int);
                }
                return Some(self.entries[j].1);
            }
            j += 1;
        }
        proof {
            assert(!(exists|t: int| 0 <= t < self@.len() && self@[t].0 == name@));
        }
        None
    }
}

impl RegisterProperty for PropertyRegistry {
    open spec fn reg_wf(&self) -> bool {
        self.wf()
    }

    open spec fn reg_view(&self) -> Seq<(Seq<char>, PropertyKind)> {
        self@
    }

    /// Register the grammar for a property name; the last registration of
    /// a name wins, other names keep their grammars.
    fn register_property(&mut self, name: String, kind: PropertyKind) {
        let ghost m = self@;
        let mut j: usize = 0;
        while j < self.entries.len()
            invariant
                j <= self@.len(),
                self@ == m,
                m == old(self)@,
                self.wf(),
                forall|t: int| 0 <= t < j ==> self@[t].0 != name@,
            decreases self@.len() - j,
        {
            if self.entries[j].0 == name {
                proof {
                    assert(m[j as int].0 == name@);
                    assert forall|k: int| 0 <= k < m.len() && m[k].0 == name@ implies k
                        == j as int by {
                        if k < j as int {
                            assert(m[k].0 != name@);
                        } else if k > j as int {
                            assert(m[j as int].0 != m[k].0);
                        }
                    }
                }
                self.entries.set(j, (name, kind));
                proof {
                    assert(self@ =~= m.update(j as int, (name@, kind)));
                    lemma_prop_kind_lookup_update(m, j as int, name@, kind);
                }
                return ;
            }
            j += 1;
        }
        self.entries.push((name, kind));
        proof {
            assert(self@ =~= m.push((name@, kind)));
            assert(!(exists|t: int| 0 <= t < m.len() && m[t].0 == name@));
            lemma_prop_kind_lookup_push(m, name@, kind);
        }
    }
}

proof fn lemma_prop_kind_lookup_update(
    m: Seq<(Seq<char>, PropertyKind)>,
    j: int,
    name: Seq<char>,
    kind: PropertyKind,
)
    requires
        0 <= j < m.len(),
        m[j].0 == name,
        forall|a: int, b: int| 0 <= a < b < m.len() ==> m[a].0 != m[b].0,
    ensures
        spec_prop_kind_lookup(m.update(j, (name, kind)), name) == Some(kind),
        forall|k: Seq<char>|
            k != name ==> spec_prop_kind_lookup(m.update(j, (name, kind)), k)
                == spec_prop_kind_lookup(m, k),
{
    let m2 = m.update(j, (name, kind));
    assert(m2[j].0 == name);
    assert forall|k: int| 0 <= k < m2.len() && m2[k].0 == name implies k == j by {
        if k != j {
            assert(m[k].0 == name);
            if k < j {
                assert(m[k].0 != m[j].0);
            } else {
                assert(m[j].0 != m[k].0);
            }
        }
    }
    assert forall|k: Seq<char>| k != name implies spec_prop_kind_lookup(m2, k)
        == spec_prop_kind_lookup(m, k) by {
        assert forall|t: int| 0 <= t < m.len() && t != j implies m2[t] == m[t] by {}
        if exists|t: int| 0 <= t < m.len() && m[t].0 == k {
            let t = choose|t: int| 0 <= t < m.len() && m[t].0 == k;
            assert(t != j);
            assert(m2[t].0 == k);
            let t2 = choose|t: int| 0 <= t < m2.len() && m2[t].0 == k;
            assert(t2 != j);
            assert(m[t2].0 == k);
            if t < t2 {
                assert(m[t].0 != m[t2].0);
            } else if t2 < t {
                assert(m[t2].0 != m[t].0);
            }
        } else {
            assert forall|t: int| 0 <= t < m2.len() implies m2[t].0 != k by {
                if t != j {
                    assert(m2[t] == m[t]);
                }
            }
        }
    }
}

proof fn lemma_prop_kind_lookup_push(
    m: Seq<(Seq<char>, PropertyKind)>,
    name: Seq<char>,
    kind: PropertyKind,
)
    requires
        !(exists|t: int| 0 <= t < m.len() && m[t].0 == name),
        forall|a: int, b: int| 0 <= a < b < m.len() ==> m[a].0 != m[b].0,
    ensures
        spec_prop_kind_lookup(m.push((name, kind)), name) == Some(kind),
        forall|k: Seq<char>|
            k != name ==> spec_prop_kind_lookup(m.push((name, kind)), k) == spec_prop_kind_lookup(
                m,
                k,
            ),
{
    let m2 = m.push((name, kind));
    let j = m.len() as int;
    assert(m2[j].0 == name);
    assert forall|k: int| 0 <= k < m2.len() && m2[k].0 == name implies k == j by {
        if k < j {
            assert(m2[k] == m[k]);
        }
    }
    assert forall|k: Seq<char>| k != name implies spec_prop_kind_lookup(m2, k)
        == spec_prop_kind_lookup(m, k) by {
        if exists|t: int| 0 <= t < m.len() && m[t].0 == k {
            let t = choose|t: int| 0 <= t < m.len() && m[t].0 == k;
            assert(m2[t].0 == k);
            assert forall|u: int| 0 <= u < m2.len() && m2[u].0 == k implies u == t by {
                if u < j {
                    assert(m2[u] == m[u]);
                    if u < t {
                        assert(m[u].0 != m[t].0);
                    } else if t < u {
                        assert(m[t].0 != m[u].0);
                    }
                }
            }
            assert forall|u: int| 0 <= u < m.len() && m[u].0 == k implies u == t by {
                if u < t {
                    assert(m[u].0 != m[t].0);
                } else if t < u {
                    assert(m[t].0 != m[u].0);
                }
            }
            let t2 = choose|u: int| 0 <= u < m2.len() && m2[u].0 == k;
            let t1 = choose|u: int| 0 <= u < m.len() && m[u].0 == k;
            assert(t2 == t);
            assert(t1 == t);
            assert(m2[t] == m[t]);
        } else {
            assert forall|t: int| 0 <= t < m2.len() implies m2[t].0 != k by {
                if t < j {
                    assert(m2[t] == m[t]);
                }
            }
        }
    }
}

} // verus!
