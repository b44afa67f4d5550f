//! The rule parser: stylesheet text to an ordered list of style rules.
//!
//! The text splits into top-level blocks, each a selector prelude followed
//! by a braced declaration body.  Parsing is tolerant: a block whose
//! prelude is no valid selector is discarded alone, a malformed declaration
//! is skipped alone, and the rest of the sheet is always parsed.

use vstd::prelude::*;

use crate::property::{
    spec_props_insert, value_models, Properties, PropertyToken, PropertyTokenModel,
    PropertyValues, PropsModel,
};
use crate::selector::{spec_parse_selector, Selector, SelectorElementModel};
use crate::tokenizer::{spec_tokenize, str_to_chars, tokenize};
use crate::tokens::{token_models, Token, TokenModel};

verus! {

/// One style rule: a selector and the declarations of its body.
#[derive(Debug, Clone, PartialEq, Eq)]
pub struct StyleRule {
    pub selector: Selector,
    pub properties: Properties,
}

/// The mathematical shape of a [`StyleRule`].
pub struct RuleModel {
    pub selector: Seq<SelectorElementModel>,
    pub properties: PropsModel,
}

impl View for StyleRule {
    type V = RuleModel;

    open spec fn view(&self) -> RuleModel {
        RuleModel { selector: self.selector@, properties: self.properties@ }
    }
}

impl StyleRule {
    /// Property names of the rule are pairwise distinct.
    pub open spec fn wf(self) -> bool {
        self.properties.wf()
    }
}

/// The models of a rule sequence, in order.
pub open spec fn rule_models(rs: Seq<StyleRule>) -> Seq<RuleModel> {
    rs.map_values(|r: StyleRule| r@)
}

/// `x`, forced into `[lo, hi]`.  The scans below always stay in that range;
/// the clamp only makes termination of the spec functions structural.
pub open spec fn step_to(x: int, lo: int, hi: int) -> int {
    if x < lo {
        lo
    } else if x > hi {
        hi
    } else {
        x
    }
}

// --- token scans ---

/// First index at or after `i` whose token is no whitespace.
pub open spec fn spec_skip_ws(ts: Seq<TokenModel>, i: int, hi: int) -> int
    decreases hi - i,
{
    if 0 <= i < hi <= ts.len() && ts[i] == TokenModel::Whitespace {
        spec_skip_ws(ts, i + 1, hi)
    } else {
        i
    }
}

/// First index at or after `i` whose token is neither whitespace nor `;`.
pub open spec fn spec_skip_sep(ts: Seq<TokenModel>, i: int, hi: int) -> int
    decreases hi - i,
{
    if 0 <= i < hi <= ts.len() && (ts[i] == TokenModel::Whitespace || ts[i]
        == TokenModel::Delimiter(';')) {
        spec_skip_sep(ts, i + 1, hi)
    } else {
        i
    }
}

/// First index at or after `i` holding `;`, or `hi`.
pub open spec fn spec_find_semi(ts: Seq<TokenModel>, i: int, hi: int) -> int
    decreases hi - i,
{
    if 0 <= i < hi <= ts.len() {
        if ts[i] == TokenModel::Delimiter(';') {
            i
        } else {
            spec_find_semi(ts, i + 1, hi)
        }
    } else {
        i
    }
}

/// First index at or after `i` holding `{`, or `hi`.
pub open spec fn spec_find_open(ts: Seq<TokenModel>, i: int, hi: int) -> int
    decreases hi - i,
{
    if 0 <= i < hi <= ts.len() {
        if ts[i] == TokenModel::Delimiter('{') {
            i
        } else {
            spec_find_open(ts, i + 1, hi)
        }
    } else {
        i
    }
}

/// Index of the `}` closing the block open at depth `depth`, or `hi`.
/// Inner braces nest.
pub open spec fn spec_find_close(ts: Seq<TokenModel>, i: int, hi: int, depth: int) -> int
    decreases hi - i,
{
    if 0 <= i < hi <= ts.len() {
        if ts[i] == TokenModel::Delimiter('{') {
            spec_find_close(ts, i + 1, hi, depth + 1)
        } else if ts[i] == TokenModel::Delimiter('}') {
            if depth == 0 {
                i
            } else {
                spec_find_close(ts, i + 1, hi, depth - 1)
            }
        } else {
            spec_find_close(ts, i + 1, hi, depth)
        }
    } else {
        i
    }
}

/// The value tokens of `ts[i..hi)` appended to `acc`, in order; tokens
/// carrying no value (whitespace, delimiters) are dropped.
pub open spec fn spec_convert_values(
    ts: Seq<TokenModel>,
    i: int,
    hi: int,
    acc: Seq<PropertyTokenModel>,
) -> Seq<PropertyTokenModel>
    decreases hi - i,
{
    if 0 <= i < hi <= ts.len() {
        match crate::property::spec_prop_token(ts[i]) {
            Some(pt) => spec_convert_values(ts, i + 1, hi, acc.push(pt)),
            None => spec_convert_values(ts, i + 1, hi, acc),
        }
    } else {
        acc
    }
}

/// The declarations of the body tokens `ts[i..hi)`, folded over `acc`:
/// each well-shaped `name : values ;` segment is inserted (last declaration
/// of a name wins), each malformed segment is skipped up to the next `;`.
pub open spec fn spec_decls(ts: Seq<TokenModel>, i: int, hi: int, acc: PropsModel) -> PropsModel
    decreases hi - i,
{
    if !(0 <= i < hi <= ts.len()) {
        acc
    } else {
        let p = step_to(spec_skip_sep(ts, i, hi), i, hi);
        if p >= hi {
            acc
        } else {
            match ts[p] {
                TokenModel::Identifier(name) => {
                    let q = step_to(spec_skip_ws(ts, p + 1, hi), p + 1, hi);
                    if q < hi && ts[q] == TokenModel::Delimiter(':') {
                        let e = step_to(spec_find_semi(ts, q + 1, hi), q + 1, hi);
                        let vals = spec_convert_values(ts, q + 1, e, Seq::empty());
                        spec_decls(
                            ts,
                            step_to(e + 1, p + 1, hi),
                            hi,
                            spec_props_insert(acc, name, vals),
                        )
                    } else {
                        let e = step_to(spec_find_semi(ts, q, hi), q, hi);
                        spec_decls(ts, step_to(e + 1, p + 1, hi), hi, acc)
                    }
                },
                _ => {
                    let e = step_to(spec_find_semi(ts, p + 1, hi), p + 1, hi);
                    spec_decls(ts, step_to(e + 1, p + 1, hi), hi, acc)
                },
            }
        }
    }
}

/// The rules of the token stream `ts` from `i` on, appended to `acc`.
/// Each top-level block contributes one rule when its prelude is a valid
/// selector, and nothing otherwise.
pub open spec fn spec_rules(ts: Seq<TokenModel>, i: int, acc: Seq<RuleModel>) -> Seq<RuleModel>
    decreases ts.len() - i,
{
    let len = ts.len() as int;
    if !(0 <= i < len) {
        acc
    } else {
        let p = step_to(spec_skip_ws(ts, i, len), i, len);
        if p >= len {
            acc
        } else {
            let open = step_to(spec_find_open(ts, p, len), p, len);
            if open >= len {
                acc
            } else {
                let close = step_to(spec_find_close(ts, open + 1, len, 0), open + 1, len);
                let nx = if close < len {
                    close + 1
                } else {
                    len
                };
                match spec_parse_selector(ts, p, open) {
                    Ok(sel) => spec_rules(
                        ts,
                        nx,
                        acc.push(
                            RuleModel {
                                selector: sel,
                                properties: spec_decls(ts, open + 1, close, Seq::empty()),
                            },
                        ),
                    ),
                    Err(_) => spec_rules(ts, nx, acc),
                }
            }
        }
    }
}

/// The rule list denoted by a stylesheet text: tokenize, then split into
/// blocks and parse each.  Total and deterministic: every text denotes
/// exactly one rule list.
pub open spec fn spec_parse(s: Seq<char>) -> Seq<RuleModel> {
    spec_rules(spec_tokenize(s), 0, Seq::empty())
}

// --- executable scans ---

fn is_delim(t: &Token, c: char) -> (r: bool)
    ensures
        r == (t@ == TokenModel::Delimiter(c)),
{
    match t {
        Token::Delimiter(d) => *d == c,
        _ => false,
    }
}

fn is_ws_token(t: &Token) -> (r: bool)
    ensures
        r == (t@ == TokenModel::Whitespace),
{
    match t {
        Token::Whitespace => true,
        _ => false,
    }
}

fn skip_ws(toks: &Vec<Token>, i: usize, hi: usize) -> (r: usize)
    requires
        i <= hi <= toks@.len(),
    ensures
        r as int == spec_skip_ws(token_models(toks@), i as int, hi as int),
        i <= r <= hi,
    decreases hi - i,
{
    if i < hi && is_ws_token(&toks[i]) {
        skip_ws(toks, i + 1, hi)
    } else {
        i
    }
}

fn skip_sep(toks: &Vec<Token>, i: usize, hi: usize) -> (r: usize)
    requires
        i <= hi <= toks@.len(),
    ensures
        r as int == spec_skip_sep(token_models(toks@), i as int, hi as int),
        i <= r <= hi,
    decreases hi - i,
{
    if i < hi && (is_ws_token(&toks[i]) || is_delim(&toks[i], ';')) {
        skip_sep(toks, i + 1, hi)
    } else {
        i
    }
}

fn find_semi(toks: &Vec<Token>, i: usize, hi: usize) -> (r: usize)
    requires
        i <= hi <= toks@.len(),
    ensures
        r as int == spec_find_semi(token_models(toks@), i as int, hi as int),
        i <= r <= hi,
    decreases hi - i,
{
    if i < hi {
        if is_delim(&toks[i], ';') {
            i
        } else {
            find_semi(toks, i + 1, hi)
        }
    } else {
        i
    }
}

fn find_open(toks: &Vec<Token>, i: usize, hi: usize) -> (r: usize)
    requires
        i <= hi <= toks@.len(),
    ensures
        r as int == spec_find_open(token_models(toks@), i as int, hi as int),
        i <= r <= hi,
    decreases hi - i,
{
    if i < hi {
        if is_delim(&toks[i], '{') {
            i
        } else {
            find_open(toks, i + 1, hi)
        }
    } else {
        i
    }
}

fn find_close(toks: &Vec<Token>, i: usize, hi: usize, depth: usize) -> (r: usize)
    requires
        i <= hi <= toks@.len(),
        depth <= i,
    ensures
        r as int == spec_find_close(token_models(toks@), i as int, hi as int, depth as int),
        i <= r <= hi,
    decreases hi - i,
{
    if i < hi {
        if is_delim(&toks[i], '{') {
            find_close(toks, i + 1, hi, depth + 1)
        } else if is_delim(&toks[i], '}') {
            if depth == 0 {
                i
            } else {
                find_close(toks, i + 1, hi, depth - 1)
            }
        } else {
            find_close(toks, i + 1, hi, depth)
        }
    } else {
        i
    }
}

fn convert_values(toks: &Vec<Token>, lo: usize, hi: usize) -> (r: PropertyValues)
    requires
        lo <= hi <= toks@.len(),
    ensures
        r@ == spec_convert_values(
            token_models(toks@),
            lo as int,
            hi as int,
            Seq::<PropertyTokenModel>::empty(),
        ),
{
    let ghost tm = token_models(toks@);
    let mut out: Vec<PropertyToken> = Vec::new();
    let mut i = lo;
    proof {
        assert(value_models(out@) =~= Seq::<PropertyTokenModel>::empty());
    }
    while i < hi
        invariant
            lo <= i <= hi <= toks@.len(),
            tm == token_models(toks@),
            spec_convert_values(tm, lo as int, hi as int, Seq::<PropertyTokenModel>::empty())
                == spec_convert_values(tm, i as int, hi as int, value_models(out@)),
        decreases hi - i,
    {
        let ghost before = value_models(out@);
        match PropertyToken::try_from_token(&toks[i]) {
            Some(pt) => {
                proof {
                    assert(value_models(out@.push(pt)) =~= before.push(pt@));
                }
                out.push(pt);
            },
            None => {},
        }
        i += 1;
    }
    PropertyValues(out)
}

fn parse_declarations(toks: &Vec<Token>, lo: usize, hi: usize) -> (r: Properties)
    requires
        lo <= hi <= toks@.len(),
    ensures
        r@ == spec_decls(
            token_models(toks@),
            lo as int,
            hi as int,
            Seq::<(Seq<char>, Seq<PropertyTokenModel>)>::empty(),
        ),
        r.wf(),
{
    let ghost tm = token_models(toks@);
    let mut props = Properties::new();
    let mut i = lo;
    while i < hi
        invariant
            lo <= i <= hi <= toks@.len(),
            tm == token_models(toks@),
            props.wf(),
            spec_decls(tm, lo as int, hi as int, Seq::<(Seq<char>, Seq<PropertyTokenModel>)>::empty())
                == spec_decls(tm, i as int, hi as int, props@),
        decreases hi - i,
    {
        let p = skip_sep(toks, i, hi);
        if p >= hi {
            i = p;
        } else {
            let nx: usize;
            match &toks[p] {
                Token::Identifier(name) => {
                    let q = skip_ws(toks, p + 1, hi);
                    if q < hi && is_delim(&toks[q], ':') {
                        let e = find_semi(toks, q + 1, hi);
                        let vals = convert_values(toks, q + 1, e);
                        props.insert(name.clone(), vals);
                        nx = if e < hi {
                            e + 1
                        } else {
                            hi
                        };
                    } else {
                        let e = find_semi(toks, q, hi);
                        nx = if e < hi {
                            e + 1
                        } else {
                            hi
                        };
                    }
                },
                _ => {
                    let e = find_semi(toks, p + 1, hi);
                    nx = if e < hi {
                        e + 1
                    } else {
                        hi
                    };
                },
            }
            i = nx;
        }
    }
    props
}

/// The stylesheet parser: text in, ordered rule list out.
pub struct StyleSheetParser;

impl StyleSheetParser {
    /// Parse a whole stylesheet text.  Never fails: blocks with invalid
    /// preludes and malformed declarations are dropped locally and the
    /// rest is kept, so the result is exactly [`spec_parse`] of the text.
    pub fn parse(content: &str) -> (r: Vec<StyleRule>)
        ensures
            rule_models(r@) == spec_parse(content@),
            forall|j: int| 0 <= j < r@.len() ==> (#[trigger] r@[j]).wf(),
    {
        let chars = str_to_chars(content);
        let toks = tokenize(&chars);
        let ghost tm = token_models(toks@);
        let mut out: Vec<StyleRule> = Vec::new();
        let mut i: usize = 0;
        proof {
            assert(rule_models(out@) =~= Seq::<RuleModel>::empty());
        }
        let len = toks.len();
        while i < len
            invariant
                i <= len,
                len == toks@.len(),
                tm == token_models(toks@),
                tm == spec_tokenize(content@),
                forall|j: int| 0 <= j < out@.len() ==> (#[trigger] out@[j]).wf(),
                spec_rules(tm, 0, Seq::<RuleModel>::empty()) == spec_rules(
                    tm,
                    i as int,
                    rule_models(out@),
                ),
            decreases len - i,
        {
            let p = skip_ws(&toks, i, len);
            proof {
                assert(step_to(spec_skip_ws(tm, i as int, len as int), i as int, len as int)
                    == p as int);
            }
            if p >= len {
                proof {
                    assert(spec_rules(tm, i as int, rule_models(out@)) == rule_models(out@));
                }
                i = p;
            } else {
                let open = find_open(&toks, p, len);
                proof {
                    assert(step_to(spec_find_open(tm, p as int, len as int), p as int, len as int)
                        == open as int);
                }
                if open >= len {
                    proof {
                        assert(spec_rules(tm, i as int, rule_models(out@)) == rule_models(out@));
                    }
                    i = len;
                } else {
                    let close = find_close(&toks, open + 1, len, 0);
                    proof {
                        assert(step_to(
                            spec_find_close(tm, open + 1 as int, len as int, 0),
                            open + 1 as int,
                            len as int,
                        ) == close as int);
                    }
                    let nx = if close < len {
                        close + 1
                    } else {
                        len
                    };
                    match crate::selector::parse_selector_range(&toks, p, open) {
                        Ok(sel) => {
                            let body_props = parse_declarations(&toks, open + 1, close);
                            let rule = StyleRule { selector: sel, properties: body_props };
                            proof {
                                assert(rule_models(out@.push(rule)) =~= rule_models(out@).push(
                                    rule@,
                                ));
                            }
                            out.push(rule);
                        },
                        Err(_) => {},
                    }
                    i = nx;
                }
            }
        }
        out
    }
}

} // verus!
