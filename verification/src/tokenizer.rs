//! The tokenizer: stylesheet text to a flat stream of lexical tokens.
//!
//! Tokenization is total: it is defined for every input, consumes at least
//! one character per token, and never fails — a character that starts no
//! recognized token becomes a [`Token::Delimiter`].  The spec functions in
//! this module give the exact token stream for any text; [`tokenize`] is
//! proved to produce it.

use vstd::prelude::*;
use vstd::string::*;

use crate::num::Num;
use crate::tokens::{token_models, Token, TokenModel};

verus! {

// --- character classes ---

pub open spec fn is_space_char(c: char) -> bool {
    c == ' ' || c == '\t' || c == '\n' || c == '\r'
}

fn is_space(c: char) -> (r: bool)
    ensures
        r == is_space_char(c),
{
    c == ' ' || c == '\t' || c == '\n' || c == '\r'
}

pub open spec fn is_digit_char(c: char) -> bool {
    ('0' as u32) <= (c as u32) && (c as u32) <= ('9' as u32)
}

fn is_digit(c: char) -> (r: bool)
    ensures
        r == is_digit_char(c),
{
    ('0' as u32) <= (c as u32) && (c as u32) <= ('9' as u32)
}

pub open spec fn is_ident_start_char(c: char) -> bool {
    (('a' as u32) <= (c as u32) && (c as u32) <= ('z' as u32)) || (('A' as u32) <= (c as u32)
        && (c as u32) <= ('Z' as u32)) || c == '_'
}

fn is_ident_start(c: char) -> (r: bool)
    ensures
        r == is_ident_start_char(c),
{
    (('a' as u32) <= (c as u32) && (c as u32) <= ('z' as u32)) || (('A' as u32) <= (c as u32)
        && (c as u32) <= ('Z' as u32)) || c == '_'
}

pub open spec fn is_ident_char(c: char) -> bool {
    is_ident_start_char(c) || is_digit_char(c) || c == '-'
}

fn is_ident(c: char) -> (r: bool)
    ensures
        r == is_ident_char(c),
{
    is_ident_start(c) || is_digit(c) || c == '-'
}

/// The numeric value of a decimal digit character.
pub open spec fn digit_val(c: char) -> u64
    recommends
        is_digit_char(c),
{
    ((c as u32) - ('0' as u32)) as u64
}

fn digit_of(c: char) -> (r: u64)
    requires
        is_digit_char(c),
    ensures
        r == digit_val(c),
{
    ((c as u32) - ('0' as u32)) as u64
}

// --- scanning to the end of a character run ---

/// First index at or after `i` holding no whitespace character.
pub open spec fn spec_ws_end(s: Seq<char>, i: int) -> int
    decreases s.len() - i,
{
    if 0 <= i < s.len() && is_space_char(s[i]) {
        spec_ws_end(s, i + 1)
    } else {
        i
    }
}

fn ws_end(s: &Vec<char>, i: usize) -> (r: usize)
    requires
        i <= s.len(),
    ensures
        r as int == spec_ws_end(s@, i as int),
        i <= r <= s.len(),
    decreases s.len() - i,
{
    if i < s.len() && is_space(s[i]) {
        ws_end(s, i + 1)
    } else {
        i
    }
}

/// First index at or after `i` holding no identifier character.
pub open spec fn spec_ident_end(s: Seq<char>, i: int) -> int
    decreases s.len() - i,
{
    if 0 <= i < s.len() && is_ident_char(s[i]) {
        spec_ident_end(s, i + 1)
    } else {
        i
    }
}

fn ident_end(s: &Vec<char>, i: usize) -> (r: usize)
    requires
        i <= s.len(),
    ensures
        r as int == spec_ident_end(s@, i as int),
        i <= r <= s.len(),
    decreases s.len() - i,
{
    if i < s.len() && is_ident(s[i]) {
        ident_end(s, i + 1)
    } else {
        i
    }
}

/// First index at or after `i` holding no digit.
pub open spec fn spec_digits_end(s: Seq<char>, i: int) -> int
    decreases s.len() - i,
{
    if 0 <= i < s.len() && is_digit_char(s[i]) {
        spec_digits_end(s, i + 1)
    } else {
        i
    }
}

fn digits_end(s: &Vec<char>, i: usize) -> (r: usize)
    requires
        i <= s.len(),
    ensures
        r as int == spec_digits_end(s@, i as int),
        i <= r <= s.len(),
        forall|k: int| i <= k < r ==> is_digit_char(s@[k]),
    decreases s.len() - i,
{
    if i < s.len() && is_digit(s[i]) {
        digits_end(s, i + 1)
    } else {
        i
    }
}

// --- digit accumulation, saturating at u64::MAX ---

/// One step of reading a decimal number left to right: append digit `d`,
/// saturating at `u64::MAX`.
pub open spec fn sat_step(m: u64, d: u64) -> u64 {
    if m < u64::MAX / 10 || (m == u64::MAX / 10 && d <= u64::MAX % 10) {
        (m * 10 + d) as u64
    } else {
        u64::MAX
    }
}

fn sat_step_exec(m: u64, d: u64) -> (r: u64)
    requires
        d <= 9,
    ensures
        r == sat_step(m, d),
{
    if m < u64::MAX / 10 || (m == u64::MAX / 10 && d <= u64::MAX % 10) {
        m * 10 + d
    } else {
        u64::MAX
    }
}

/// The digits `s[i..j)` appended to `acc` left to right, saturating.
pub open spec fn spec_sat_acc(acc: u64, s: Seq<char>, i: int, j: int) -> u64
    decreases j - i,
{
    if i < j {
        spec_sat_acc(sat_step(acc, digit_val(s[i])), s, i + 1, j)
    } else {
        acc
    }
}

fn sat_digits(acc0: u64, s: &Vec<char>, i: usize, j: usize) -> (r: u64)
    requires
        i <= j <= s.len(),
        forall|k: int| i <= k < j ==> is_digit_char(s@[k]),
    ensures
        r == spec_sat_acc(acc0, s@, i as int, j as int),
{
    let mut acc = acc0;
    let mut k = i;
    while k < j
        invariant
            i <= k <= j <= s.len(),
            forall|t: int| i <= t < j ==> is_digit_char(s@[t]),
            spec_sat_acc(acc0, s@, i as int, j as int) == spec_sat_acc(acc, s@, k as int, j as int),
        decreases j - k,
    {
        let d = digit_of(s[k]);
        acc = sat_step_exec(acc, d);
        k += 1;
    }
    acc
}

/// `10^k`.
pub open spec fn pow10(k: nat) -> int
    decreases k,
{
    if k == 0 {
        1
    } else {
        10 * pow10((k - 1) as nat)
    }
}

/// The exact base-10 value of the digits `s[i..j)`.
pub open spec fn spec_digits_val(s: Seq<char>, i: int, j: int) -> int
    decreases j - i,
{
    if i < j {
        10 * spec_digits_val(s, i, j - 1) + digit_val(s[j - 1])
    } else {
        0
    }
}

proof fn lemma_pow10_pos(k: nat)
    ensures
        pow10(k) >= 1,
    decreases k,
{
    if k > 0 {
        lemma_pow10_pos((k - 1) as nat);
    }
}

proof fn lemma_digits_val_nonneg(s: Seq<char>, i: int, j: int)
    requires
        forall|k: int| i <= k < j ==> is_digit_char(s[k]),
    ensures
        spec_digits_val(s, i, j) >= 0,
    decreases j - i,
{
    if i < j {
        lemma_digits_val_nonneg(s, i, j - 1);
    }
}

proof fn lemma_digits_val_split_first(s: Seq<char>, i: int, j: int)
    requires
        i < j,
    ensures
        spec_digits_val(s, i, j) == digit_val(s[i]) * pow10((j - i - 1) as nat) + spec_digits_val(
            s,
            i + 1,
            j,
        ),
    decreases j - i,
{
    if i + 1 == j {
        assert(spec_digits_val(s, i, i) == 0);
        assert(spec_digits_val(s, i, j) == digit_val(s[i]));
        assert(digit_val(s[i]) * pow10(0) == digit_val(s[i])) by (nonlinear_arith);
    } else {
        lemma_digits_val_split_first(s, i, j - 1);
        let d = digit_val(s[i]) as int;
        let p = pow10((j - i - 2) as nat);
        let rest = spec_digits_val(s, i + 1, j - 1);
        assert(spec_digits_val(s, i, j - 1) == d * p + rest);
        assert(10 * (d * p + rest) + digit_val(s[j - 1]) == d * (10 * p) + (10 * rest + digit_val(
            s[j - 1],
        ))) by (nonlinear_arith);
        assert(pow10((j - i - 1) as nat) == 10 * p);
    }
}

/// Law: as long as the true decimal value fits in a `u64`, the saturating
/// fold reads the digits exactly — so every numeric token of ordinary
/// size carries its exact mantissa.
pub proof fn lemma_sat_acc_exact(acc: u64, s: Seq<char>, i: int, j: int)
    requires
        i <= j,
        forall|k: int| i <= k < j ==> is_digit_char(s[k]),
        acc * pow10((j - i) as nat) + spec_digits_val(s, i, j) <= u64::MAX,
    ensures
        spec_sat_acc(acc, s, i, j) == acc * pow10((j - i) as nat) + spec_digits_val(s, i, j),
    decreases j - i,
{
    if i == j {
        assert(acc * pow10(0) == acc) by (nonlinear_arith);
    } else {
        let d = digit_val(s[i]);
        assert(0 <= d <= 9);
        lemma_digits_val_split_first(s, i, j);
        lemma_digits_val_nonneg(s, i + 1, j);
        lemma_pow10_pos((j - i - 1) as nat);
        let p = pow10((j - i - 1) as nat);
        let rest = spec_digits_val(s, i + 1, j);
        let total = acc * pow10((j - i) as nat) + spec_digits_val(s, i, j);
        assert(pow10((j - i) as nat) == 10 * p);
        assert(total == (10 * acc + d) * p + rest) by (nonlinear_arith)
            requires
                total == acc * (10 * p) + (d * p + rest),
        ;
        assert((10 * acc + d) <= (10 * acc + d) * p) by (nonlinear_arith)
            requires
                p >= 1,
                acc >= 0,
                d >= 0,
        ;
        assert(10 * acc + d <= u64::MAX);
        assert(sat_step(acc, d) == 10 * acc + d);
        lemma_sat_acc_exact((10 * acc + d) as u64, s, i + 1, j);
    }
}

// --- quoted strings ---

/// Scan the content of a quoted string from `i` up to the closing quote
/// `q`.  A backslash makes the following character literal; a missing
/// closing quote ends the string at the end of the text.  Returns the
/// unescaped content and the index just past the closing quote.
pub open spec fn spec_string_scan(s: Seq<char>, i: int, q: char) -> (Seq<char>, int)
    decreases s.len() - i,
{
    if i < 0 || i >= s.len() {
        (Seq::empty(), i)
    } else if s[i] == q {
        (Seq::empty(), i + 1)
    } else if s[i] == '\\' && i + 1 < s.len() {
        let r = spec_string_scan(s, i + 2, q);
        (seq![s[i + 1]] + r.0, r.1)
    } else {
        let r = spec_string_scan(s, i + 1, q);
        (seq![s[i]] + r.0, r.1)
    }
}

fn scan_string(s: &Vec<char>, i: usize, q: char) -> (r: (String, usize))
    requires
        i <= s.len(),
    ensures
        r.0@ == spec_string_scan(s@, i as int, q).0,
        r.1 as int == spec_string_scan(s@, i as int, q).1,
        i <= r.1 <= s.len(),
    decreases s.len() - i,
{
    if i >= s.len() {
        (String::new(), i)
    } else if s[i] == q {
        (String::new(), i + 1)
    } else if s[i] == '\\' && i + 1 < s.len() {
        let c = s[i + 1];
        let (rest, e) = scan_string(s, i + 2, q);
        let mut out = String::new();
        push_char(&mut out, c);
        out.append(rest.as_str());
        proof {
            assert(out@ =~= seq![c] + rest@);
        }
        (out, e)
    } else {
        let c = s[i];
        let (rest, e) = scan_string(s, i + 1, q);
        let mut out = String::new();
        push_char(&mut out, c);
        out.append(rest.as_str());
        proof {
            assert(out@ =~= seq![c] + rest@);
        }
        (out, e)
    }
}

// --- numbers ---

/// The token starting at the digit `s[i]`: integer digits, an optional
/// fraction, then an optional `%` (percentage) or unit identifier
/// (dimension, magnitude only).
pub open spec fn spec_number_token(s: Seq<char>, i: int) -> (TokenModel, int)
    recommends
        0 <= i < s.len(),
        is_digit_char(s[i]),
{
    let ie = spec_digits_end(s, i + 1);
    let frac = ie < s.len() && s[ie] == '.' && ie + 1 < s.len() && is_digit_char(s[ie + 1]);
    let fe = spec_digits_end(s, ie + 2);
    let m = if frac {
        spec_sat_acc(spec_sat_acc(0u64, s, i, ie), s, ie + 1, fe)
    } else {
        spec_sat_acc(0u64, s, i, ie)
    };
    let f = if frac {
        (fe - ie - 1) as u64
    } else {
        0u64
    };
    let e = if frac {
        fe
    } else {
        ie
    };
    let n = Num::spec_new(m, f);
    if e < s.len() && s[e] == '%' {
        (TokenModel::Percentage(n), e + 1)
    } else if e < s.len() && is_ident_start_char(s[e]) {
        (TokenModel::Dimension(n), spec_ident_end(s, e + 1))
    } else {
        (TokenModel::Number(n), e)
    }
}

fn number_token(s: &Vec<char>, i: usize) -> (r: (Token, usize))
    requires
        i < s.len(),
        is_digit_char(s@[i as int]),
    ensures
        r.0@ == spec_number_token(s@, i as int).0,
        r.1 as int == spec_number_token(s@, i as int).1,
        i < r.1 <= s.len(),
{
    let ie = digits_end(s, i + 1);
    let frac = ie < s.len() && s[ie] == '.' && ie + 1 < s.len() && is_digit(s[ie + 1]);
    let (m, f, e) = if frac {
        let fe = digits_end(s, ie + 2);
        let m0 = sat_digits(0, s, i, ie);
        let m1 = sat_digits(m0, s, ie + 1, fe);
        (m1, (fe - ie - 1) as u64, fe)
    } else {
        (sat_digits(0, s, i, ie), 0u64, ie)
    };
    let n = Num::new(m, f);
    if e < s.len() && s[e] == '%' {
        (Token::Percentage(n), e + 1)
    } else if e < s.len() && is_ident_start(s[e]) {
        let ue = ident_end(s, e + 1);
        (Token::Dimension(n), ue)
    } else {
        (Token::Number(n), e)
    }
}

// --- single tokens and the whole stream ---

/// The token starting at position `i` of the text, and the position just
/// past it.  Total: every character starts some token.
pub open spec fn spec_next_token(s: Seq<char>, i: int) -> (TokenModel, int)
    recommends
        0 <= i < s.len(),
{
    let c = s[i];
    if is_space_char(c) {
        (TokenModel::Whitespace, spec_ws_end(s, i + 1))
    } else if is_ident_start_char(c) {
        (TokenModel::Identifier(s.subrange(i, spec_ident_end(s, i + 1))), spec_ident_end(s, i + 1))
    } else if is_digit_char(c) {
        spec_number_token(s, i)
    } else if c == '#' {
        if i + 1 < s.len() && is_ident_char(s[i + 1]) {
            (TokenModel::Hash(s.subrange(i + 1, spec_ident_end(s, i + 1))), spec_ident_end(s, i + 1))
        } else {
            (TokenModel::Delimiter('#'), i + 1)
        }
    } else if c == '"' || c == '\'' {
        let r = spec_string_scan(s, i + 1, c);
        (TokenModel::Str(r.0), r.1)
    } else {
        (TokenModel::Delimiter(c), i + 1)
    }
}

fn chars_to_string(s: &Vec<char>, i: usize, j: usize) -> (r: String)
    requires
        i <= j <= s.len(),
    ensures
        r@ == s@.subrange(i as int, j as int),
{
    let mut out = String::new();
    let mut k = i;
    while k < j
        invariant
            i <= k <= j <= s.len(),
            out@ == s@.subrange(i as int, k as int),
        decreases j - k,
    {
        push_char(&mut out, s[k]);
        proof {
            assert(out@ =~= s@.subrange(i as int, k + 1 as int));
        }
        k += 1;
    }
    out
}

fn next_token(s: &Vec<char>, i: usize) -> (r: (Token, usize))
    requires
        i < s.len(),
    ensures
        r.0@ == spec_next_token(s@, i as int).0,
        r.1 as int == spec_next_token(s@, i as int).1,
        i < r.1 <= s.len(),
{
    let c = s[i];
    if is_space(c) {
        let j = ws_end(s, i + 1);
        (Token::Whitespace, j)
    } else if is_ident_start(c) {
        let j = ident_end(s, i + 1);
        (Token::Identifier(chars_to_string(s, i, j)), j)
    } else if is_digit(c) {
        number_token(s, i)
    } else if c == '#' {
        if i + 1 < s.len() && is_ident(s[i + 1]) {
            let j = ident_end(s, i + 1);
            (Token::Hash(chars_to_string(s, i + 1, j)), j)
        } else {
            (Token::Delimiter('#'), i + 1)
        }
    } else if c == '"' || c == '\'' {
        let (content, j) = scan_string(s, i + 1, c);
        (Token::Str(content), j)
    } else {
        (Token::Delimiter(c), i + 1)
    }
}

/// The token stream of `s` from position `i` on.
pub open spec fn spec_tokens_from(s: Seq<char>, i: int) -> Seq<TokenModel>
    decreases s.len() - i,
{
    if 0 <= i < s.len() {
        let r = spec_next_token(s, i);
        let nx = if i < r.1 <= s.len() {
            r.1
        } else {
            i + 1
        };
        seq![r.0] + spec_tokens_from(s, nx)
    } else {
        Seq::empty()
    }
}

/// The whole token stream of the text `s`.
pub open spec fn spec_tokenize(s: Seq<char>) -> Seq<TokenModel> {
    spec_tokens_from(s, 0)
}

/// Lex a whole text into its token stream.
pub fn tokenize(s: &Vec<char>) -> (r: Vec<Token>)
    ensures
        token_models(r@) == spec_tokenize(s@),
{
    let mut out: Vec<Token> = Vec::new();
    let mut i: usize = 0;
    proof {
        assert(token_models(out@) + spec_tokens_from(s@, 0) =~= spec_tokenize(s@));
    }
    while i < s.len()
        invariant
            i <= s.len(),
            token_models(out@) + spec_tokens_from(s@, i as int) == spec_tokenize(s@),
        decreases s.len() - i,
    {
        let ghost prev = i as int;
        let (t, j) = next_token(s, i);
        proof {
            assert(spec_tokens_from(s@, prev) == seq![t@] + spec_tokens_from(s@, j as int));
            assert(token_models(out@.push(t)) =~= token_models(out@) + seq![t@]);
            assert((token_models(out@) + seq![t@]) + spec_tokens_from(s@, j as int)
                =~= token_models(out@) + (seq![t@] + spec_tokens_from(s@, j as int)));
        }
        out.push(t);
        i = j;
    }
    proof {
        assert(spec_tokens_from(s@, i as int) =~= Seq::<TokenModel>::empty());
        assert(token_models(out@) + Seq::<TokenModel>::empty() =~= token_models(out@));
    }
    out
}

/// Relies on String::push: appends exactly one character at the end.
#[verifier::external_body]
fn push_char(s: &mut String, c: char)
    ensures
        final(s)@ == old(s)@ + seq![c],
{
    s.push(c);
}

/// The characters of a text, in order.
pub fn str_to_chars(text: &str) -> (r: Vec<char>)
    ensures
        r@ == text@,
{
    let n = text.unicode_len();
    let mut out: Vec<char> = Vec::new();
    let mut k: usize = 0;
    while k < n
        invariant
            k <= n,
            n == text@.len(),
            out@ == text@.subrange(0, k as int),
        decreases n - k,
    {
        let c = text.get_char(k);
        out.push(c);
        proof {
            assert(out@ =~= text@.subrange(0, k + 1 as int));
        }
        k += 1;
    }
    proof {
        assert(out@ =~= text@);
    }
    out
}

} // verus!
