//! The surface grammar, as a parser over the characters of the source.
//!
//! The grammar is a parsing expression grammar: alternatives are tried in
//! order and the first that succeeds is taken; repetitions are greedy and a
//! separated list may end with a trailing separator. Whitespace and `//`
//! line comments may stand between any two tokens.
//!
//! Each `sp_*` spec function states what one rule of the grammar reads at a
//! position: the model of the syntax it builds and the position after it,
//! or `None` when the rule does not match there. The executable parser
//! returns exactly that.

use vstd::prelude::*;

use crate::frontend::ast::{
    arg_view, args_view, arm_view, arms_view, block_view, expr_fields_view, expr_view, exprs_view, function_view,
    functions_view, item_view, items_view, let_view, lets_view, opt_expr_view, opt_pattern_view, opt_str,
    opt_type_view, param_view, params_view, pattern_fields_view, pattern_view, patterns_view, sig_view, sigs_view,
    strs, type_def_view, type_fields_view, type_view, types_view, Arg, ArgV, ArmV, BinaryOp, Block, BlockV, Expr,
    ExprV, Field, FunctionDef, FunctionDefV, FunctionSig, FunctionSigV, GlobalDef, ImplBlock, Item, ItemV, LetStmt,
    LetV, MatchArm, Module, Param, ParamV, Pattern, PatternV, TraitDef, TypeDef, TypeDefV, TypeExpr, TypeV, ValueFlow,
};
use crate::frontend::diagnostic::{Diagnostic, SourceSpan};

verus! {

// ---------------------------------------------------------------------------
// Characters and tokens
// ---------------------------------------------------------------------------

/// The characters with the Unicode `White_Space` property.
pub open spec fn is_ws(c: char) -> bool {
    ||| c == '\t' || c == '\n' || c == '\u{0B}' || c == '\u{0C}' || c == '\r' || c == ' '
    ||| c == '\u{85}' || c == '\u{A0}' || c == '\u{1680}'
    ||| ('\u{2000}' <= c && c <= '\u{200A}')
    ||| c == '\u{2028}' || c == '\u{2029}' || c == '\u{202F}' || c == '\u{205F}' || c == '\u{3000}'
}

pub open spec fn is_ident_start(c: char) -> bool {
    ('a' <= c && c <= 'z') || ('A' <= c && c <= 'Z') || c == '_'
}

pub open spec fn is_digit(c: char) -> bool {
    '0' <= c && c <= '9'
}

pub open spec fn is_ident_char(c: char) -> bool {
    is_ident_start(c) || is_digit(c)
}

/// The end of the line comment body starting at `p`.
pub open spec fn line_end(s: Seq<char>, p: int) -> int
    decreases s.len() - p,
{
    if p < 0 || p >= s.len() || s[p] == '\n' {
        p
    } else {
        line_end(s, p + 1)
    }
}

/// The position after the whitespace and line comments at `p`.
pub open spec fn pad(s: Seq<char>, p: int) -> int
    decreases s.len() - p,
{
    if p < 0 || p >= s.len() {
        p
    } else if is_ws(s[p]) {
        pad(s, p + 1)
    } else if p + 1 < s.len() && s[p] == '/' && s[p + 1] == '/' {
        let q = line_end(s, p + 2);
        if p < q <= s.len() {
            pad(s, q)
        } else {
            p
        }
    } else {
        p
    }
}

/// The end of the run of identifier characters at `p`.
pub open spec fn ident_run(s: Seq<char>, p: int) -> int
    decreases s.len() - p,
{
    if 0 <= p < s.len() && is_ident_char(s[p]) {
        ident_run(s, p + 1)
    } else {
        p
    }
}

/// The end of the run of digits at `p`.
pub open spec fn digit_run(s: Seq<char>, p: int) -> int
    decreases s.len() - p,
{
    if 0 <= p < s.len() && is_digit(s[p]) {
        digit_run(s, p + 1)
    } else {
        p
    }
}

/// The first `"` at or after `p`, or the end.
pub open spec fn quote_run(s: Seq<char>, p: int) -> int
    decreases s.len() - p,
{
    if 0 <= p < s.len() && s[p] != '"' {
        quote_run(s, p + 1)
    } else {
        p
    }
}

/// The decimal value of the digits `s[from..to]`.
pub open spec fn digits_value(s: Seq<char>, from: int, to: int) -> int
    decreases to - from,
{
    if to <= from {
        0
    } else {
        digits_value(s, from, to - 1) * 10 + (s[to - 1] as int - '0' as int)
    }
}

/// An identifier: a letter or `_`, then letters, digits and `_`.
pub open spec fn sp_ident(s: Seq<char>, p: int) -> Option<(Seq<char>, int)> {
    let q = pad(s, p);
    if 0 <= q < s.len() && is_ident_start(s[q]) {
        let r = ident_run(s, q);
        Some((s.subrange(q, r), pad(s, r)))
    } else {
        None
    }
}

/// A keyword: an identifier that is exactly `w`.
pub open spec fn sp_keyword(s: Seq<char>, p: int, w: Seq<char>) -> Option<int> {
    match sp_ident(s, p) {
        Some((name, q)) => if name == w {
            Some(q)
        } else {
            None
        },
        None => None,
    }
}

/// One punctuation character.
pub open spec fn sp_sym(s: Seq<char>, p: int, c: char) -> Option<int> {
    let q = pad(s, p);
    if 0 <= q < s.len() && s[q] == c {
        Some(pad(s, q + 1))
    } else {
        None
    }
}

/// A punctuation sequence.
pub open spec fn sp_op(s: Seq<char>, p: int, tok: Seq<char>) -> Option<int> {
    let q = pad(s, p);
    if 0 <= q && q + tok.len() <= s.len() && s.subrange(q, q + tok.len()) == tok {
        Some(pad(s, q + tok.len()))
    } else {
        None
    }
}

/// An integer literal: `0`, or a nonzero digit then digits, that fits in
/// 128 bits.
pub open spec fn sp_int(s: Seq<char>, p: int) -> Option<(u128, int)> {
    let q = pad(s, p);
    if 0 <= q < s.len() && is_digit(s[q]) {
        let r = if s[q] == '0' {
            q + 1
        } else {
            digit_run(s, q + 1)
        };
        let v = digits_value(s, q, r);
        if v <= u128::MAX {
            Some((v as u128, pad(s, r)))
        } else {
            None
        }
    } else {
        None
    }
}

/// A string literal: any characters but `"` between two `"`.
pub open spec fn sp_string(s: Seq<char>, p: int) -> Option<(Seq<char>, int)> {
    let q = pad(s, p);
    if 0 <= q < s.len() && s[q] == '"' {
        let r = quote_run(s, q + 1);
        if r < s.len() {
            Some((s.subrange(q + 1, r), pad(s, r + 1)))
        } else {
            None
        }
    } else {
        None
    }
}

pub open spec fn kw_mut() -> Seq<char> {
    seq!['m', 'u', 't']
}

pub open spec fn kw_take() -> Seq<char> {
    seq!['t', 'a', 'k', 'e']
}

/// A value-flow marker: `mut` or `!` for changed, `take` or `@` for
/// consumed, nothing for unchanged.
pub open spec fn sp_flow(s: Seq<char>, p: int) -> (ValueFlow, int) {
    match sp_keyword(s, p, kw_mut()) {
        Some(q) => (ValueFlow::ReturnedChanged, q),
        None => match sp_keyword(s, p, kw_take()) {
            Some(q) => (ValueFlow::NotReturned, q),
            None => match sp_sym(s, p, '!') {
                Some(q) => (ValueFlow::ReturnedChanged, q),
                None => match sp_sym(s, p, '@') {
                    Some(q) => (ValueFlow::NotReturned, q),
                    None => (ValueFlow::ReturnedUnchanged, p),
                },
            },
        },
    }
}

// ---------------------------------------------------------------------------
// Lexical facts
// ---------------------------------------------------------------------------

pub proof fn lemma_line_end(s: Seq<char>, p: int)
    requires
        0 <= p,
    ensures
        p <= line_end(s, p),
        line_end(s, p) <= s.len() || line_end(s, p) == p,
    decreases s.len() - p,
{
    if !(p >= s.len() || s[p] == '\n') {
        lemma_line_end(s, p + 1);
    }
}

pub proof fn lemma_pad(s: Seq<char>, p: int)
    requires
        0 <= p,
    ensures
        p <= pad(s, p),
        p <= s.len() ==> pad(s, p) <= s.len(),
    decreases s.len() - p,
{
    if p < s.len() {
        if is_ws(s[p]) {
            lemma_pad(s, p + 1);
        } else if p + 1 < s.len() && s[p] == '/' && s[p + 1] == '/' {
            lemma_line_end(s, p + 2);
            let q = line_end(s, p + 2);
            if p < q <= s.len() {
                lemma_pad(s, q);
            }
        }
    }
}

pub proof fn lemma_ident_run(s: Seq<char>, p: int)
    requires
        0 <= p <= s.len(),
    ensures
        p <= ident_run(s, p) <= s.len(),
    decreases s.len() - p,
{
    if p < s.len() && is_ident_char(s[p]) {
        lemma_ident_run(s, p + 1);
    }
}

pub proof fn lemma_digit_run(s: Seq<char>, p: int)
    requires
        0 <= p <= s.len(),
    ensures
        p <= digit_run(s, p) <= s.len(),
        forall|k: int| p <= k < digit_run(s, p) ==> is_digit(#[trigger] s[k]),
    decreases s.len() - p,
{
    if p < s.len() && is_digit(s[p]) {
        lemma_digit_run(s, p + 1);
    }
}

pub proof fn lemma_quote_run(s: Seq<char>, p: int)
    requires
        0 <= p <= s.len(),
    ensures
        p <= quote_run(s, p) <= s.len(),
    decreases s.len() - p,
{
    if p < s.len() && s[p] != '"' {
        lemma_quote_run(s, p + 1);
    }
}

// ---------------------------------------------------------------------------
// Characters and tokens, executed
// ---------------------------------------------------------------------------

/// `String::push` appends one character at the end of the string, as its
/// documentation states.
pub assume_specification[ std::string::String::push ](s: &mut std::string::String, ch: char)
    ensures
        final(s)@ == old(s)@.push(ch),
;

/// An executable position, as a spec position.
pub open spec fn opt_pos(r: Option<usize>) -> Option<int> {
    match r {
        Some(q) => Some(q as int),
        None => None,
    }
}

fn char_is_ws(c: char) -> (r: bool)
    ensures
        r == is_ws(c),
{
    c == '\t' || c == '\n' || c == '\u{0B}' || c == '\u{0C}' || c == '\r' || c == ' ' || c == '\u{85}' || c
        == '\u{A0}' || c == '\u{1680}' || ('\u{2000}' <= c && c <= '\u{200A}') || c == '\u{2028}' || c
        == '\u{2029}' || c == '\u{202F}' || c == '\u{205F}' || c == '\u{3000}'
}

fn char_is_ident_start(c: char) -> (r: bool)
    ensures
        r == is_ident_start(c),
{
    ('a' <= c && c <= 'z') || ('A' <= c && c <= 'Z') || c == '_'
}

fn char_is_digit(c: char) -> (r: bool)
    ensures
        r == is_digit(c),
{
    '0' <= c && c <= '9'
}

fn char_is_ident_char(c: char) -> (r: bool)
    ensures
        r == is_ident_char(c),
{
    char_is_ident_start(c) || char_is_digit(c)
}

fn skip_pad(s: &Vec<char>, p: usize) -> (r: usize)
    requires
        p <= s@.len(),
    ensures
        r == pad(s@, p as int),
        p <= r <= s@.len(),
{
    let mut q = p;
    while q < s.len()
        invariant
            p <= q <= s@.len(),
            pad(s@, p as int) == pad(s@, q as int),
        decreases s@.len() - q,
    {
        if char_is_ws(s[q]) {
            q = q + 1;
        } else if q + 1 < s.len() && s[q] == '/' && s[q + 1] == '/' {
            let mut e = q + 2;
            while e < s.len() && s[e] != '\n'
                invariant
                    q + 2 <= e <= s@.len(),
                    line_end(s@, q + 2) == line_end(s@, e as int),
                decreases s@.len() - e,
            {
                e = e + 1;
            }
            q = e;
        } else {
            return q;
        }
    }
    q
}

fn skip_ident(s: &Vec<char>, p: usize) -> (r: usize)
    requires
        p <= s@.len(),
    ensures
        r == ident_run(s@, p as int),
        p <= r <= s@.len(),
{
    let mut q = p;
    while q < s.len() && char_is_ident_char(s[q])
        invariant
            p <= q <= s@.len(),
            ident_run(s@, p as int) == ident_run(s@, q as int),
        decreases s@.len() - q,
    {
        q = q + 1;
    }
    q
}

fn substring(s: &Vec<char>, from: usize, to: usize) -> (r: String)
    requires
        from <= to <= s@.len(),
    ensures
        r@ == s@.subrange(from as int, to as int),
{
    let mut r = String::new();
    let mut i = from;
    while i < to
        invariant
            from <= i <= to <= s@.len(),
            r@ == s@.subrange(from as int, i as int),
        decreases to - i,
    {
        r.push(s[i]);
        proof {
            assert(s@.subrange(from as int, i + 1) =~= s@.subrange(from as int, i as int).push(s@[i as int]));
        }
        i = i + 1;
    }
    r
}

fn parse_ident(s: &Vec<char>, p: usize) -> (r: Option<(String, usize)>)
    requires
        p <= s@.len(),
    ensures
        match sp_ident(s@, p as int) {
            Some((name, q)) => r matches Some((n, q2)) && n@ == name && q2 == q,
            None => r is None,
        },
        r matches Some((_, q)) ==> p < q <= s@.len(),
{
    let q = skip_pad(s, p);
    if q < s.len() && char_is_ident_start(s[q]) {
        let r = skip_ident(s, q);
        proof {
            lemma_ident_run(s@, q + 1);
        }
        let name = substring(s, q, r);
        let e = skip_pad(s, r);
        Some((name, e))
    } else {
        None
    }
}

fn same_word(s: &Vec<char>, from: usize, to: usize, w: &Vec<char>) -> (b: bool)
    requires
        from <= to <= s@.len(),
    ensures
        b == (s@.subrange(from as int, to as int) == w@),
{
    if to - from != w.len() {
        assert(s@.subrange(from as int, to as int).len() != w@.len());
        return false;
    }
    let mut i: usize = 0;
    while i < w.len()
        invariant
            0 <= i <= w@.len() == to - from,
            from <= to <= s@.len(),
            forall|k: int| 0 <= k < i ==> s@[from + k] == w@[k],
        decreases w@.len() - i,
    {
        if s[from + i] != w[i] {
            assert(s@.subrange(from as int, to as int)[i as int] != w@[i as int]);
            return false;
        }
        i = i + 1;
    }
    assert(s@.subrange(from as int, to as int) =~= w@);
    true
}

fn parse_keyword(s: &Vec<char>, p: usize, w: &Vec<char>) -> (r: Option<usize>)
    requires
        p <= s@.len(),
    ensures
        opt_pos(r) == sp_keyword(s@, p as int, w@),
        r matches Some(q) ==> p < q <= s@.len(),
{
    let q = skip_pad(s, p);
    if q < s.len() && char_is_ident_start(s[q]) {
        let e = skip_ident(s, q);
        proof {
            lemma_ident_run(s@, q + 1);
        }
        if same_word(s, q, e, w) {
            Some(skip_pad(s, e))
        } else {
            None
        }
    } else {
        None
    }
}

fn parse_sym(s: &Vec<char>, p: usize, c: char) -> (r: Option<usize>)
    requires
        p <= s@.len(),
    ensures
        opt_pos(r) == sp_sym(s@, p as int, c),
        r matches Some(q) ==> p < q <= s@.len(),
{
    let q = skip_pad(s, p);
    if q < s.len() && s[q] == c {
        Some(skip_pad(s, q + 1))
    } else {
        None
    }
}

fn parse_op(s: &Vec<char>, p: usize, tok: &Vec<char>) -> (r: Option<usize>)
    requires
        p <= s@.len(),
        tok@.len() > 0,
    ensures
        opt_pos(r) == sp_op(s@, p as int, tok@),
        r matches Some(q) ==> p < q <= s@.len(),
{
    let q = skip_pad(s, p);
    if tok.len() <= s.len() - q && same_word(s, q, q + tok.len(), tok) {
        Some(skip_pad(s, q + tok.len()))
    } else {
        None
    }
}

fn parse_int(s: &Vec<char>, p: usize) -> (r: Option<(u128, usize)>)
    requires
        p <= s@.len(),
    ensures
        match sp_int(s@, p as int) {
            Some((v, q)) => r matches Some((x, q2)) && x == v && q2 == q,
            None => r is None,
        },
        r matches Some((_, q)) ==> p < q <= s@.len(),
{
    let q = skip_pad(s, p);
    if q < s.len() && char_is_digit(s[q]) {
        let mut r = q + 1;
        if s[q] != '0' {
            while r < s.len() && char_is_digit(s[r])
                invariant
                    q + 1 <= r <= s@.len(),
                    digit_run(s@, q + 1) == digit_run(s@, r as int),
                decreases s@.len() - r,
            {
                r = r + 1;
            }
        }
        proof {
            lemma_digit_run(s@, q + 1);
        }
        let mut value: u128 = 0;
        let mut i = q;
        while i < r
            invariant
                q <= i <= r <= s@.len(),
                q == pad(s@, p as int),
                q < s@.len(),
                is_digit(s@[q as int]),
                r == (if s@[q as int] == '0' {
                    q + 1
                } else {
                    digit_run(s@, q + 1)
                }),
                forall|k: int| q <= k < r ==> is_digit(#[trigger] s@[k]),
                value as int == digits_value(s@, q as int, i as int),
            decreases r - i,
        {
            let d = (s[i] as u32 - '0' as u32) as u128;
            assert(d as int == s@[i as int] as int - '0' as int);
            assert(digits_value(s@, q as int, i + 1) == value * 10 + d);
            if value > (u128::MAX - d) / 10 {
                proof {
                    lemma_digits_grow(s@, q as int, i as int, r as int);
                    assert(value * 10 + d > u128::MAX) by (nonlinear_arith)
                        requires
                            value > (u128::MAX - d) / 10,
                            d <= 9,
                    ;
                }
                return None;
            }
            value = value * 10 + d;
            i = i + 1;
        }
        Some((value, skip_pad(s, r)))
    } else {
        None
    }
}

proof fn lemma_digits_grow(s: Seq<char>, from: int, mid: int, to: int)
    requires
        from <= mid < to <= s.len(),
        forall|k: int| from <= k < to ==> is_digit(#[trigger] s[k]),
    ensures
        digits_value(s, from, to) >= digits_value(s, from, mid + 1),
    decreases to - mid,
{
    if to > mid + 1 {
        lemma_digits_grow(s, from, mid, to - 1);
        lemma_digits_nonneg(s, from, to - 1);
    }
}

proof fn lemma_digits_nonneg(s: Seq<char>, from: int, to: int)
    requires
        from <= to <= s.len(),
        forall|k: int| from <= k < to ==> is_digit(#[trigger] s[k]),
    ensures
        digits_value(s, from, to) >= 0,
    decreases to - from,
{
    if to > from {
        lemma_digits_nonneg(s, from, to - 1);
    }
}

fn parse_string(s: &Vec<char>, p: usize) -> (r: Option<(String, usize)>)
    requires
        p <= s@.len(),
    ensures
        match sp_string(s@, p as int) {
            Some((text, q)) => r matches Some((t, q2)) && t@ == text && q2 == q,
            None => r is None,
        },
        r matches Some((_, q)) ==> p < q <= s@.len(),
{
    let q = skip_pad(s, p);
    if q < s.len() && s[q] == '"' {
        let mut e = q + 1;
        while e < s.len() && s[e] != '"'
            invariant
                q + 1 <= e <= s@.len(),
                quote_run(s@, q + 1) == quote_run(s@, e as int),
            decreases s@.len() - e,
        {
            e = e + 1;
        }
        if e < s.len() {
            let text = substring(s, q + 1, e);
            Some((text, skip_pad(s, e + 1)))
        } else {
            None
        }
    } else {
        None
    }
}

fn word_mut() -> (w: Vec<char>)
    ensures
        w@ == kw_mut(),
{
    let w = vec!['m', 'u', 't'];
    assert(w@ =~= kw_mut());
    w
}

fn word_take() -> (w: Vec<char>)
    ensures
        w@ == kw_take(),
{
    let w = vec!['t', 'a', 'k', 'e'];
    assert(w@ =~= kw_take());
    w
}

fn parse_flow(s: &Vec<char>, p: usize) -> (r: (ValueFlow, usize))
    requires
        p <= s@.len(),
    ensures
        r.0 == sp_flow(s@, p as int).0 && r.1 == sp_flow(s@, p as int).1,
        p <= r.1 <= s@.len(),
{
    if let Some(q) = parse_keyword(s, p, &word_mut()) {
        return (ValueFlow::ReturnedChanged, q);
    }
    if let Some(q) = parse_keyword(s, p, &word_take()) {
        return (ValueFlow::NotReturned, q);
    }
    if let Some(q) = parse_sym(s, p, '!') {
        return (ValueFlow::ReturnedChanged, q);
    }
    if let Some(q) = parse_sym(s, p, '@') {
        return (ValueFlow::NotReturned, q);
    }
    (ValueFlow::ReturnedUnchanged, p)
}

// ---------------------------------------------------------------------------
// Name lists
// ---------------------------------------------------------------------------

/// `p < q` and `q` within the input: the step a rule took moved forward.
pub open spec fn fwd(s: Seq<char>, p: int, q: int) -> bool {
    p < q <= s.len()
}

/// More `, name` after a first name; a trailing comma is allowed.
pub open spec fn sp_names_rest(s: Seq<char>, p: int, acc: Seq<Seq<char>>) -> (Seq<Seq<char>>, int)
    decreases s.len() - p,
{
    match sp_sym(s, p, ',') {
        None => (acc, p),
        Some(q) => match sp_ident(s, q) {
            None => (acc, q),
            Some((n, r)) => if fwd(s, p, r) {
                sp_names_rest(s, r, acc.push(n))
            } else {
                (acc, p)
            },
        },
    }
}

/// Generic parameters `<A, B>`, or none.
pub open spec fn sp_generics(s: Seq<char>, p: int) -> (Seq<Seq<char>>, int) {
    match sp_sym(s, p, '<') {
        None => (Seq::empty(), p),
        Some(q) => match sp_ident(s, q) {
            None => (Seq::empty(), p),
            Some((n, q1)) => {
                let (names, q2) = sp_names_rest(s, q1, seq![n]);
                match sp_sym(s, q2, '>') {
                    Some(q3) => (names, q3),
                    None => (Seq::empty(), p),
                }
            },
        },
    }
}

pub open spec fn plus() -> Seq<char> {
    seq!['+']
}

/// More `+ Name` after a first name; no trailing `+`.
pub open spec fn sp_caps_rest(s: Seq<char>, p: int, acc: Seq<Seq<char>>) -> (Seq<Seq<char>>, int)
    decreases s.len() - p,
{
    match sp_op(s, p, plus()) {
        None => (acc, p),
        Some(q) => match sp_ident(s, q) {
            None => (acc, p),
            Some((n, r)) => if fwd(s, p, r) {
                sp_caps_rest(s, r, acc.push(n))
            } else {
                (acc, p)
            },
        },
    }
}

/// A capability clause `: Dup + Zap`, or none.
pub open spec fn sp_caps(s: Seq<char>, p: int) -> (Seq<Seq<char>>, int) {
    match sp_sym(s, p, ':') {
        None => (Seq::empty(), p),
        Some(q) => match sp_ident(s, q) {
            None => (Seq::empty(), p),
            Some((n, r)) => sp_caps_rest(s, r, seq![n]),
        },
    }
}

#[verifier::loop_isolation(false)]
fn names_rest(s: &Vec<char>, p: usize, acc: Vec<String>) -> (r: (Vec<String>, usize))
    requires
        p <= s@.len(),
    ensures
        strs(r.0@) == sp_names_rest(s@, p as int, strs(acc@)).0,
        r.1 == sp_names_rest(s@, p as int, strs(acc@)).1,
        p <= r.1 <= s@.len(),
{
    let ghost start = sp_names_rest(s@, p as int, strs(acc@));
    let mut names = acc;
    let mut at = p;
    loop
        invariant
            p <= at <= s@.len(),
            start == sp_names_rest(s@, at as int, strs(names@)),
        decreases s@.len() - at,
    {
        match parse_sym(s, at, ',') {
            None => {
                return (names, at);
            },
            Some(q) => match parse_ident(s, q) {
                None => {
                    return (names, q);
                },
                Some((n, r)) => {
                    proof {
                        assert(strs(names@.push(n)) =~= strs(names@).push(n@));
                    }
                    names.push(n);
                    at = r;
                },
            },
        }
    }
}

fn parse_generics(s: &Vec<char>, p: usize) -> (r: (Vec<String>, usize))
    requires
        p <= s@.len(),
    ensures
        strs(r.0@) == sp_generics(s@, p as int).0,
        r.1 == sp_generics(s@, p as int).1,
        p <= r.1 <= s@.len(),
{
    match parse_sym(s, p, '<') {
        None => (Vec::new(), p),
        Some(q) => match parse_ident(s, q) {
            None => (Vec::new(), p),
            Some((n, q1)) => {
                let mut first: Vec<String> = Vec::new();
                first.push(n);
                proof {
                    assert(strs(first@) =~= seq![n@]);
                }
                let (names, q2) = names_rest(s, q1, first);
                match parse_sym(s, q2, '>') {
                    Some(q3) => (names, q3),
                    None => (Vec::new(), p),
                }
            },
        },
    }
}

fn plus_word() -> (w: Vec<char>)
    ensures
        w@ == plus(),
{
    let w = vec!['+'];
    assert(w@ =~= plus());
    w
}

#[verifier::loop_isolation(false)]
fn parse_caps(s: &Vec<char>, p: usize) -> (r: (Vec<String>, usize))
    requires
        p <= s@.len(),
    ensures
        strs(r.0@) == sp_caps(s@, p as int).0,
        r.1 == sp_caps(s@, p as int).1,
        p <= r.1 <= s@.len(),
{
    match parse_sym(s, p, ':') {
        None => (Vec::new(), p),
        Some(q) => match parse_ident(s, q) {
            None => (Vec::new(), p),
            Some((n, r)) => {
                let mut acc: Vec<String> = Vec::new();
                acc.push(n);
                proof {
                    assert(strs(acc@) =~= seq![n@]);
                }
                let mut at = r;
                let ghost start = sp_caps_rest(s@, r as int, strs(acc@));
                let plus_tok = plus_word();
                loop
                    invariant
                        at <= s@.len(),
                        plus_tok@ == plus(),
                        start == sp_caps_rest(s@, at as int, strs(acc@)),
                        start == sp_caps(s@, p as int),
                        p <= at,
                    decreases s@.len() - at,
                {
                    match parse_op(s, at, &plus_tok) {
                        None => {
                            return (acc, at);
                        },
                        Some(q1) => match parse_ident(s, q1) {
                            None => {
                                return (acc, at);
                            },
                            Some((n1, r1)) => {
                                proof {
                                    assert(strs(acc@.push(n1)) =~= strs(acc@).push(n1@));
                                }
                                acc.push(n1);
                                at = r1;
                            },
                        },
                    }
                }
            },
        },
    }
}

// ---------------------------------------------------------------------------
// Types
// ---------------------------------------------------------------------------

pub type TypeFieldV = (Option<Seq<char>>, TypeV);

/// A braced record of types: unit when empty.
pub open spec fn record_type_v(fields: Seq<TypeFieldV>) -> TypeV {
    if fields.len() == 0 {
        TypeV::Unit
    } else {
        TypeV::Product(fields)
    }
}

/// A positional product.
pub open spec fn tuple_product_v(ts: Seq<TypeV>) -> TypeV {
    TypeV::Product(ts.map_values(|t: TypeV| (None::<Seq<char>>, t)))
}

/// A parenthesized type list: unit when empty, the type itself when alone,
/// a positional product otherwise.
pub open spec fn tuple_group_v(ts: Seq<TypeV>) -> TypeV {
    if ts.len() == 0 {
        TypeV::Unit
    } else if ts.len() == 1 {
        ts[0]
    } else {
        tuple_product_v(ts)
    }
}

pub open spec fn arrow() -> Seq<char> {
    seq!['-', '>']
}

/// A type, possibly a function type `A -> B` (right associative).
pub open spec fn sp_type(s: Seq<char>, p: int) -> Option<(TypeV, int)>
    decreases s.len() - p, 10int,
{
    match sp_type_atom(s, p) {
        None => None,
        Some((t, q)) => match sp_op(s, q, arrow()) {
            None => Some((t, q)),
            Some(r) => if fwd(s, p, r) {
                match sp_type(s, r) {
                    None => Some((t, q)),
                    Some((o, e)) => Some((TypeV::Function(Box::new(t), Box::new(o)), e)),
                }
            } else {
                Some((t, q))
            },
        },
    }
}

/// A record type, a parenthesized type, or a named type.
pub open spec fn sp_type_atom(s: Seq<char>, p: int) -> Option<(TypeV, int)>
    decreases s.len() - p, 9int,
{
    match sp_record_type(s, p) {
        Some(x) => Some(x),
        None => match sp_paren_type(s, p) {
            Some(x) => Some(x),
            None => sp_named_type(s, p),
        },
    }
}

/// `{ name: Type, ... }`.
pub open spec fn sp_record_type(s: Seq<char>, p: int) -> Option<(TypeV, int)>
    decreases s.len() - p, 8int,
{
    match sp_sym(s, p, '{') {
        None => None,
        Some(q) => if fwd(s, p, q) {
            let (fields, q1) = sp_type_fields(s, q);
            match sp_sym(s, q1, '}') {
                Some(e) => Some((record_type_v(fields), e)),
                None => None,
            }
        } else {
            None
        },
    }
}

/// `name: Type`.
pub open spec fn sp_type_field(s: Seq<char>, p: int) -> Option<(TypeFieldV, int)>
    decreases s.len() - p, 19int,
{
    match sp_ident(s, p) {
        None => None,
        Some((n, q)) => match sp_sym(s, q, ':') {
            None => None,
            Some(q1) => if fwd(s, p, q1) {
                match sp_type(s, q1) {
                    None => None,
                    Some((t, e)) => Some(((Some(n), t), e)),
                }
            } else {
                None
            },
        },
    }
}

/// Named type fields separated by commas.
pub open spec fn sp_type_fields(s: Seq<char>, p: int) -> (Seq<TypeFieldV>, int)
    decreases s.len() - p, 20int,
{
    match sp_type_field(s, p) {
        None => (Seq::empty(), p),
        Some((f, q)) => if fwd(s, p, q) {
            sp_type_fields_rest(s, q, seq![f])
        } else {
            (Seq::empty(), p)
        },
    }
}

pub open spec fn sp_type_fields_rest(s: Seq<char>, p: int, acc: Seq<TypeFieldV>) -> (Seq<TypeFieldV>, int)
    decreases s.len() - p, 21int,
{
    match sp_sym(s, p, ',') {
        None => (acc, p),
        Some(q) => if fwd(s, p, q) {
            match sp_type_field(s, q) {
                None => (acc, q),
                Some((f, r)) => if fwd(s, q, r) {
                    sp_type_fields_rest(s, r, acc.push(f))
                } else {
                    (acc, q)
                },
            }
        } else {
            (acc, p)
        },
    }
}

/// Types separated by commas.
pub open spec fn sp_types(s: Seq<char>, p: int) -> (Seq<TypeV>, int)
    decreases s.len() - p, 20int,
{
    match sp_type(s, p) {
        None => (Seq::empty(), p),
        Some((t, q)) => if fwd(s, p, q) {
            sp_types_rest(s, q, seq![t])
        } else {
            (Seq::empty(), p)
        },
    }
}

pub open spec fn sp_types_rest(s: Seq<char>, p: int, acc: Seq<TypeV>) -> (Seq<TypeV>, int)
    decreases s.len() - p, 21int,
{
    match sp_sym(s, p, ',') {
        None => (acc, p),
        Some(q) => if fwd(s, p, q) {
            match sp_type(s, q) {
                None => (acc, q),
                Some((t, r)) => if fwd(s, q, r) {
                    sp_types_rest(s, r, acc.push(t))
                } else {
                    (acc, q)
                },
            }
        } else {
            (acc, p)
        },
    }
}

/// `( ... )`: an anonymous enum of variants with payloads, or a type list.
pub open spec fn sp_paren_type(s: Seq<char>, p: int) -> Option<(TypeV, int)>
    decreases s.len() - p, 8int,
{
    match sp_sym(s, p, '(') {
        None => None,
        Some(q) => if fwd(s, p, q) {
            match sp_anon_enum(s, q) {
                Some((t, q1)) => match sp_sym(s, q1, ')') {
                    Some(e) => Some((t, e)),
                    None => None,
                },
                None => {
                    let (ts, q1) = sp_types(s, q);
                    match sp_sym(s, q1, ')') {
                        Some(e) => Some((tuple_group_v(ts), e)),
                        None => None,
                    }
                },
            }
        } else {
            None
        },
    }
}

/// `(T, ...)` as a payload.
pub open spec fn sp_tuple_payload(s: Seq<char>, p: int) -> Option<(TypeV, int)>
    decreases s.len() - p, 8int,
{
    match sp_sym(s, p, '(') {
        None => None,
        Some(q) => if fwd(s, p, q) {
            let (ts, q1) = sp_types(s, q);
            match sp_sym(s, q1, ')') {
                Some(e) => Some((tuple_group_v(ts), e)),
                None => None,
            }
        } else {
            None
        },
    }
}

/// A variant with a record or tuple payload.
pub open spec fn sp_anon_variant(s: Seq<char>, p: int) -> Option<(TypeFieldV, int)>
    decreases s.len() - p, 19int,
{
    match sp_ident(s, p) {
        None => None,
        Some((n, q)) => if fwd(s, p, q) {
            match sp_record_type(s, q) {
                Some((t, e)) => Some(((Some(n), t), e)),
                None => match sp_tuple_payload(s, q) {
                    Some((t, e)) => Some(((Some(n), t), e)),
                    None => None,
                },
            }
        } else {
            None
        },
    }
}

/// At least one variant with payload, separated by commas: a sum.
pub open spec fn sp_anon_enum(s: Seq<char>, p: int) -> Option<(TypeV, int)>
    decreases s.len() - p, 20int,
{
    match sp_anon_variant(s, p) {
        None => None,
        Some((v, q)) => if fwd(s, p, q) {
            let (vs, e) = sp_anon_variants_rest(s, q, seq![v]);
            Some((TypeV::Sum(vs), e))
        } else {
            None
        },
    }
}

pub open spec fn sp_anon_variants_rest(s: Seq<char>, p: int, acc: Seq<TypeFieldV>) -> (Seq<TypeFieldV>, int)
    decreases s.len() - p, 21int,
{
    match sp_sym(s, p, ',') {
        None => (acc, p),
        Some(q) => if fwd(s, p, q) {
            match sp_anon_variant(s, q) {
                None => (acc, q),
                Some((v, r)) => if fwd(s, q, r) {
                    sp_anon_variants_rest(s, r, acc.push(v))
                } else {
                    (acc, q)
                },
            }
        } else {
            (acc, p)
        },
    }
}

/// A name, with generic arguments `<T, ...>` when they follow.
pub open spec fn sp_named_type(s: Seq<char>, p: int) -> Option<(TypeV, int)>
    decreases s.len() - p, 8int,
{
    match sp_ident(s, p) {
        None => None,
        Some((n, q)) => match sp_sym(s, q, '<') {
            None => Some((TypeV::Name(n), q)),
            Some(q1) => if fwd(s, p, q1) {
                let (args, q2) = sp_types(s, q1);
                match sp_sym(s, q2, '>') {
                    Some(e) => Some((TypeV::Apply(n, args), e)),
                    None => Some((TypeV::Name(n), q)),
                }
            } else {
                Some((TypeV::Name(n), q))
            },
        },
    }
}

pub open spec fn ot(r: Option<(TypeExpr, usize)>) -> Option<(TypeV, int)> {
    match r {
        Some((t, q)) => Some((type_view(t), q as int)),
        None => None,
    }
}

pub open spec fn otf(r: Option<(Field<TypeExpr>, usize)>) -> Option<(TypeFieldV, int)> {
    match r {
        Some((f, q)) => Some(((opt_str(f.name), type_view(f.value)), q as int)),
        None => None,
    }
}

pub open spec fn advances(s: Seq<char>, p: usize, r: Option<(TypeExpr, usize)>) -> bool {
    r matches Some((_, q)) ==> p < q <= s.len()
}

pub(crate) proof fn lemma_type_product_view(v: Vec<Field<TypeExpr>>)
    ensures
        type_view(TypeExpr::Product(v)) == TypeV::Product(type_fields_view(v@)),
        type_view(TypeExpr::Sum(v)) == TypeV::Sum(type_fields_view(v@)),
{
    match type_view(TypeExpr::Product(v)) {
        TypeV::Product(fs) => {
            assert(fs =~= type_fields_view(v@));
        },
        _ => {},
    }
    match type_view(TypeExpr::Sum(v)) {
        TypeV::Sum(fs) => {
            assert(fs =~= type_fields_view(v@));
        },
        _ => {},
    }
}

/// Only a product or sum expression is viewed as a product or sum.
pub(crate) proof fn lemma_type_product_view_not(t: TypeExpr)
    ensures
        type_view(t) is Product ==> t is Product,
        type_view(t) is Sum ==> t is Sum,
        type_view(t) is Unit ==> t is Unit,
{
}

pub(crate) proof fn lemma_type_apply_view(n: String, args: Vec<TypeExpr>)
    ensures
        type_view(TypeExpr::Apply { name: n, args }) == TypeV::Apply(n@, types_view(args@)),
{
    match type_view(TypeExpr::Apply { name: n, args }) {
        TypeV::Apply(_, ts) => {
            assert(ts =~= types_view(args@));
        },
        _ => {},
    }
}

fn make_record_type(fields: Vec<Field<TypeExpr>>) -> (t: TypeExpr)
    ensures
        type_view(t) == record_type_v(type_fields_view(fields@)),
{
    proof {
        lemma_type_product_view(fields);
    }
    if fields.len() == 0 {
        TypeExpr::Unit
    } else {
        TypeExpr::Product(fields)
    }
}

/// The types as positional fields, in order.
fn into_positional(ts: Vec<TypeExpr>) -> (r: Vec<Field<TypeExpr>>)
    ensures
        type_fields_view(r@) == types_view(ts@).map_values(|t: TypeV| (None::<Seq<char>>, t)),
{
    let ghost all = types_view(ts@);
    let mut rest = ts;
    let mut r: Vec<Field<TypeExpr>> = Vec::new();
    let ghost n = rest@.len();
    while rest.len() > 0
        invariant
            r@.len() + rest@.len() == n,
            all.len() == n,
            types_view(rest@) == all.subrange(r@.len() as int, n as int),
            type_fields_view(r@) == all.subrange(0, r@.len() as int).map_values(
                |t: TypeV| (None::<Seq<char>>, t),
            ),
        decreases rest@.len(),
    {
        let ghost k = r@.len() as int;
        let ghost rest0 = rest@;
        let t = rest.remove(0);
        assert(type_view(t) == all[k]) by {
            assert(types_view(rest0)[0] == type_view(t));
        }
        let ghost r0 = r@;
        let ghost tv = type_view(t);
        r.push(Field { name: None, value: t });
        proof {
            assert(type_fields_view(r@) =~= type_fields_view(r0).push((None::<Seq<char>>, tv)));
            assert(all.subrange(0, k + 1).map_values(|t: TypeV| (None::<Seq<char>>, t)) =~= all.subrange(0, k).map_values(
                |t: TypeV| (None::<Seq<char>>, t),
            ).push((None::<Seq<char>>, all[k])));
            assert(types_view(rest@) =~= all.subrange(k + 1, n as int)) by {
                assert forall|j: int| 0 <= j < rest@.len() implies types_view(rest@)[j] == all[k + 1 + j] by {
                    assert(rest@[j] == rest0[j + 1]);
                    assert(types_view(rest0)[j + 1] == all[k + 1 + j]);
                }
            }
            assert(type_fields_view(r@) =~= all.subrange(0, k + 1).map_values(|t: TypeV| (None::<Seq<char>>, t)));
        }
    }
    proof {
        assert(all.subrange(0, n as int) =~= all);
    }
    r
}

fn make_tuple_group(ts: Vec<TypeExpr>) -> (t: TypeExpr)
    ensures
        type_view(t) == tuple_group_v(types_view(ts@)),
{
    if ts.len() == 0 {
        TypeExpr::Unit
    } else if ts.len() == 1 {
        let mut ts = ts;
        let ghost v = ts@;
        let t = ts.pop().unwrap();
        assert(types_view(v)[0] == type_view(t));
        t
    } else {
        let fields = into_positional(ts);
        proof {
            lemma_type_product_view(fields);
        }
        TypeExpr::Product(fields)
    }
}

fn arrow_word() -> (w: Vec<char>)
    ensures
        w@ == arrow(),
{
    let w = vec!['-', '>'];
    assert(w@ =~= arrow());
    w
}

fn parse_type(s: &Vec<char>, p: usize) -> (r: Option<(TypeExpr, usize)>)
    requires
        p <= s@.len(),
    ensures
        ot(r) == sp_type(s@, p as int),
        advances(s@, p, r),
    decreases s@.len() - p, 10int,
{
    match parse_type_atom(s, p) {
        None => None,
        Some((t, q)) => match parse_op(s, q, &arrow_word()) {
            None => Some((t, q)),
            Some(r) => match parse_type(s, r) {
                None => Some((t, q)),
                Some((o, e)) => Some((TypeExpr::Function { input: Box::new(t), output: Box::new(o) }, e)),
            },
        },
    }
}

fn parse_type_atom(s: &Vec<char>, p: usize) -> (r: Option<(TypeExpr, usize)>)
    requires
        p <= s@.len(),
    ensures
        ot(r) == sp_type_atom(s@, p as int),
        advances(s@, p, r),
    decreases s@.len() - p, 9int,
{
    match parse_record_type(s, p) {
        Some(x) => Some(x),
        None => match parse_paren_type(s, p) {
            Some(x) => Some(x),
            None => parse_named_type(s, p),
        },
    }
}

fn parse_record_type(s: &Vec<char>, p: usize) -> (r: Option<(TypeExpr, usize)>)
    requires
        p <= s@.len(),
    ensures
        ot(r) == sp_record_type(s@, p as int),
        advances(s@, p, r),
    decreases s@.len() - p, 8int,
{
    match parse_sym(s, p, '{') {
        None => None,
        Some(q) => {
            let (fields, q1) = parse_type_fields(s, q);
            match parse_sym(s, q1, '}') {
                Some(e) => Some((make_record_type(fields), e)),
                None => None,
            }
        },
    }
}

fn parse_type_field(s: &Vec<char>, p: usize) -> (r: Option<(Field<TypeExpr>, usize)>)
    requires
        p <= s@.len(),
    ensures
        otf(r) == sp_type_field(s@, p as int),
        r matches Some((_, q)) ==> p < q <= s@.len(),
    decreases s@.len() - p, 19int,
{
    match parse_ident(s, p) {
        None => None,
        Some((n, q)) => match parse_sym(s, q, ':') {
            None => None,
            Some(q1) => match parse_type(s, q1) {
                None => None,
                Some((t, e)) => Some((Field { name: Some(n), value: t }, e)),
            },
        },
    }
}

#[verifier::loop_isolation(false)]
fn parse_type_fields(s: &Vec<char>, p: usize) -> (r: (Vec<Field<TypeExpr>>, usize))
    requires
        p <= s@.len(),
    ensures
        type_fields_view(r.0@) == sp_type_fields(s@, p as int).0,
        r.1 == sp_type_fields(s@, p as int).1,
        p <= r.1 <= s@.len(),
    decreases s@.len() - p, 20int,
{
    match parse_type_field(s, p) {
        None => (Vec::new(), p),
        Some((f, q)) => {
            let mut acc: Vec<Field<TypeExpr>> = Vec::new();
            acc.push(f);
            let mut at = q;
            let ghost start = sp_type_fields(s@, p as int);
            proof {
                assert(type_fields_view(acc@) =~= seq![(opt_str(acc@[0].name), type_view(acc@[0].value))]);
            }
            loop
                invariant
                    p < at <= s@.len(),
                    start == sp_type_fields_rest(s@, at as int, type_fields_view(acc@)),
                decreases s@.len() - at,
            {
                match parse_sym(s, at, ',') {
                    None => {
                        return (acc, at);
                    },
                    Some(q1) => match parse_type_field(s, q1) {
                        None => {
                            return (acc, q1);
                        },
                        Some((f1, r1)) => {
                            proof {
                                assert(type_fields_view(acc@.push(f1)) =~= type_fields_view(acc@).push(
                                    (opt_str(f1.name), type_view(f1.value)),
                                ));
                            }
                            acc.push(f1);
                            at = r1;
                        },
                    },
                }
            }
        },
    }
}

#[verifier::loop_isolation(false)]
fn parse_types(s: &Vec<char>, p: usize) -> (r: (Vec<TypeExpr>, usize))
    requires
        p <= s@.len(),
    ensures
        types_view(r.0@) == sp_types(s@, p as int).0,
        r.1 == sp_types(s@, p as int).1,
        p <= r.1 <= s@.len(),
    decreases s@.len() - p, 20int,
{
    match parse_type(s, p) {
        None => (Vec::new(), p),
        Some((t, q)) => {
            let mut acc: Vec<TypeExpr> = Vec::new();
            acc.push(t);
            let mut at = q;
            let ghost start = sp_types(s@, p as int);
            proof {
                assert(types_view(acc@) =~= seq![type_view(acc@[0])]);
            }
            loop
                invariant
                    p < at <= s@.len(),
                    start == sp_types_rest(s@, at as int, types_view(acc@)),
                decreases s@.len() - at,
            {
                match parse_sym(s, at, ',') {
                    None => {
                        return (acc, at);
                    },
                    Some(q1) => match parse_type(s, q1) {
                        None => {
                            return (acc, q1);
                        },
                        Some((t1, r1)) => {
                            proof {
                                assert(types_view(acc@.push(t1)) =~= types_view(acc@).push(type_view(t1)));
                            }
                            acc.push(t1);
                            at = r1;
                        },
                    },
                }
            }
        },
    }
}

fn parse_paren_type(s: &Vec<char>, p: usize) -> (r: Option<(TypeExpr, usize)>)
    requires
        p <= s@.len(),
    ensures
        ot(r) == sp_paren_type(s@, p as int),
        advances(s@, p, r),
    decreases s@.len() - p, 8int,
{
    match parse_sym(s, p, '(') {
        None => None,
        Some(q) => match parse_anon_enum(s, q) {
            Some((t, q1)) => match parse_sym(s, q1, ')') {
                Some(e) => Some((t, e)),
                None => None,
            },
            None => {
                let (ts, q1) = parse_types(s, q);
                match parse_sym(s, q1, ')') {
                    Some(e) => Some((make_tuple_group(ts), e)),
                    None => None,
                }
            },
        },
    }
}

fn parse_tuple_payload(s: &Vec<char>, p: usize) -> (r: Option<(TypeExpr, usize)>)
    requires
        p <= s@.len(),
    ensures
        ot(r) == sp_tuple_payload(s@, p as int),
        advances(s@, p, r),
    decreases s@.len() - p, 8int,
{
    match parse_sym(s, p, '(') {
        None => None,
        Some(q) => {
            let (ts, q1) = parse_types(s, q);
            match parse_sym(s, q1, ')') {
                Some(e) => Some((make_tuple_group(ts), e)),
                None => None,
            }
        },
    }
}

fn parse_anon_variant(s: &Vec<char>, p: usize) -> (r: Option<(Field<TypeExpr>, usize)>)
    requires
        p <= s@.len(),
    ensures
        otf(r) == sp_anon_variant(s@, p as int),
        r matches Some((_, q)) ==> p < q <= s@.len(),
    decreases s@.len() - p, 19int,
{
    match parse_ident(s, p) {
        None => None,
        Some((n, q)) => match parse_record_type(s, q) {
            Some((t, e)) => Some((Field { name: Some(n), value: t }, e)),
            None => match parse_tuple_payload(s, q) {
                Some((t, e)) => Some((Field { name: Some(n), value: t }, e)),
                None => None,
            },
        },
    }
}

#[verifier::loop_isolation(false)]
fn parse_anon_enum(s: &Vec<char>, p: usize) -> (r: Option<(TypeExpr, usize)>)
    requires
        p <= s@.len(),
    ensures
        ot(r) == sp_anon_enum(s@, p as int),
        advances(s@, p, r),
    decreases s@.len() - p, 20int,
{
    match parse_anon_variant(s, p) {
        None => None,
        Some((v, q)) => {
            let mut acc: Vec<Field<TypeExpr>> = Vec::new();
            acc.push(v);
            let mut at = q;
            let ghost start = sp_anon_enum(s@, p as int);
            proof {
                assert(type_fields_view(acc@) =~= seq![(opt_str(acc@[0].name), type_view(acc@[0].value))]);
            }
            loop
                invariant
                    p < at <= s@.len(),
                    start == Some(
                        (
                            TypeV::Sum(sp_anon_variants_rest(s@, at as int, type_fields_view(acc@)).0),
                            sp_anon_variants_rest(s@, at as int, type_fields_view(acc@)).1,
                        ),
                    ),
                decreases s@.len() - at,
            {
                match parse_sym(s, at, ',') {
                    None => {
                        proof {
                            lemma_type_product_view(acc);
                        }
                        return Some((TypeExpr::Sum(acc), at));
                    },
                    Some(q1) => match parse_anon_variant(s, q1) {
                        None => {
                            proof {
                                lemma_type_product_view(acc);
                            }
                            return Some((TypeExpr::Sum(acc), q1));
                        },
                        Some((v1, r1)) => {
                            proof {
                                assert(type_fields_view(acc@.push(v1)) =~= type_fields_view(acc@).push(
                                    (opt_str(v1.name), type_view(v1.value)),
                                ));
                            }
                            acc.push(v1);
                            at = r1;
                        },
                    },
                }
            }
        },
    }
}

fn parse_named_type(s: &Vec<char>, p: usize) -> (r: Option<(TypeExpr, usize)>)
    requires
        p <= s@.len(),
    ensures
        ot(r) == sp_named_type(s@, p as int),
        advances(s@, p, r),
    decreases s@.len() - p, 8int,
{
    match parse_ident(s, p) {
        None => None,
        Some((n, q)) => match parse_sym(s, q, '<') {
            None => Some((TypeExpr::Name(n), q)),
            Some(q1) => {
                let (args, q2) = parse_types(s, q1);
                match parse_sym(s, q2, '>') {
                    Some(e) => {
                        proof {
                            lemma_type_apply_view(n, args);
                        }
                        Some((TypeExpr::Apply { name: n, args }, e))
                    },
                    None => Some((TypeExpr::Name(n), q)),
                }
            },
        },
    }
}

// ---------------------------------------------------------------------------
// Patterns
// ---------------------------------------------------------------------------

pub type PatternFieldV = (Option<Seq<char>>, PatternV);

/// A parenthesized pattern list: unit when empty, the pattern itself when
/// alone, a tuple otherwise.
pub open spec fn tuple_group_pattern_v(ps: Seq<PatternV>) -> PatternV {
    if ps.len() == 0 {
        PatternV::Unit
    } else if ps.len() == 1 {
        ps[0]
    } else {
        PatternV::Tuple(ps)
    }
}

/// `_`, a record pattern, a tuple pattern, or a name.
pub open spec fn sp_pattern(s: Seq<char>, p: int) -> Option<(PatternV, int)>
    decreases s.len() - p, 10int,
{
    match sp_sym(s, p, '_') {
        Some(q) => Some((PatternV::Wildcard, q)),
        None => match sp_record_pattern(s, p) {
            Some(x) => Some(x),
            None => match sp_tuple_pattern(s, p) {
                Some(x) => Some(x),
                None => match sp_ident(s, p) {
                    Some((n, q)) => Some((PatternV::Name(n), q)),
                    None => None,
                },
            },
        },
    }
}

/// `{ name, name: pattern, ... }`.
pub open spec fn sp_record_pattern(s: Seq<char>, p: int) -> Option<(PatternV, int)>
    decreases s.len() - p, 8int,
{
    match sp_sym(s, p, '{') {
        None => None,
        Some(q) => if fwd(s, p, q) {
            let (fields, q1) = sp_pattern_fields(s, q);
            match sp_sym(s, q1, '}') {
                Some(e) => Some((PatternV::Record(fields), e)),
                None => None,
            }
        } else {
            None
        },
    }
}

/// `( pattern, ... )`.
pub open spec fn sp_tuple_pattern(s: Seq<char>, p: int) -> Option<(PatternV, int)>
    decreases s.len() - p, 8int,
{
    match sp_sym(s, p, '(') {
        None => None,
        Some(q) => if fwd(s, p, q) {
            let (ps, q1) = sp_patterns(s, q);
            match sp_sym(s, q1, ')') {
                Some(e) => Some((tuple_group_pattern_v(ps), e)),
                None => None,
            }
        } else {
            None
        },
    }
}

/// `name` (binding the field to that name) or `name: pattern`.
pub open spec fn sp_pattern_field(s: Seq<char>, p: int) -> Option<(PatternFieldV, int)>
    decreases s.len() - p, 19int,
{
    match sp_ident(s, p) {
        None => None,
        Some((n, q)) => match sp_sym(s, q, ':') {
            None => Some(((Some(n), PatternV::Name(n)), q)),
            Some(q1) => if fwd(s, p, q1) {
                match sp_pattern(s, q1) {
                    Some((pt, e)) => Some(((Some(n), pt), e)),
                    None => Some(((Some(n), PatternV::Name(n)), q)),
                }
            } else {
                Some(((Some(n), PatternV::Name(n)), q))
            },
        },
    }
}

pub open spec fn sp_pattern_fields(s: Seq<char>, p: int) -> (Seq<PatternFieldV>, int)
    decreases s.len() - p, 20int,
{
    match sp_pattern_field(s, p) {
        None => (Seq::empty(), p),
        Some((f, q)) => if fwd(s, p, q) {
            sp_pattern_fields_rest(s, q, seq![f])
        } else {
            (Seq::empty(), p)
        },
    }
}

pub open spec fn sp_pattern_fields_rest(s: Seq<char>, p: int, acc: Seq<PatternFieldV>) -> (Seq<PatternFieldV>, int)
    decreases s.len() - p, 21int,
{
    match sp_sym(s, p, ',') {
        None => (acc, p),
        Some(q) => if fwd(s, p, q) {
            match sp_pattern_field(s, q) {
                None => (acc, q),
                Some((f, r)) => if fwd(s, q, r) {
                    sp_pattern_fields_rest(s, r, acc.push(f))
                } else {
                    (acc, q)
                },
            }
        } else {
            (acc, p)
        },
    }
}

pub open spec fn sp_patterns(s: Seq<char>, p: int) -> (Seq<PatternV>, int)
    decreases s.len() - p, 20int,
{
    match sp_pattern(s, p) {
        None => (Seq::empty(), p),
        Some((pt, q)) => if fwd(s, p, q) {
            sp_patterns_rest(s, q, seq![pt])
        } else {
            (Seq::empty(), p)
        },
    }
}

pub open spec fn sp_patterns_rest(s: Seq<char>, p: int, acc: Seq<PatternV>) -> (Seq<PatternV>, int)
    decreases s.len() - p, 21int,
{
    match sp_sym(s, p, ',') {
        None => (acc, p),
        Some(q) => if fwd(s, p, q) {
            match sp_pattern(s, q) {
                None => (acc, q),
                Some((pt, r)) => if fwd(s, q, r) {
                    sp_patterns_rest(s, r, acc.push(pt))
                } else {
                    (acc, q)
                },
            }
        } else {
            (acc, p)
        },
    }
}

pub open spec fn opt_pv(r: Option<(Pattern, usize)>) -> Option<(PatternV, int)> {
    match r {
        Some((pt, q)) => Some((pattern_view(pt), q as int)),
        None => None,
    }
}

pub open spec fn opt_pfv(r: Option<(Field<Pattern>, usize)>) -> Option<(PatternFieldV, int)> {
    match r {
        Some((f, q)) => Some(((opt_str(f.name), pattern_view(f.value)), q as int)),
        None => None,
    }
}

proof fn lemma_tuple_pattern_view(ps: Vec<Pattern>)
    ensures
        pattern_view(Pattern::Tuple(ps)) == PatternV::Tuple(patterns_view(ps@)),
{
    match pattern_view(Pattern::Tuple(ps)) {
        PatternV::Tuple(v) => {
            assert(v =~= patterns_view(ps@));
        },
        _ => {},
    }
}

proof fn lemma_record_pattern_view(fs: Vec<Field<Pattern>>)
    ensures
        pattern_view(Pattern::Record(fs)) == PatternV::Record(pattern_fields_view(fs@)),
{
    match pattern_view(Pattern::Record(fs)) {
        PatternV::Record(v) => {
            assert(v =~= pattern_fields_view(fs@));
        },
        _ => {},
    }
}

fn make_tuple_pattern(ps: Vec<Pattern>) -> (pt: Pattern)
    ensures
        pattern_view(pt) == tuple_group_pattern_v(patterns_view(ps@)),
{
    if ps.len() == 0 {
        Pattern::Unit
    } else if ps.len() == 1 {
        let mut ps = ps;
        let ghost v = ps@;
        let pt = ps.pop().unwrap();
        assert(patterns_view(v)[0] == pattern_view(pt));
        pt
    } else {
        proof {
            lemma_tuple_pattern_view(ps);
        }
        Pattern::Tuple(ps)
    }
}

fn parse_pattern(s: &Vec<char>, p: usize) -> (r: Option<(Pattern, usize)>)
    requires
        p <= s@.len(),
    ensures
        opt_pv(r) == sp_pattern(s@, p as int),
        r matches Some((_, q)) ==> p < q <= s@.len(),
    decreases s@.len() - p, 10int,
{
    if let Some(q) = parse_sym(s, p, '_') {
        return Some((Pattern::Wildcard, q));
    }
    if let Some(x) = parse_record_pattern(s, p) {
        return Some(x);
    }
    if let Some(x) = parse_tuple_pattern(s, p) {
        return Some(x);
    }
    match parse_ident(s, p) {
        Some((n, q)) => Some((Pattern::Name(n), q)),
        None => None,
    }
}

fn parse_record_pattern(s: &Vec<char>, p: usize) -> (r: Option<(Pattern, usize)>)
    requires
        p <= s@.len(),
    ensures
        opt_pv(r) == sp_record_pattern(s@, p as int),
        r matches Some((_, q)) ==> p < q <= s@.len(),
    decreases s@.len() - p, 8int,
{
    match parse_sym(s, p, '{') {
        None => None,
        Some(q) => {
            let (fields, q1) = parse_pattern_fields(s, q);
            match parse_sym(s, q1, '}') {
                Some(e) => {
                    proof {
                        lemma_record_pattern_view(fields);
                    }
                    Some((Pattern::Record(fields), e))
                },
                None => None,
            }
        },
    }
}

fn parse_tuple_pattern(s: &Vec<char>, p: usize) -> (r: Option<(Pattern, usize)>)
    requires
        p <= s@.len(),
    ensures
        opt_pv(r) == sp_tuple_pattern(s@, p as int),
        r matches Some((_, q)) ==> p < q <= s@.len(),
    decreases s@.len() - p, 8int,
{
    match parse_sym(s, p, '(') {
        None => None,
        Some(q) => {
            let (ps, q1) = parse_patterns(s, q);
            match parse_sym(s, q1, ')') {
                Some(e) => Some((make_tuple_pattern(ps), e)),
                None => None,
            }
        },
    }
}

fn parse_pattern_field(s: &Vec<char>, p: usize) -> (r: Option<(Field<Pattern>, usize)>)
    requires
        p <= s@.len(),
    ensures
        opt_pfv(r) == sp_pattern_field(s@, p as int),
        r matches Some((_, q)) ==> p < q <= s@.len(),
    decreases s@.len() - p, 19int,
{
    match parse_ident(s, p) {
        None => None,
        Some((n, q)) => {
            let bound = n.clone();
            match parse_sym(s, q, ':') {
                None => Some((Field { name: Some(n), value: Pattern::Name(bound) }, q)),
                Some(q1) => match parse_pattern(s, q1) {
                    Some((pt, e)) => Some((Field { name: Some(n), value: pt }, e)),
                    None => Some((Field { name: Some(n), value: Pattern::Name(bound) }, q)),
                },
            }
        },
    }
}

#[verifier::loop_isolation(false)]
fn parse_pattern_fields(s: &Vec<char>, p: usize) -> (r: (Vec<Field<Pattern>>, usize))
    requires
        p <= s@.len(),
    ensures
        pattern_fields_view(r.0@) == sp_pattern_fields(s@, p as int).0,
        r.1 == sp_pattern_fields(s@, p as int).1,
        p <= r.1 <= s@.len(),
    decreases s@.len() - p, 20int,
{
    match parse_pattern_field(s, p) {
        None => (Vec::new(), p),
        Some((f, q)) => {
            let mut acc: Vec<Field<Pattern>> = Vec::new();
            acc.push(f);
            let mut at = q;
            let ghost start = sp_pattern_fields(s@, p as int);
            proof {
                assert(pattern_fields_view(acc@) =~= seq![(opt_str(acc@[0].name), pattern_view(acc@[0].value))]);
            }
            loop
                invariant
                    p < at <= s@.len(),
                    start == sp_pattern_fields_rest(s@, at as int, pattern_fields_view(acc@)),
                decreases s@.len() - at,
            {
                match parse_sym(s, at, ',') {
                    None => {
                        return (acc, at);
                    },
                    Some(q1) => match parse_pattern_field(s, q1) {
                        None => {
                            return (acc, q1);
                        },
                        Some((f1, r1)) => {
                            proof {
                                assert(pattern_fields_view(acc@.push(f1)) =~= pattern_fields_view(acc@).push(
                                    (opt_str(f1.name), pattern_view(f1.value)),
                                ));
                            }
                            acc.push(f1);
                            at = r1;
                        },
                    },
                }
            }
        },
    }
}

#[verifier::loop_isolation(false)]
fn parse_patterns(s: &Vec<char>, p: usize) -> (r: (Vec<Pattern>, usize))
    requires
        p <= s@.len(),
    ensures
        patterns_view(r.0@) == sp_patterns(s@, p as int).0,
        r.1 == sp_patterns(s@, p as int).1,
        p <= r.1 <= s@.len(),
    decreases s@.len() - p, 20int,
{
    match parse_pattern(s, p) {
        None => (Vec::new(), p),
        Some((pt, q)) => {
            let mut acc: Vec<Pattern> = Vec::new();
            acc.push(pt);
            let mut at = q;
            let ghost start = sp_patterns(s@, p as int);
            proof {
                assert(patterns_view(acc@) =~= seq![pattern_view(acc@[0])]);
            }
            loop
                invariant
                    p < at <= s@.len(),
                    start == sp_patterns_rest(s@, at as int, patterns_view(acc@)),
                decreases s@.len() - at,
            {
                match parse_sym(s, at, ',') {
                    None => {
                        return (acc, at);
                    },
                    Some(q1) => match parse_pattern(s, q1) {
                        None => {
                            return (acc, q1);
                        },
                        Some((p1, r1)) => {
                            proof {
                                assert(patterns_view(acc@.push(p1)) =~= patterns_view(acc@).push(pattern_view(p1)));
                            }
                            acc.push(p1);
                            at = r1;
                        },
                    },
                }
            }
        },
    }
}

// ---------------------------------------------------------------------------
// Expressions
// ---------------------------------------------------------------------------

pub type ExprFieldV = (Option<Seq<char>>, ExprV);

/// What may follow an expression: a call, a record argument, a field, or a
/// method call.
pub enum PostfixV {
    Call(Seq<ArgV>),
    Record(Seq<ExprFieldV>),
    Field(Seq<char>),
    Method(Seq<char>, ValueFlow, Seq<ArgV>),
}

pub open spec fn apply_postfix_v(callee: ExprV, post: PostfixV) -> ExprV {
    match post {
        PostfixV::Call(args) => ExprV::Call(Box::new(callee), args),
        PostfixV::Record(fields) => ExprV::Call(
            Box::new(callee),
            seq![ArgV { flow: ValueFlow::ReturnedUnchanged, label: None, value: ExprV::Product(fields) }],
        ),
        PostfixV::Field(name) => ExprV::FieldAccess(Box::new(callee), name),
        PostfixV::Method(name, flow, args) => ExprV::MethodCall(Box::new(callee), flow, name, args),
    }
}

/// A parenthesized expression list: unit when empty, the expression itself
/// when alone, a positional product otherwise.
pub open spec fn tuple_group_expr_v(es: Seq<ExprV>) -> ExprV {
    if es.len() == 0 {
        ExprV::Unit
    } else if es.len() == 1 {
        es[0]
    } else {
        ExprV::Product(es.map_values(|e: ExprV| (None::<Seq<char>>, e)))
    }
}

pub open spec fn kw_if() -> Seq<char> {
    seq!['i', 'f']
}

pub open spec fn kw_else() -> Seq<char> {
    seq!['e', 'l', 's', 'e']
}

pub open spec fn kw_match() -> Seq<char> {
    seq!['m', 'a', 't', 'c', 'h']
}

pub open spec fn kw_let() -> Seq<char> {
    seq!['l', 'e', 't']
}

pub open spec fn fat_arrow() -> Seq<char> {
    seq!['=', '>']
}

/// A comparison operator.
pub open spec fn sp_compare_op(s: Seq<char>, p: int) -> Option<(BinaryOp, int)> {
    match sp_op(s, p, seq!['=', '=']) {
        Some(q) => Some((BinaryOp::Eq, q)),
        None => match sp_op(s, p, seq!['!', '=']) {
            Some(q) => Some((BinaryOp::NotEq, q)),
            None => match sp_op(s, p, seq!['<', '=']) {
                Some(q) => Some((BinaryOp::Lte, q)),
                None => match sp_op(s, p, seq!['>', '=']) {
                    Some(q) => Some((BinaryOp::Gte, q)),
                    None => match sp_op(s, p, seq!['<']) {
                        Some(q) => Some((BinaryOp::Lt, q)),
                        None => match sp_op(s, p, seq!['>']) {
                            Some(q) => Some((BinaryOp::Gt, q)),
                            None => None,
                        },
                    },
                },
            },
        },
    }
}

/// `+` or `-`.
pub open spec fn sp_sum_op(s: Seq<char>, p: int) -> Option<(BinaryOp, int)> {
    match sp_op(s, p, seq!['+']) {
        Some(q) => Some((BinaryOp::Add, q)),
        None => match sp_op(s, p, seq!['-']) {
            Some(q) => Some((BinaryOp::Sub, q)),
            None => None,
        },
    }
}

/// `*` or `/`.
pub open spec fn sp_product_op(s: Seq<char>, p: int) -> Option<(BinaryOp, int)> {
    match sp_op(s, p, seq!['*']) {
        Some(q) => Some((BinaryOp::Mul, q)),
        None => match sp_op(s, p, seq!['/']) {
            Some(q) => Some((BinaryOp::Div, q)),
            None => None,
        },
    }
}

/// An expression: sums compared left to right.
pub open spec fn sp_expr(s: Seq<char>, p: int) -> Option<(ExprV, int)>
    decreases s.len() - p, 30int,
{
    match sp_sum(s, p) {
        None => None,
        Some((lhs, q)) => if fwd(s, p, q) {
            Some(sp_compare_rest(s, q, lhs))
        } else {
            None
        },
    }
}

pub open spec fn sp_compare_rest(s: Seq<char>, p: int, lhs: ExprV) -> (ExprV, int)
    decreases s.len() - p, 31int,
{
    match sp_compare_op(s, p) {
        None => (lhs, p),
        Some((op, q)) => if fwd(s, p, q) {
            match sp_sum(s, q) {
                None => (lhs, p),
                Some((rhs, r)) => if fwd(s, q, r) {
                    sp_compare_rest(s, r, ExprV::Binary(Box::new(lhs), op, Box::new(rhs)))
                } else {
                    (lhs, p)
                },
            }
        } else {
            (lhs, p)
        },
    }
}

/// Products added and subtracted left to right.
pub open spec fn sp_sum(s: Seq<char>, p: int) -> Option<(ExprV, int)>
    decreases s.len() - p, 29int,
{
    match sp_product(s, p) {
        None => None,
        Some((lhs, q)) => if fwd(s, p, q) {
            Some(sp_sum_rest(s, q, lhs))
        } else {
            None
        },
    }
}

pub open spec fn sp_sum_rest(s: Seq<char>, p: int, lhs: ExprV) -> (ExprV, int)
    decreases s.len() - p, 31int,
{
    match sp_sum_op(s, p) {
        None => (lhs, p),
        Some((op, q)) => if fwd(s, p, q) {
            match sp_product(s, q) {
                None => (lhs, p),
                Some((rhs, r)) => if fwd(s, q, r) {
                    sp_sum_rest(s, r, ExprV::Binary(Box::new(lhs), op, Box::new(rhs)))
                } else {
                    (lhs, p)
                },
            }
        } else {
            (lhs, p)
        },
    }
}

/// Postfix chains multiplied and divided left to right.
pub open spec fn sp_product(s: Seq<char>, p: int) -> Option<(ExprV, int)>
    decreases s.len() - p, 28int,
{
    match sp_chain(s, p) {
        None => None,
        Some((lhs, q)) => if fwd(s, p, q) {
            Some(sp_product_rest(s, q, lhs))
        } else {
            None
        },
    }
}

pub open spec fn sp_product_rest(s: Seq<char>, p: int, lhs: ExprV) -> (ExprV, int)
    decreases s.len() - p, 31int,
{
    match sp_product_op(s, p) {
        None => (lhs, p),
        Some((op, q)) => if fwd(s, p, q) {
            match sp_chain(s, q) {
                None => (lhs, p),
                Some((rhs, r)) => if fwd(s, q, r) {
                    sp_product_rest(s, r, ExprV::Binary(Box::new(lhs), op, Box::new(rhs)))
                } else {
                    (lhs, p)
                },
            }
        } else {
            (lhs, p)
        },
    }
}

/// An atom followed by postfix calls, record arguments, fields and method
/// calls.
pub open spec fn sp_chain(s: Seq<char>, p: int) -> Option<(ExprV, int)>
    decreases s.len() - p, 27int,
{
    match sp_atom(s, p) {
        None => None,
        Some((a, q)) => if fwd(s, p, q) {
            Some(sp_postfix_rest(s, q, a))
        } else {
            None
        },
    }
}

pub open spec fn sp_postfix_rest(s: Seq<char>, p: int, callee: ExprV) -> (ExprV, int)
    decreases s.len() - p, 25int,
{
    match sp_postfix(s, p) {
        None => (callee, p),
        Some((post, q)) => if fwd(s, p, q) {
            sp_postfix_rest(s, q, apply_postfix_v(callee, post))
        } else {
            (callee, p)
        },
    }
}

/// `.name` with an optional flow marker and arguments, `(args)`, or
/// `{ fields }`.
pub open spec fn sp_postfix(s: Seq<char>, p: int) -> Option<(PostfixV, int)>
    decreases s.len() - p, 24int,
{
    let method = match sp_sym(s, p, '.') {
        None => None,
        Some(q) => match sp_ident(s, q) {
            None => None,
            Some((name, r)) => if fwd(s, p, r) {
                let (flow, r1) = sp_flow(s, r);
                if r <= r1 <= s.len() {
                    match sp_args(s, r1) {
                        Some((args, r2)) => Some((PostfixV::Method(name, flow, args), r2)),
                        None => Some((PostfixV::Field(name), r)),
                    }
                } else {
                    None
                }
            } else {
                None
            },
        },
    };
    match method {
        Some(x) => Some(x),
        None => if line_break_before(s, p) {
            None
        } else {
            match sp_args(s, p) {
                Some((args, q)) => Some((PostfixV::Call(args), q)),
                None => match sp_braced_fields(s, p) {
                    Some((fields, q)) => Some((PostfixV::Record(fields), q)),
                    None => None,
                },
            }
        },
    }
}

/// A line ends in the whitespace just before `p`. Arguments and record
/// fields must start on the line of what they apply to, and an expression
/// statement must end its line.
pub open spec fn line_break_before(s: Seq<char>, p: int) -> bool
    decreases p,
{
    if p <= 0 || p > s.len() {
        false
    } else if s[p - 1] == '\n' {
        true
    } else if is_ws(s[p - 1]) {
        line_break_before(s, p - 1)
    } else {
        false
    }
}

/// `( arg, ... )`.
pub open spec fn sp_args(s: Seq<char>, p: int) -> Option<(Seq<ArgV>, int)>
    decreases s.len() - p, 23int,
{
    match sp_sym(s, p, '(') {
        None => None,
        Some(q) => if fwd(s, p, q) {
            let (args, q1) = sp_arg_list(s, q);
            match sp_sym(s, q1, ')') {
                Some(e) => Some((args, e)),
                None => None,
            }
        } else {
            None
        },
    }
}

pub open spec fn sp_arg_list(s: Seq<char>, p: int) -> (Seq<ArgV>, int)
    decreases s.len() - p, 40int,
{
    match sp_arg(s, p) {
        None => (Seq::empty(), p),
        Some((a, q)) => if fwd(s, p, q) {
            sp_arg_rest(s, q, seq![a])
        } else {
            (Seq::empty(), p)
        },
    }
}

pub open spec fn sp_arg_rest(s: Seq<char>, p: int, acc: Seq<ArgV>) -> (Seq<ArgV>, int)
    decreases s.len() - p, 41int,
{
    match sp_sym(s, p, ',') {
        None => (acc, p),
        Some(q) => if fwd(s, p, q) {
            match sp_arg(s, q) {
                None => (acc, q),
                Some((a, r)) => if fwd(s, q, r) {
                    sp_arg_rest(s, r, acc.push(a))
                } else {
                    (acc, q)
                },
            }
        } else {
            (acc, p)
        },
    }
}

/// A flow marker, then `label: expr` or `expr`.
pub open spec fn sp_arg(s: Seq<char>, p: int) -> Option<(ArgV, int)>
    decreases s.len() - p, 39int,
{
    let (flow, q) = sp_flow(s, p);
    if p <= q <= s.len() {
        let labelled = match sp_ident(s, q) {
            None => None,
            Some((label, q1)) => match sp_sym(s, q1, ':') {
                None => None,
                Some(q2) => if fwd(s, p, q2) {
                    match sp_expr(s, q2) {
                        None => None,
                        Some((v, e)) => Some((ArgV { flow, label: Some(label), value: v }, e)),
                    }
                } else {
                    None
                },
            },
        };
        match labelled {
            Some(x) => Some(x),
            None => match sp_expr(s, q) {
                None => None,
                Some((v, e)) => Some((ArgV { flow, label: None, value: v }, e)),
            },
        }
    } else {
        None
    }
}

/// An integer, a string, `if`, `match`, a record, a block, a name, or a
/// parenthesized list.
pub open spec fn sp_atom(s: Seq<char>, p: int) -> Option<(ExprV, int)>
    decreases s.len() - p, 26int,
{
    match sp_int(s, p) {
        Some((v, q)) => Some((ExprV::Int(v), q)),
        None => match sp_string(s, p) {
            Some((text, q)) => Some((ExprV::Str(text), q)),
            None => match sp_if(s, p) {
                Some(x) => Some(x),
                None => match sp_match(s, p) {
                    Some(x) => Some(x),
                    None => match sp_braced_fields(s, p) {
                        Some((fields, q)) => Some((ExprV::Product(fields), q)),
                        None => match sp_block(s, p) {
                            Some((b, q)) => Some((ExprV::Block(b), q)),
                            None => match sp_shorthand_record(s, p) {
                                Some(x) => Some(x),
                                None => match sp_ident(s, p) {
                                    Some((n, q)) => Some((ExprV::Name(n), q)),
                                    None => sp_paren_expr(s, p),
                                },
                            },
                        },
                    },
                },
            },
        },
    }
}

/// `if cond { ... } else { ... }`, where the else branch may itself be an
/// `if`.
pub open spec fn sp_if(s: Seq<char>, p: int) -> Option<(ExprV, int)>
    decreases s.len() - p, 25int,
{
    match sp_keyword(s, p, kw_if()) {
        None => None,
        Some(q) => if fwd(s, p, q) {
            match sp_expr(s, q) {
                None => None,
                Some((cond, q1)) => if fwd(s, p, q1) {
                    match sp_block(s, q1) {
                        None => None,
                        Some((then_branch, q2)) => if fwd(s, p, q2) {
                            match sp_keyword(s, q2, kw_else()) {
                                None => None,
                                Some(q3) => if fwd(s, p, q3) {
                                    match sp_block(s, q3) {
                                        Some((else_branch, e)) => Some(
                                            (ExprV::If(Box::new(cond), then_branch, else_branch), e),
                                        ),
                                        None => match sp_if(s, q3) {
                                            Some((nested, e)) => Some(
                                                (
                                                    ExprV::If(
                                                        Box::new(cond),
                                                        then_branch,
                                                        BlockV { lets: Seq::empty(), result: Some(Box::new(nested)) },
                                                    ),
                                                    e,
                                                ),
                                            ),
                                            None => None,
                                        },
                                    }
                                } else {
                                    None
                                },
                            }
                        } else {
                            None
                        },
                    }
                } else {
                    None
                },
            }
        } else {
            None
        },
    }
}

/// `match expr { arm, ... }`.
pub open spec fn sp_match(s: Seq<char>, p: int) -> Option<(ExprV, int)>
    decreases s.len() - p, 25int,
{
    match sp_keyword(s, p, kw_match()) {
        None => None,
        Some(q) => if fwd(s, p, q) {
            match sp_expr(s, q) {
                None => None,
                Some((scrutinee, q1)) => match sp_sym(s, q1, '{') {
                    None => None,
                    Some(q2) => if fwd(s, p, q2) {
                        let (arms, q3) = sp_arms(s, q2);
                        match sp_sym(s, q3, '}') {
                            Some(e) => Some((ExprV::Match(Box::new(scrutinee), arms), e)),
                            None => None,
                        }
                    } else {
                        None
                    },
                },
            }
        } else {
            None
        },
    }
}

pub open spec fn sp_arms(s: Seq<char>, p: int) -> (Seq<ArmV>, int)
    decreases s.len() - p, 40int,
{
    match sp_arm(s, p) {
        None => (Seq::empty(), p),
        Some((a, q)) => if fwd(s, p, q) {
            sp_arms_rest(s, q, seq![a])
        } else {
            (Seq::empty(), p)
        },
    }
}

pub open spec fn sp_arms_rest(s: Seq<char>, p: int, acc: Seq<ArmV>) -> (Seq<ArmV>, int)
    decreases s.len() - p, 41int,
{
    match sp_sym(s, p, ',') {
        None => (acc, p),
        Some(q) => if fwd(s, p, q) {
            match sp_arm(s, q) {
                None => (acc, q),
                Some((a, r)) => if fwd(s, q, r) {
                    sp_arms_rest(s, r, acc.push(a))
                } else {
                    (acc, q)
                },
            }
        } else {
            (acc, p)
        },
    }
}

/// The variant of an arm: `.name` or `name`.
pub open spec fn sp_arm_variant(s: Seq<char>, p: int) -> Option<(Seq<char>, int)> {
    match sp_sym(s, p, '.') {
        Some(q) => match sp_ident(s, q) {
            Some(x) => Some(x),
            None => sp_ident(s, p),
        },
        None => sp_ident(s, p),
    }
}

/// The optional payload pattern of an arm.
pub open spec fn sp_arm_payload(s: Seq<char>, p: int) -> (Option<PatternV>, int) {
    match sp_tuple_pattern(s, p) {
        Some((pt, q)) => (Some(pt), q),
        None => match sp_record_pattern(s, p) {
            Some((pt, q)) => (Some(pt), q),
            None => (None, p),
        },
    }
}

/// `variant payload => body` (or `:` in place of `=>`).
pub open spec fn sp_arm(s: Seq<char>, p: int) -> Option<(ArmV, int)>
    decreases s.len() - p, 39int,
{
    match sp_arm_variant(s, p) {
        None => None,
        Some((variant, q)) => {
            let (payload, q1) = sp_arm_payload(s, q);
            let sep = match sp_op(s, q1, fat_arrow()) {
                Some(q2) => Some(q2),
                None => sp_sym(s, q1, ':'),
            };
            match sep {
                None => None,
                Some(q2) => if fwd(s, p, q2) {
                    match sp_expr(s, q2) {
                        None => None,
                        Some((body, e)) => Some((ArmV { variant, payload, body }, e)),
                    }
                } else {
                    None
                },
            }
        },
    }
}

/// `{ name: expr, ... }`: the fields.
pub open spec fn sp_braced_fields(s: Seq<char>, p: int) -> Option<(Seq<ExprFieldV>, int)>
    decreases s.len() - p, 23int,
{
    match sp_sym(s, p, '{') {
        None => None,
        Some(q) => if fwd(s, p, q) {
            let (fields, q1) = sp_expr_fields(s, q);
            match sp_sym(s, q1, '}') {
                Some(e) => Some((fields, e)),
                None => None,
            }
        } else {
            None
        },
    }
}

pub open spec fn sp_expr_field(s: Seq<char>, p: int) -> Option<(ExprFieldV, int)>
    decreases s.len() - p, 39int,
{
    match sp_ident(s, p) {
        None => None,
        Some((n, q)) => match sp_sym(s, q, ':') {
            None => None,
            Some(q1) => if fwd(s, p, q1) {
                match sp_expr(s, q1) {
                    None => None,
                    Some((v, e)) => Some(((Some(n), v), e)),
                }
            } else {
                None
            },
        },
    }
}

pub open spec fn sp_expr_fields(s: Seq<char>, p: int) -> (Seq<ExprFieldV>, int)
    decreases s.len() - p, 40int,
{
    match sp_expr_field(s, p) {
        None => (Seq::empty(), p),
        Some((f, q)) => if fwd(s, p, q) {
            sp_expr_fields_rest(s, q, seq![f])
        } else {
            (Seq::empty(), p)
        },
    }
}

pub open spec fn sp_expr_fields_rest(s: Seq<char>, p: int, acc: Seq<ExprFieldV>) -> (Seq<ExprFieldV>, int)
    decreases s.len() - p, 41int,
{
    match sp_sym(s, p, ',') {
        None => (acc, p),
        Some(q) => if fwd(s, p, q) {
            match sp_expr_field(s, q) {
                None => (acc, q),
                Some((f, r)) => if fwd(s, q, r) {
                    sp_expr_fields_rest(s, r, acc.push(f))
                } else {
                    (acc, q)
                },
            }
        } else {
            (acc, p)
        },
    }
}

/// Record fields written by name alone: each takes the value bound to its
/// name.
pub open spec fn shorthand_fields(names: Seq<Seq<char>>) -> Seq<ExprFieldV> {
    names.map_values(|n: Seq<char>| (Some(n), ExprV::Name(n)))
}

/// `{ name, name, ... }`, at least two names: a record of the values bound
/// to them. A single braced name is a block.
pub open spec fn sp_shorthand_record(s: Seq<char>, p: int) -> Option<(ExprV, int)> {
    match sp_sym(s, p, '{') {
        None => None,
        Some(q) => match sp_ident(s, q) {
            None => None,
            Some((n, q1)) => match sp_sym(s, q1, ',') {
                None => None,
                Some(q2) => match sp_ident(s, q2) {
                    None => None,
                    Some((m, q3)) => {
                        let (names, q4) = sp_names_rest(s, q3, seq![n, m]);
                        match sp_sym(s, q4, '}') {
                            Some(e) => Some((ExprV::Product(shorthand_fields(names)), e)),
                            None => None,
                        }
                    },
                },
            },
        },
    }
}

/// `( expr, ... )`.
pub open spec fn sp_paren_expr(s: Seq<char>, p: int) -> Option<(ExprV, int)>
    decreases s.len() - p, 24int,
{
    match sp_sym(s, p, '(') {
        None => None,
        Some(q) => if fwd(s, p, q) {
            let (es, q1) = sp_exprs(s, q);
            match sp_sym(s, q1, ')') {
                Some(e) => Some((tuple_group_expr_v(es), e)),
                None => None,
            }
        } else {
            None
        },
    }
}

pub open spec fn sp_exprs(s: Seq<char>, p: int) -> (Seq<ExprV>, int)
    decreases s.len() - p, 40int,
{
    match sp_expr(s, p) {
        None => (Seq::empty(), p),
        Some((v, q)) => if fwd(s, p, q) {
            sp_exprs_rest(s, q, seq![v])
        } else {
            (Seq::empty(), p)
        },
    }
}

pub open spec fn sp_exprs_rest(s: Seq<char>, p: int, acc: Seq<ExprV>) -> (Seq<ExprV>, int)
    decreases s.len() - p, 41int,
{
    match sp_sym(s, p, ',') {
        None => (acc, p),
        Some(q) => if fwd(s, p, q) {
            match sp_expr(s, q) {
                None => (acc, q),
                Some((v, r)) => if fwd(s, q, r) {
                    sp_exprs_rest(s, r, acc.push(v))
                } else {
                    (acc, q)
                },
            }
        } else {
            (acc, p)
        },
    }
}

/// `{ let ... let ... expr }`: let statements, then an optional result.
pub open spec fn sp_block(s: Seq<char>, p: int) -> Option<(BlockV, int)>
    decreases s.len() - p, 24int,
{
    match sp_sym(s, p, '{') {
        None => None,
        Some(q) => if fwd(s, p, q) {
            let (lets, q1) = sp_lets(s, q, Seq::empty());
            if p < q1 <= s.len() {
                let (result, q2) = match sp_expr(s, q1) {
                    Some((v, e)) => (Some(Box::new(v)), e),
                    None => (None, q1),
                };
                match sp_sym(s, q2, '}') {
                    Some(e) => Some((BlockV { lets, result }, e)),
                    None => None,
                }
            } else {
                None
            }
        } else {
            None
        },
    }
}

/// Statements, one after another.
pub open spec fn sp_lets(s: Seq<char>, p: int, acc: Seq<LetV>) -> (Seq<LetV>, int)
    decreases s.len() - p, 40int,
{
    match sp_stmt(s, p) {
        None => (acc, p),
        Some((l, q)) => if fwd(s, p, q) {
            sp_lets(s, q, acc.push(l))
        } else {
            (acc, p)
        },
    }
}

/// The statement form of an expression evaluated for its effect: a `let`
/// of its `unit` value to the unit pattern.
pub open spec fn expr_stmt_v(value: ExprV) -> LetV {
    LetV { pattern: PatternV::Unit, ty: Some(TypeV::Unit), value }
}

/// A statement: a `let`, or an expression that ends its line and is not
/// the last thing in its block.
pub open spec fn sp_stmt(s: Seq<char>, p: int) -> Option<(LetV, int)>
    decreases s.len() - p, 39int,
{
    match sp_let(s, p) {
        Some(x) => Some(x),
        None => match sp_expr(s, p) {
            Some((v, e)) => if line_break_before(s, e) && sp_sym(s, e, '}') is None {
                Some((expr_stmt_v(v), e))
            } else {
                None
            },
            None => None,
        },
    }
}

/// `let pattern: Type = expr`, the type optional.
pub open spec fn sp_let(s: Seq<char>, p: int) -> Option<(LetV, int)>
    decreases s.len() - p, 38int,
{
    match sp_keyword(s, p, kw_let()) {
        None => None,
        Some(q) => match sp_pattern(s, q) {
            None => None,
            Some((pattern, q1)) => {
                let (ty, q2) = match sp_sym(s, q1, ':') {
                    None => (None, q1),
                    Some(q3) => match sp_type(s, q3) {
                        Some((t, e)) => (Some(t), e),
                        None => (None, q1),
                    },
                };
                match sp_sym(s, q2, '=') {
                    None => None,
                    Some(q4) => if fwd(s, p, q4) {
                        match sp_expr(s, q4) {
                            None => None,
                            Some((value, e)) => Some((LetV { pattern, ty, value }, e)),
                        }
                    } else {
                        None
                    },
                }
            },
        },
    }
}

// ---------------------------------------------------------------------------
// Expressions, executed
// ---------------------------------------------------------------------------

pub open spec fn oe(r: Option<(Expr, usize)>) -> Option<(ExprV, int)> {
    match r {
        Some((e, q)) => Some((expr_view(e), q as int)),
        None => None,
    }
}

pub open spec fn moves(s: Seq<char>, p: usize, r: Option<(Expr, usize)>) -> bool {
    r matches Some((_, q)) ==> p < q <= s.len()
}

enum Postfix {
    Call(Vec<Arg>),
    Record(Vec<Field<Expr>>),
    Field(String),
    Method(String, ValueFlow, Vec<Arg>),
}

spec fn postfix_view(post: Postfix) -> PostfixV {
    match post {
        Postfix::Call(args) => PostfixV::Call(args_view(args@)),
        Postfix::Record(fields) => PostfixV::Record(expr_fields_view(fields@)),
        Postfix::Field(name) => PostfixV::Field(name@),
        Postfix::Method(name, flow, args) => PostfixV::Method(name@, flow, args_view(args@)),
    }
}

proof fn lemma_product_expr_view(fs: Vec<Field<Expr>>)
    ensures
        expr_view(Expr::Product(fs)) == ExprV::Product(expr_fields_view(fs@)),
{
    match expr_view(Expr::Product(fs)) {
        ExprV::Product(v) => {
            assert(v =~= expr_fields_view(fs@));
        },
        _ => {},
    }
}

proof fn lemma_call_view(callee: Box<Expr>, args: Vec<Arg>)
    ensures
        expr_view(Expr::Call { callee, args }) == ExprV::Call(Box::new(expr_view(*callee)), args_view(args@)),
{
    match expr_view(Expr::Call { callee, args }) {
        ExprV::Call(_, v) => {
            assert(v =~= args_view(args@));
        },
        _ => {},
    }
}

proof fn lemma_method_view(receiver: Box<Expr>, flow: ValueFlow, method: String, args: Vec<Arg>)
    ensures
        expr_view(Expr::MethodCall { receiver, receiver_flow: flow, method, args }) == ExprV::MethodCall(
            Box::new(expr_view(*receiver)),
            flow,
            method@,
            args_view(args@),
        ),
{
    match expr_view(Expr::MethodCall { receiver, receiver_flow: flow, method, args }) {
        ExprV::MethodCall(_, _, _, v) => {
            assert(v =~= args_view(args@));
        },
        _ => {},
    }
}

proof fn lemma_match_view(scrutinee: Box<Expr>, arms: Vec<MatchArm>)
    ensures
        expr_view(Expr::Match { scrutinee, arms }) == ExprV::Match(Box::new(expr_view(*scrutinee)), arms_view(arms@)),
{
    match expr_view(Expr::Match { scrutinee, arms }) {
        ExprV::Match(_, v) => {
            assert(v =~= arms_view(arms@));
        },
        _ => {},
    }
}

proof fn lemma_block_view(b: Block)
    ensures
        block_view(b) == (BlockV {
            lets: lets_view(b.lets@),
            result: match b.result {
                Some(e) => Some(Box::new(expr_view(*e))),
                None => None,
            },
        }),
{
    assert(block_view(b).lets =~= lets_view(b.lets@));
}

fn apply_postfix(callee: Expr, post: Postfix) -> (e: Expr)
    ensures
        expr_view(e) == apply_postfix_v(expr_view(callee), postfix_view(post)),
{
    match post {
        Postfix::Call(args) => {
            let callee = Box::new(callee);
            proof {
                lemma_call_view(callee, args);
            }
            Expr::Call { callee, args }
        },
        Postfix::Record(fields) => {
            proof {
                lemma_product_expr_view(fields);
            }
            let arg = Arg { flow: ValueFlow::ReturnedUnchanged, label: None, value: Expr::Product(fields) };
            let args = vec![arg];
            let callee = Box::new(callee);
            proof {
                lemma_call_view(callee, args);
                assert(args_view(args@) =~= seq![
                    ArgV {
                        flow: ValueFlow::ReturnedUnchanged,
                        label: None,
                        value: ExprV::Product(expr_fields_view(fields@)),
                    },
                ]);
            }
            Expr::Call { callee, args }
        },
        Postfix::Field(name) => Expr::FieldAccess { receiver: Box::new(callee), field: name },
        Postfix::Method(name, flow, args) => {
            let receiver = Box::new(callee);
            proof {
                lemma_method_view(receiver, flow, name, args);
            }
            Expr::MethodCall { receiver, receiver_flow: flow, method: name, args }
        },
    }
}

fn make_tuple_expr(es: Vec<Expr>) -> (e: Expr)
    ensures
        expr_view(e) == tuple_group_expr_v(exprs_view(es@)),
{
    if es.len() == 0 {
        Expr::Unit
    } else if es.len() == 1 {
        let mut es = es;
        let ghost v = es@;
        let e = es.pop().unwrap();
        assert(exprs_view(v)[0] == expr_view(e));
        e
    } else {
        let ghost all = exprs_view(es@);
        let mut rest = es;
        let mut fields: Vec<Field<Expr>> = Vec::new();
        let ghost n = rest@.len();
        while rest.len() > 0
            invariant
                fields@.len() + rest@.len() == n,
                all.len() == n,
                exprs_view(rest@) == all.subrange(fields@.len() as int, n as int),
                expr_fields_view(fields@) == all.subrange(0, fields@.len() as int).map_values(
                    |e: ExprV| (None::<Seq<char>>, e),
                ),
            decreases rest@.len(),
        {
            let ghost k = fields@.len() as int;
            let ghost rest0 = rest@;
            let ghost f0 = fields@;
            let e = rest.remove(0);
            assert(expr_view(e) == all[k]) by {
                assert(exprs_view(rest0)[0] == expr_view(e));
            }
            let ghost ev = expr_view(e);
            fields.push(Field { name: None, value: e });
            proof {
                assert(exprs_view(rest@) =~= all.subrange(k + 1, n as int)) by {
                    assert forall|j: int| 0 <= j < rest@.len() implies exprs_view(rest@)[j] == all[k + 1 + j] by {
                        assert(rest@[j] == rest0[j + 1]);
                        assert(exprs_view(rest0)[j + 1] == all[k + 1 + j]);
                    }
                }
                assert(expr_fields_view(fields@) =~= expr_fields_view(f0).push((None::<Seq<char>>, ev)));
                assert(all.subrange(0, k + 1).map_values(|e: ExprV| (None::<Seq<char>>, e)) =~= all.subrange(
                    0,
                    k,
                ).map_values(|e: ExprV| (None::<Seq<char>>, e)).push((None::<Seq<char>>, all[k])));
            }
        }
        proof {
            assert(all.subrange(0, n as int) =~= all);
            lemma_product_expr_view(fields);
        }
        Expr::Product(fields)
    }
}

fn word1(a: char) -> (w: Vec<char>)
    ensures
        w@ == seq![a],
{
    let w = vec![a];
    assert(w@ =~= seq![a]);
    w
}

fn word2(a: char, b: char) -> (w: Vec<char>)
    ensures
        w@ == seq![a, b],
{
    let w = vec![a, b];
    assert(w@ =~= seq![a, b]);
    w
}

fn compare_op(s: &Vec<char>, p: usize) -> (r: Option<(BinaryOp, usize)>)
    requires
        p <= s@.len(),
    ensures
        match sp_compare_op(s@, p as int) {
            Some((op, q)) => r matches Some((op2, q2)) && op2 == op && q2 == q && p < q <= s@.len(),
            None => r is None,
        },
{
    if let Some(q) = parse_op(s, p, &word2('=', '=')) {
        return Some((BinaryOp::Eq, q));
    }
    if let Some(q) = parse_op(s, p, &word2('!', '=')) {
        return Some((BinaryOp::NotEq, q));
    }
    if let Some(q) = parse_op(s, p, &word2('<', '=')) {
        return Some((BinaryOp::Lte, q));
    }
    if let Some(q) = parse_op(s, p, &word2('>', '=')) {
        return Some((BinaryOp::Gte, q));
    }
    if let Some(q) = parse_op(s, p, &word1('<')) {
        return Some((BinaryOp::Lt, q));
    }
    if let Some(q) = parse_op(s, p, &word1('>')) {
        return Some((BinaryOp::Gt, q));
    }
    None
}

fn sum_op(s: &Vec<char>, p: usize) -> (r: Option<(BinaryOp, usize)>)
    requires
        p <= s@.len(),
    ensures
        match sp_sum_op(s@, p as int) {
            Some((op, q)) => r matches Some((op2, q2)) && op2 == op && q2 == q && p < q <= s@.len(),
            None => r is None,
        },
{
    if let Some(q) = parse_op(s, p, &word1('+')) {
        return Some((BinaryOp::Add, q));
    }
    if let Some(q) = parse_op(s, p, &word1('-')) {
        return Some((BinaryOp::Sub, q));
    }
    None
}

fn product_op(s: &Vec<char>, p: usize) -> (r: Option<(BinaryOp, usize)>)
    requires
        p <= s@.len(),
    ensures
        match sp_product_op(s@, p as int) {
            Some((op, q)) => r matches Some((op2, q2)) && op2 == op && q2 == q && p < q <= s@.len(),
            None => r is None,
        },
{
    if let Some(q) = parse_op(s, p, &word1('*')) {
        return Some((BinaryOp::Mul, q));
    }
    if let Some(q) = parse_op(s, p, &word1('/')) {
        return Some((BinaryOp::Div, q));
    }
    None
}

#[verifier::loop_isolation(false)]
fn parse_expr(s: &Vec<char>, p: usize) -> (r: Option<(Expr, usize)>)
    requires
        p <= s@.len(),
    ensures
        oe(r) == sp_expr(s@, p as int),
        moves(s@, p, r),
    decreases s@.len() - p, 30int,
{
    match parse_sum(s, p) {
        None => None,
        Some((lhs, q)) => {
            let mut lhs = lhs;
            let mut at = q;
            let ghost start = sp_compare_rest(s@, q as int, expr_view(lhs));
            loop
                invariant
                    p < at <= s@.len(),
                    start == sp_compare_rest(s@, at as int, expr_view(lhs)),
                decreases s@.len() - at,
            {
                match compare_op(s, at) {
                    None => {
                        return Some((lhs, at));
                    },
                    Some((op, q1)) => match parse_sum(s, q1) {
                        None => {
                            return Some((lhs, at));
                        },
                        Some((rhs, r1)) => {
                            lhs = Expr::Binary { lhs: Box::new(lhs), op, rhs: Box::new(rhs) };
                            at = r1;
                        },
                    },
                }
            }
        },
    }
}

#[verifier::loop_isolation(false)]
fn parse_sum(s: &Vec<char>, p: usize) -> (r: Option<(Expr, usize)>)
    requires
        p <= s@.len(),
    ensures
        oe(r) == sp_sum(s@, p as int),
        moves(s@, p, r),
    decreases s@.len() - p, 29int,
{
    match parse_product(s, p) {
        None => None,
        Some((lhs, q)) => {
            let mut lhs = lhs;
            let mut at = q;
            let ghost start = sp_sum_rest(s@, q as int, expr_view(lhs));
            loop
                invariant
                    p < at <= s@.len(),
                    start == sp_sum_rest(s@, at as int, expr_view(lhs)),
                decreases s@.len() - at,
            {
                match sum_op(s, at) {
                    None => {
                        return Some((lhs, at));
                    },
                    Some((op, q1)) => match parse_product(s, q1) {
                        None => {
                            return Some((lhs, at));
                        },
                        Some((rhs, r1)) => {
                            lhs = Expr::Binary { lhs: Box::new(lhs), op, rhs: Box::new(rhs) };
                            at = r1;
                        },
                    },
                }
            }
        },
    }
}

#[verifier::loop_isolation(false)]
fn parse_product(s: &Vec<char>, p: usize) -> (r: Option<(Expr, usize)>)
    requires
        p <= s@.len(),
    ensures
        oe(r) == sp_product(s@, p as int),
        moves(s@, p, r),
    decreases s@.len() - p, 28int,
{
    match parse_chain(s, p) {
        None => None,
        Some((lhs, q)) => {
            let mut lhs = lhs;
            let mut at = q;
            let ghost start = sp_product_rest(s@, q as int, expr_view(lhs));
            loop
                invariant
                    p < at <= s@.len(),
                    start == sp_product_rest(s@, at as int, expr_view(lhs)),
                decreases s@.len() - at,
            {
                match product_op(s, at) {
                    None => {
                        return Some((lhs, at));
                    },
                    Some((op, q1)) => match parse_chain(s, q1) {
                        None => {
                            return Some((lhs, at));
                        },
                        Some((rhs, r1)) => {
                            lhs = Expr::Binary { lhs: Box::new(lhs), op, rhs: Box::new(rhs) };
                            at = r1;
                        },
                    },
                }
            }
        },
    }
}

#[verifier::loop_isolation(false)]
fn parse_chain(s: &Vec<char>, p: usize) -> (r: Option<(Expr, usize)>)
    requires
        p <= s@.len(),
    ensures
        oe(r) == sp_chain(s@, p as int),
        moves(s@, p, r),
    decreases s@.len() - p, 27int,
{
    match parse_atom(s, p) {
        None => None,
        Some((a, q)) => {
            let mut callee = a;
            let mut at = q;
            let ghost start = sp_postfix_rest(s@, q as int, expr_view(callee));
            loop
                invariant
                    p < at <= s@.len(),
                    start == sp_postfix_rest(s@, at as int, expr_view(callee)),
                decreases s@.len() - at,
            {
                match parse_postfix(s, at) {
                    None => {
                        return Some((callee, at));
                    },
                    Some((post, q1)) => {
                        callee = apply_postfix(callee, post);
                        at = q1;
                    },
                }
            }
        },
    }
}

fn parse_postfix(s: &Vec<char>, p: usize) -> (r: Option<(Postfix, usize)>)
    requires
        p <= s@.len(),
    ensures
        match sp_postfix(s@, p as int) {
            Some((post, q)) => r matches Some((x, q2)) && postfix_view(x) == post && q2 == q,
            None => r is None,
        },
        r matches Some((_, q)) ==> p < q <= s@.len(),
    decreases s@.len() - p, 24int,
{
    if let Some(q) = parse_sym(s, p, '.') {
        if let Some((name, r)) = parse_ident(s, q) {
            let (flow, r1) = parse_flow(s, r);
            match parse_args(s, r1) {
                Some((args, r2)) => {
                    return Some((Postfix::Method(name, flow, args), r2));
                },
                None => {
                    return Some((Postfix::Field(name), r));
                },
            }
        }
    }
    if line_break_at(s, p) {
        return None;
    }
    if let Some((args, q)) = parse_args(s, p) {
        return Some((Postfix::Call(args), q));
    }
    if let Some((fields, q)) = parse_braced_fields(s, p) {
        return Some((Postfix::Record(fields), q));
    }
    None
}

fn line_break_at(s: &Vec<char>, p: usize) -> (r: bool)
    requires
        p <= s@.len(),
    ensures
        r == line_break_before(s@, p as int),
{
    let mut i: usize = p;
    while i > 0
        invariant
            0 <= i <= p <= s@.len(),
            line_break_before(s@, p as int) == line_break_before(s@, i as int),
        decreases i,
    {
        if s[i - 1] == '\n' {
            return true;
        }
        if !char_is_ws(s[i - 1]) {
            return false;
        }
        i -= 1;
    }
    false
}

fn parse_args(s: &Vec<char>, p: usize) -> (r: Option<(Vec<Arg>, usize)>)
    requires
        p <= s@.len(),
    ensures
        match sp_args(s@, p as int) {
            Some((args, q)) => r matches Some((x, q2)) && args_view(x@) == args && q2 == q,
            None => r is None,
        },
        r matches Some((_, q)) ==> p < q <= s@.len(),
    decreases s@.len() - p, 23int,
{
    match parse_sym(s, p, '(') {
        None => None,
        Some(q) => {
            let (args, q1) = parse_arg_list(s, q);
            match parse_sym(s, q1, ')') {
                Some(e) => Some((args, e)),
                None => None,
            }
        },
    }
}

#[verifier::loop_isolation(false)]
fn parse_arg_list(s: &Vec<char>, p: usize) -> (r: (Vec<Arg>, usize))
    requires
        p <= s@.len(),
    ensures
        args_view(r.0@) == sp_arg_list(s@, p as int).0,
        r.1 == sp_arg_list(s@, p as int).1,
        p <= r.1 <= s@.len(),
    decreases s@.len() - p, 40int,
{
    match parse_arg(s, p) {
        None => (Vec::new(), p),
        Some((a, q)) => {
            let mut acc: Vec<Arg> = Vec::new();
            acc.push(a);
            let mut at = q;
            let ghost start = sp_arg_list(s@, p as int);
            proof {
                assert(args_view(acc@) =~= seq![arg_view(acc@[0])]);
            }
            loop
                invariant
                    p < at <= s@.len(),
                    start == sp_arg_rest(s@, at as int, args_view(acc@)),
                decreases s@.len() - at,
            {
                match parse_sym(s, at, ',') {
                    None => {
                        return (acc, at);
                    },
                    Some(q1) => match parse_arg(s, q1) {
                        None => {
                            return (acc, q1);
                        },
                        Some((a1, r1)) => {
                            proof {
                                assert(args_view(acc@.push(a1)) =~= args_view(acc@).push(arg_view(a1)));
                            }
                            acc.push(a1);
                            at = r1;
                        },
                    },
                }
            }
        },
    }
}

#[verifier::rlimit(50)]
fn parse_arg(s: &Vec<char>, p: usize) -> (r: Option<(Arg, usize)>)
    requires
        p <= s@.len(),
    ensures
        match sp_arg(s@, p as int) {
            Some((a, q)) => r matches Some((x, q2)) && arg_view(x) == a && q2 == q,
            None => r is None,
        },
        r matches Some((_, q)) ==> p < q <= s@.len(),
    decreases s@.len() - p, 39int,
{
    let (flow, q) = parse_flow(s, p);
    if let Some((label, q1)) = parse_ident(s, q) {
        if let Some(q2) = parse_sym(s, q1, ':') {
            if let Some((v, e)) = parse_expr(s, q2) {
                return Some((Arg { flow, label: Some(label), value: v }, e));
            }
        }
    }
    match parse_expr(s, q) {
        None => None,
        Some((v, e)) => Some((Arg { flow, label: None, value: v }, e)),
    }
}

fn parse_atom(s: &Vec<char>, p: usize) -> (r: Option<(Expr, usize)>)
    requires
        p <= s@.len(),
    ensures
        oe(r) == sp_atom(s@, p as int),
        moves(s@, p, r),
    decreases s@.len() - p, 26int,
{
    if let Some((v, q)) = parse_int(s, p) {
        return Some((Expr::Int(v), q));
    }
    if let Some((text, q)) = parse_string(s, p) {
        return Some((Expr::String(text), q));
    }
    if let Some(x) = parse_if(s, p) {
        return Some(x);
    }
    if let Some(x) = parse_match(s, p) {
        return Some(x);
    }
    if let Some((fields, q)) = parse_braced_fields(s, p) {
        proof {
            lemma_product_expr_view(fields);
        }
        return Some((Expr::Product(fields), q));
    }
    if let Some((b, q)) = parse_block(s, p) {
        return Some((Expr::Block(b), q));
    }
    if let Some(x) = parse_shorthand_record(s, p) {
        return Some(x);
    }
    if let Some((n, q)) = parse_ident(s, p) {
        return Some((Expr::Name(n), q));
    }
    parse_paren_expr(s, p)
}

fn shorthand_field(n: String) -> (f: Field<Expr>)
    ensures
        (opt_str(f.name), expr_view(f.value)) == (Some(n@), ExprV::Name(n@)),
{
    Field { name: Some(n.clone()), value: Expr::Name(n) }
}

fn parse_shorthand_record(s: &Vec<char>, p: usize) -> (r: Option<(Expr, usize)>)
    requires
        p <= s@.len(),
    ensures
        oe(r) == sp_shorthand_record(s@, p as int),
        moves(s@, p, r),
{
    let q = match parse_sym(s, p, '{') {
        Some(q) => q,
        None => {
            return None;
        },
    };
    let (n, q1) = match parse_ident(s, q) {
        Some(x) => x,
        None => {
            return None;
        },
    };
    let q2 = match parse_sym(s, q1, ',') {
        Some(q2) => q2,
        None => {
            return None;
        },
    };
    let (m, q3) = match parse_ident(s, q2) {
        Some(x) => x,
        None => {
            return None;
        },
    };
    let mut first: Vec<String> = Vec::new();
    first.push(n);
    first.push(m);
    proof {
        assert(strs(first@) =~= seq![first@[0]@, first@[1]@]);
    }
    let (names, q4) = names_rest(s, q3, first);
    let e = match parse_sym(s, q4, '}') {
        Some(e) => e,
        None => {
            return None;
        },
    };
    let mut fields: Vec<Field<Expr>> = Vec::new();
    let mut i: usize = 0;
    while i < names.len()
        invariant
            0 <= i <= names@.len(),
            expr_fields_view(fields@) == shorthand_fields(strs(names@).subrange(0, i as int)),
        decreases names@.len() - i,
    {
        let ghost f0 = fields@;
        fields.push(shorthand_field(names[i].clone()));
        proof {
            assert(strs(names@).subrange(0, i + 1) =~= strs(names@).subrange(0, i as int).push(names@[i as int]@));
            assert(expr_fields_view(fields@) =~= expr_fields_view(f0).push((Some(names@[i as int]@), ExprV::Name(names@[i as int]@))));
            assert(shorthand_fields(strs(names@).subrange(0, i + 1)) =~= shorthand_fields(strs(names@).subrange(0, i as int)).push((Some(names@[i as int]@), ExprV::Name(names@[i as int]@))));
        }
        i += 1;
    }
    proof {
        assert(strs(names@).subrange(0, names@.len() as int) =~= strs(names@));
        lemma_product_expr_view(fields);
    }
    Some((Expr::Product(fields), e))
}

fn word_if() -> (w: Vec<char>)
    ensures
        w@ == kw_if(),
{
    let w = vec!['i', 'f'];
    assert(w@ =~= kw_if());
    w
}

fn word_else() -> (w: Vec<char>)
    ensures
        w@ == kw_else(),
{
    let w = vec!['e', 'l', 's', 'e'];
    assert(w@ =~= kw_else());
    w
}

fn word_match() -> (w: Vec<char>)
    ensures
        w@ == kw_match(),
{
    let w = vec!['m', 'a', 't', 'c', 'h'];
    assert(w@ =~= kw_match());
    w
}

fn word_let() -> (w: Vec<char>)
    ensures
        w@ == kw_let(),
{
    let w = vec!['l', 'e', 't'];
    assert(w@ =~= kw_let());
    w
}

fn parse_if(s: &Vec<char>, p: usize) -> (r: Option<(Expr, usize)>)
    requires
        p <= s@.len(),
    ensures
        oe(r) == sp_if(s@, p as int),
        moves(s@, p, r),
    decreases s@.len() - p, 25int,
{
    let q = match parse_keyword(s, p, &word_if()) {
        Some(q) => q,
        None => {
            return None;
        },
    };
    let (cond, q1) = match parse_expr(s, q) {
        Some(x) => x,
        None => {
            return None;
        },
    };
    let (then_branch, q2) = match parse_block(s, q1) {
        Some(x) => x,
        None => {
            return None;
        },
    };
    let q3 = match parse_keyword(s, q2, &word_else()) {
        Some(q3) => q3,
        None => {
            return None;
        },
    };
    match parse_block(s, q3) {
        Some((else_branch, e)) => Some((Expr::If { condition: Box::new(cond), then_branch, else_branch }, e)),
        None => match parse_if(s, q3) {
            Some((nested, e)) => {
                let else_branch = Block { lets: Vec::new(), result: Some(Box::new(nested)) };
                proof {
                    lemma_block_view(else_branch);
                    assert(lets_view(else_branch.lets@) =~= Seq::<LetV>::empty());
                }
                Some((Expr::If { condition: Box::new(cond), then_branch, else_branch }, e))
            },
            None => None,
        },
    }
}

fn parse_match(s: &Vec<char>, p: usize) -> (r: Option<(Expr, usize)>)
    requires
        p <= s@.len(),
    ensures
        oe(r) == sp_match(s@, p as int),
        moves(s@, p, r),
    decreases s@.len() - p, 25int,
{
    let q = match parse_keyword(s, p, &word_match()) {
        Some(q) => q,
        None => {
            return None;
        },
    };
    let (scrutinee, q1) = match parse_expr(s, q) {
        Some(x) => x,
        None => {
            return None;
        },
    };
    let q2 = match parse_sym(s, q1, '{') {
        Some(q2) => q2,
        None => {
            return None;
        },
    };
    let (arms, q3) = parse_arms(s, q2);
    match parse_sym(s, q3, '}') {
        Some(e) => {
            let scrutinee = Box::new(scrutinee);
            proof {
                lemma_match_view(scrutinee, arms);
            }
            Some((Expr::Match { scrutinee, arms }, e))
        },
        None => None,
    }
}

#[verifier::loop_isolation(false)]
fn parse_arms(s: &Vec<char>, p: usize) -> (r: (Vec<MatchArm>, usize))
    requires
        p <= s@.len(),
    ensures
        arms_view(r.0@) == sp_arms(s@, p as int).0,
        r.1 == sp_arms(s@, p as int).1,
        p <= r.1 <= s@.len(),
    decreases s@.len() - p, 40int,
{
    match parse_arm(s, p) {
        None => (Vec::new(), p),
        Some((a, q)) => {
            let mut acc: Vec<MatchArm> = Vec::new();
            acc.push(a);
            let mut at = q;
            let ghost start = sp_arms(s@, p as int);
            proof {
                assert(arms_view(acc@) =~= seq![arm_view(acc@[0])]);
            }
            loop
                invariant
                    p < at <= s@.len(),
                    start == sp_arms_rest(s@, at as int, arms_view(acc@)),
                decreases s@.len() - at,
            {
                match parse_sym(s, at, ',') {
                    None => {
                        return (acc, at);
                    },
                    Some(q1) => match parse_arm(s, q1) {
                        None => {
                            return (acc, q1);
                        },
                        Some((a1, r1)) => {
                            proof {
                                assert(arms_view(acc@.push(a1)) =~= arms_view(acc@).push(arm_view(a1)));
                            }
                            acc.push(a1);
                            at = r1;
                        },
                    },
                }
            }
        },
    }
}

fn parse_arm(s: &Vec<char>, p: usize) -> (r: Option<(MatchArm, usize)>)
    requires
        p <= s@.len(),
    ensures
        match sp_arm(s@, p as int) {
            Some((a, q)) => r matches Some((x, q2)) && arm_view(x) == a && q2 == q,
            None => r is None,
        },
        r matches Some((_, q)) ==> p < q <= s@.len(),
    decreases s@.len() - p, 39int,
{
    let dotted = match parse_sym(s, p, '.') {
        Some(q) => parse_ident(s, q),
        None => None,
    };
    let (variant, q) = match dotted {
        Some(x) => x,
        None => match parse_ident(s, p) {
            Some(x) => x,
            None => {
                return None;
            },
        },
    };
    let (payload, q1) = match parse_tuple_pattern(s, q) {
        Some((pt, e)) => (Some(pt), e),
        None => match parse_record_pattern(s, q) {
            Some((pt, e)) => (Some(pt), e),
            None => (None, q),
        },
    };
    let sep = match parse_op(s, q1, &word2('=', '>')) {
        Some(q2) => Some(q2),
        None => parse_sym(s, q1, ':'),
    };
    proof {
        assert(seq!['=', '>'] =~= fat_arrow());
    }
    match sep {
        None => None,
        Some(q2) => match parse_expr(s, q2) {
            None => None,
            Some((body, e)) => Some((MatchArm { variant, payload, body }, e)),
        },
    }
}

fn parse_braced_fields(s: &Vec<char>, p: usize) -> (r: Option<(Vec<Field<Expr>>, usize)>)
    requires
        p <= s@.len(),
    ensures
        match sp_braced_fields(s@, p as int) {
            Some((fields, q)) => r matches Some((x, q2)) && expr_fields_view(x@) == fields && q2 == q,
            None => r is None,
        },
        r matches Some((_, q)) ==> p < q <= s@.len(),
    decreases s@.len() - p, 23int,
{
    match parse_sym(s, p, '{') {
        None => None,
        Some(q) => {
            let (fields, q1) = parse_expr_fields(s, q);
            match parse_sym(s, q1, '}') {
                Some(e) => Some((fields, e)),
                None => None,
            }
        },
    }
}

fn parse_expr_field(s: &Vec<char>, p: usize) -> (r: Option<(Field<Expr>, usize)>)
    requires
        p <= s@.len(),
    ensures
        match sp_expr_field(s@, p as int) {
            Some((f, q)) => r matches Some((x, q2)) && (opt_str(x.name), expr_view(x.value)) == f && q2 == q,
            None => r is None,
        },
        r matches Some((_, q)) ==> p < q <= s@.len(),
    decreases s@.len() - p, 39int,
{
    match parse_ident(s, p) {
        None => None,
        Some((n, q)) => match parse_sym(s, q, ':') {
            None => None,
            Some(q1) => match parse_expr(s, q1) {
                None => None,
                Some((v, e)) => Some((Field { name: Some(n), value: v }, e)),
            },
        },
    }
}

#[verifier::loop_isolation(false)]
fn parse_expr_fields(s: &Vec<char>, p: usize) -> (r: (Vec<Field<Expr>>, usize))
    requires
        p <= s@.len(),
    ensures
        expr_fields_view(r.0@) == sp_expr_fields(s@, p as int).0,
        r.1 == sp_expr_fields(s@, p as int).1,
        p <= r.1 <= s@.len(),
    decreases s@.len() - p, 40int,
{
    match parse_expr_field(s, p) {
        None => (Vec::new(), p),
        Some((f, q)) => {
            let mut acc: Vec<Field<Expr>> = Vec::new();
            acc.push(f);
            let mut at = q;
            let ghost start = sp_expr_fields(s@, p as int);
            proof {
                assert(expr_fields_view(acc@) =~= seq![(opt_str(acc@[0].name), expr_view(acc@[0].value))]);
            }
            loop
                invariant
                    p < at <= s@.len(),
                    start == sp_expr_fields_rest(s@, at as int, expr_fields_view(acc@)),
                decreases s@.len() - at,
            {
                match parse_sym(s, at, ',') {
                    None => {
                        return (acc, at);
                    },
                    Some(q1) => match parse_expr_field(s, q1) {
                        None => {
                            return (acc, q1);
                        },
                        Some((f1, r1)) => {
                            proof {
                                assert(expr_fields_view(acc@.push(f1)) =~= expr_fields_view(acc@).push(
                                    (opt_str(f1.name), expr_view(f1.value)),
                                ));
                            }
                            acc.push(f1);
                            at = r1;
                        },
                    },
                }
            }
        },
    }
}

fn parse_paren_expr(s: &Vec<char>, p: usize) -> (r: Option<(Expr, usize)>)
    requires
        p <= s@.len(),
    ensures
        oe(r) == sp_paren_expr(s@, p as int),
        moves(s@, p, r),
    decreases s@.len() - p, 24int,
{
    match parse_sym(s, p, '(') {
        None => None,
        Some(q) => {
            let (es, q1) = parse_exprs(s, q);
            match parse_sym(s, q1, ')') {
                Some(e) => Some((make_tuple_expr(es), e)),
                None => None,
            }
        },
    }
}

#[verifier::loop_isolation(false)]
fn parse_exprs(s: &Vec<char>, p: usize) -> (r: (Vec<Expr>, usize))
    requires
        p <= s@.len(),
    ensures
        exprs_view(r.0@) == sp_exprs(s@, p as int).0,
        r.1 == sp_exprs(s@, p as int).1,
        p <= r.1 <= s@.len(),
    decreases s@.len() - p, 40int,
{
    match parse_expr(s, p) {
        None => (Vec::new(), p),
        Some((v, q)) => {
            let mut acc: Vec<Expr> = Vec::new();
            acc.push(v);
            let mut at = q;
            let ghost start = sp_exprs(s@, p as int);
            proof {
                assert(exprs_view(acc@) =~= seq![expr_view(acc@[0])]);
            }
            loop
                invariant
                    p < at <= s@.len(),
                    start == sp_exprs_rest(s@, at as int, exprs_view(acc@)),
                decreases s@.len() - at,
            {
                match parse_sym(s, at, ',') {
                    None => {
                        return (acc, at);
                    },
                    Some(q1) => match parse_expr(s, q1) {
                        None => {
                            return (acc, q1);
                        },
                        Some((v1, r1)) => {
                            proof {
                                assert(exprs_view(acc@.push(v1)) =~= exprs_view(acc@).push(expr_view(v1)));
                            }
                            acc.push(v1);
                            at = r1;
                        },
                    },
                }
            }
        },
    }
}

#[verifier::loop_isolation(false)]
fn parse_block(s: &Vec<char>, p: usize) -> (r: Option<(Block, usize)>)
    requires
        p <= s@.len(),
    ensures
        match sp_block(s@, p as int) {
            Some((b, q)) => r matches Some((x, q2)) && block_view(x) == b && q2 == q,
            None => r is None,
        },
        r matches Some((_, q)) ==> p < q <= s@.len(),
    decreases s@.len() - p, 24int,
{
    let q = match parse_sym(s, p, '{') {
        Some(q) => q,
        None => {
            return None;
        },
    };
    let mut lets: Vec<LetStmt> = Vec::new();
    let mut at = q;
    let ghost start = sp_lets(s@, q as int, Seq::empty());
    proof {
        assert(lets_view(lets@) =~= Seq::<LetV>::empty());
    }
    loop
        invariant
            p < q <= at <= s@.len(),
            start == sp_lets(s@, at as int, lets_view(lets@)),
        decreases s@.len() - at,
    {
        match parse_stmt(s, at) {
            None => {
                break;
            },
            Some((l, q1)) => {
                proof {
                    assert(lets_view(lets@.push(l)) =~= lets_view(lets@).push(let_view(l)));
                }
                lets.push(l);
                at = q1;
            },
        }
    }
    let (result, q2) = match parse_expr(s, at) {
        Some((v, e)) => (Some(Box::new(v)), e),
        None => (None, at),
    };
    match parse_sym(s, q2, '}') {
        Some(e) => {
            let b = Block { lets, result };
            proof {
                lemma_block_view(b);
            }
            Some((b, e))
        },
        None => None,
    }
}

fn parse_stmt(s: &Vec<char>, p: usize) -> (r: Option<(LetStmt, usize)>)
    requires
        p <= s@.len(),
    ensures
        match sp_stmt(s@, p as int) {
            Some((l, q)) => r matches Some((x, q2)) && let_view(x) == l && q2 == q,
            None => r is None,
        },
        r matches Some((_, q)) ==> p < q <= s@.len(),
    decreases s@.len() - p, 39int,
{
    if let Some(x) = parse_let(s, p) {
        return Some(x);
    }
    match parse_expr(s, p) {
        None => None,
        Some((value, e)) => {
            if !line_break_at(s, e) || parse_sym(s, e, '}').is_some() {
                None
            } else {
                Some((LetStmt { pattern: Pattern::Unit, ty: Some(TypeExpr::Unit), value }, e))
            }
        },
    }
}

fn parse_let(s: &Vec<char>, p: usize) -> (r: Option<(LetStmt, usize)>)
    requires
        p <= s@.len(),
    ensures
        match sp_let(s@, p as int) {
            Some((l, q)) => r matches Some((x, q2)) && let_view(x) == l && q2 == q,
            None => r is None,
        },
        r matches Some((_, q)) ==> p < q <= s@.len(),
    decreases s@.len() - p, 38int,
{
    let q = match parse_keyword(s, p, &word_let()) {
        Some(q) => q,
        None => {
            return None;
        },
    };
    let (pattern, q1) = match parse_pattern(s, q) {
        Some(x) => x,
        None => {
            return None;
        },
    };
    let (ty, q2) = match parse_sym(s, q1, ':') {
        None => (None, q1),
        Some(q3) => match parse_type(s, q3) {
            Some((t, e)) => (Some(t), e),
            None => (None, q1),
        },
    };
    match parse_sym(s, q2, '=') {
        None => None,
        Some(q4) => match parse_expr(s, q4) {
            None => None,
            Some((value, e)) => Some((LetStmt { pattern, ty, value }, e)),
        },
    }
}

// ---------------------------------------------------------------------------
// Items
// ---------------------------------------------------------------------------

pub open spec fn kw_type() -> Seq<char> {
    seq!['t', 'y', 'p', 'e']
}

pub open spec fn kw_struct() -> Seq<char> {
    seq!['s', 't', 'r', 'u', 'c', 't']
}

pub open spec fn kw_enum() -> Seq<char> {
    seq!['e', 'n', 'u', 'm']
}

pub open spec fn kw_global() -> Seq<char> {
    seq!['g', 'l', 'o', 'b', 'a', 'l']
}

pub open spec fn kw_fn() -> Seq<char> {
    seq!['f', 'n']
}

pub open spec fn kw_impl() -> Seq<char> {
    seq!['i', 'm', 'p', 'l']
}

pub open spec fn kw_trait() -> Seq<char> {
    seq!['t', 'r', 'a', 'i', 't']
}

pub open spec fn kw_for() -> Seq<char> {
    seq!['f', 'o', 'r']
}

pub open spec fn kw_self() -> Seq<char> {
    seq!['s', 'e', 'l', 'f']
}

/// A function body: a block as it is, any other expression as the result
/// of an otherwise empty block.
pub open spec fn expr_to_block_v(e: ExprV) -> BlockV {
    match e {
        ExprV::Block(b) => b,
        _ => BlockV { lets: Seq::empty(), result: Some(Box::new(e)) },
    }
}

/// A struct body: `{ fields }` or `(types)`.
pub open spec fn sp_struct_body(s: Seq<char>, p: int) -> Option<(TypeV, int)> {
    match sp_record_type(s, p) {
        Some(x) => Some(x),
        None => match sp_sym(s, p, '(') {
            None => None,
            Some(q) => {
                let (ts, q1) = sp_types(s, q);
                match sp_sym(s, q1, ')') {
                    Some(e) => Some((tuple_product_v(ts), e)),
                    None => None,
                }
            },
        },
    }
}

/// An enum variant: a name and an optional record or tuple payload.
pub open spec fn sp_enum_variant(s: Seq<char>, p: int) -> Option<(TypeFieldV, int)> {
    match sp_ident(s, p) {
        None => None,
        Some((n, q)) => match sp_record_type(s, q) {
            Some((t, e)) => Some(((Some(n), t), e)),
            None => match sp_tuple_payload(s, q) {
                Some((t, e)) => Some(((Some(n), t), e)),
                None => Some(((Some(n), TypeV::Unit), q)),
            },
        },
    }
}

pub open spec fn sp_enum_variants_rest(s: Seq<char>, p: int, acc: Seq<TypeFieldV>) -> (Seq<TypeFieldV>, int)
    decreases s.len() - p,
{
    match sp_sym(s, p, ',') {
        None => (acc, p),
        Some(q) => match sp_enum_variant(s, q) {
            None => (acc, q),
            Some((v, r)) => if fwd(s, p, r) {
                sp_enum_variants_rest(s, r, acc.push(v))
            } else {
                (acc, q)
            },
        },
    }
}

/// `{ variant, ... }` with at least one variant: a sum.
pub open spec fn sp_enum_body(s: Seq<char>, p: int) -> Option<(TypeV, int)> {
    match sp_sym(s, p, '{') {
        None => None,
        Some(q) => match sp_enum_variant(s, q) {
            None => None,
            Some((v, q1)) => {
                let (vs, q2) = sp_enum_variants_rest(s, q1, seq![v]);
                match sp_sym(s, q2, '}') {
                    Some(e) => Some((TypeV::Sum(vs), e)),
                    None => None,
                }
            },
        },
    }
}

/// `name: Type` with a flow marker before it.
pub open spec fn sp_param(s: Seq<char>, p: int) -> Option<(ParamV, int)> {
    let (flow, q) = sp_flow(s, p);
    match sp_ident(s, q) {
        None => None,
        Some((name, q1)) => match sp_sym(s, q1, ':') {
            None => None,
            Some(q2) => match sp_type(s, q2) {
                None => None,
                Some((ty, e)) => Some((ParamV { flow, name, ty }, e)),
            },
        },
    }
}

pub open spec fn sp_params_rest(s: Seq<char>, p: int, acc: Seq<ParamV>) -> (Seq<ParamV>, int)
    decreases s.len() - p,
{
    match sp_sym(s, p, ',') {
        None => (acc, p),
        Some(q) => match sp_param(s, q) {
            None => (acc, q),
            Some((x, r)) => if fwd(s, p, r) {
                sp_params_rest(s, r, acc.push(x))
            } else {
                (acc, q)
            },
        },
    }
}

/// `( param, ... )`.
pub open spec fn sp_params(s: Seq<char>, p: int) -> Option<(Seq<ParamV>, int)> {
    match sp_sym(s, p, '(') {
        None => None,
        Some(q) => {
            let (ps, q1) = match sp_param(s, q) {
                None => (Seq::empty(), q),
                Some((x, r)) => sp_params_rest(s, r, seq![x]),
            };
            match sp_sym(s, q1, ')') {
                Some(e) => Some((ps, e)),
                None => None,
            }
        },
    }
}

/// A method parameter: like a parameter, its type optional.
pub struct RawParamV {
    pub flow: ValueFlow,
    pub name: Seq<char>,
    pub ty: Option<TypeV>,
}

pub open spec fn sp_raw_param(s: Seq<char>, p: int) -> Option<(RawParamV, int)> {
    let (flow, q) = sp_flow(s, p);
    match sp_ident(s, q) {
        None => None,
        Some((name, q1)) => match sp_sym(s, q1, ':') {
            None => Some((RawParamV { flow, name, ty: None }, q1)),
            Some(q2) => match sp_type(s, q2) {
                None => Some((RawParamV { flow, name, ty: None }, q1)),
                Some((ty, e)) => Some((RawParamV { flow, name, ty: Some(ty) }, e)),
            },
        },
    }
}

pub open spec fn sp_raw_params_rest(s: Seq<char>, p: int, acc: Seq<RawParamV>) -> (Seq<RawParamV>, int)
    decreases s.len() - p,
{
    match sp_sym(s, p, ',') {
        None => (acc, p),
        Some(q) => match sp_raw_param(s, q) {
            None => (acc, q),
            Some((x, r)) => if fwd(s, p, r) {
                sp_raw_params_rest(s, r, acc.push(x))
            } else {
                (acc, q)
            },
        },
    }
}

pub open spec fn sp_raw_params(s: Seq<char>, p: int) -> Option<(Seq<RawParamV>, int)> {
    match sp_sym(s, p, '(') {
        None => None,
        Some(q) => {
            let (ps, q1) = match sp_raw_param(s, q) {
                None => (Seq::empty(), q),
                Some((x, r)) => sp_raw_params_rest(s, r, seq![x]),
            };
            match sp_sym(s, q1, ')') {
                Some(e) => Some((ps, e)),
                None => None,
            }
        },
    }
}

/// `fn name<G>(params) -> Type`: the name, generics, parameters and output.
pub open spec fn sp_signature(s: Seq<char>, p: int) -> Option<((Seq<char>, Seq<Seq<char>>, Seq<ParamV>, TypeV), int)> {
    match sp_keyword(s, p, kw_fn()) {
        None => None,
        Some(q) => match sp_ident(s, q) {
            None => None,
            Some((name, q1)) => {
                let (generics, q2) = sp_generics(s, q1);
                match sp_params(s, q2) {
                    None => None,
                    Some((params, q3)) => match sp_op(s, q3, arrow()) {
                        None => None,
                        Some(q4) => match sp_type(s, q4) {
                            None => None,
                            Some((output, e)) => Some(((name, generics, params, output), e)),
                        },
                    },
                }
            },
        },
    }
}

/// A function definition: a signature and a body expression.
pub open spec fn sp_function(s: Seq<char>, p: int) -> Option<(FunctionDefV, int)> {
    match sp_signature(s, p) {
        None => None,
        Some(((name, generics, params, output), q)) => match sp_expr(s, q) {
            None => None,
            Some((body, e)) => Some((FunctionDefV { name, generics, params, output, body: expr_to_block_v(body) }, e)),
        },
    }
}

/// A method definition before its parameters are resolved.
pub struct RawMethodV {
    pub name: Seq<char>,
    pub generics: Seq<Seq<char>>,
    pub params: Seq<RawParamV>,
    pub output: TypeV,
    pub body: ExprV,
}

pub open spec fn sp_method(s: Seq<char>, p: int) -> Option<(RawMethodV, int)> {
    match sp_keyword(s, p, kw_fn()) {
        None => None,
        Some(q) => match sp_ident(s, q) {
            None => None,
            Some((name, q1)) => {
                let (generics, q2) = sp_generics(s, q1);
                match sp_raw_params(s, q2) {
                    None => None,
                    Some((params, q3)) => match sp_op(s, q3, arrow()) {
                        None => None,
                        Some(q4) => match sp_type(s, q4) {
                            None => None,
                            Some((output, q5)) => match sp_expr(s, q5) {
                                None => None,
                                Some((body, e)) => Some((RawMethodV { name, generics, params, output, body }, e)),
                            },
                        },
                    },
                }
            },
        },
    }
}

pub open spec fn sp_methods(s: Seq<char>, p: int, acc: Seq<RawMethodV>) -> (Seq<RawMethodV>, int)
    decreases s.len() - p,
{
    match sp_method(s, p) {
        None => (acc, p),
        Some((m, q)) => if fwd(s, p, q) {
            sp_methods(s, q, acc.push(m))
        } else {
            (acc, p)
        },
    }
}

/// The parameters of a method: the first must be `self`; a parameter
/// without a type takes the impl target when it is that first `self`.
pub open spec fn resolve_params(target: TypeV, params: Seq<RawParamV>) -> Option<Seq<ParamV>> {
    if params.len() == 0 || params[0].name != kw_self() {
        None
    } else if exists|i: int| 1 <= i < params.len() && (#[trigger] params[i]).ty is None {
        None
    } else {
        Some(
            Seq::new(
                params.len(),
                |i: int|
                    ParamV {
                        flow: params[i].flow,
                        name: params[i].name,
                        ty: match params[i].ty {
                            Some(t) => t,
                            None => target,
                        },
                    },
            ),
        )
    }
}

pub open spec fn resolve_method(target: TypeV, m: RawMethodV) -> Option<FunctionDefV> {
    match resolve_params(target, m.params) {
        None => None,
        Some(params) => Some(
            FunctionDefV {
                name: m.name,
                generics: m.generics,
                params,
                output: m.output,
                body: expr_to_block_v(m.body),
            },
        ),
    }
}

/// Every method resolved against the target, or none when one fails.
pub open spec fn resolve_methods(target: TypeV, ms: Seq<RawMethodV>) -> Option<Seq<FunctionDefV>> {
    if exists|i: int| 0 <= i < ms.len() && resolve_method(target, #[trigger] ms[i]) is None {
        None
    } else {
        Some(Seq::new(ms.len(), |i: int| resolve_method(target, ms[i])->0))
    }
}

pub open spec fn sp_sigs(s: Seq<char>, p: int, acc: Seq<FunctionSigV>) -> (Seq<FunctionSigV>, int)
    decreases s.len() - p,
{
    match sp_signature(s, p) {
        None => (acc, p),
        Some(((name, generics, params, output), q)) => if fwd(s, p, q) {
            sp_sigs(s, q, acc.push(FunctionSigV { name, generics, params, output }))
        } else {
            (acc, p)
        },
    }
}

pub open spec fn sp_type_def(s: Seq<char>, p: int) -> Option<(ItemV, int)> {
    match sp_keyword(s, p, kw_type()) {
        None => None,
        Some(q) => match sp_ident(s, q) {
            None => None,
            Some((name, q1)) => {
                let (generics, q2) = sp_generics(s, q1);
                match sp_sym(s, q2, '=') {
                    None => None,
                    Some(q3) => match sp_type(s, q3) {
                        None => None,
                        Some((ty, q4)) => {
                            let (capabilities, e) = sp_caps(s, q4);
                            Some((ItemV::Type(TypeDefV { name, generics, ty, capabilities }), e))
                        },
                    },
                }
            },
        },
    }
}

pub open spec fn sp_struct_def(s: Seq<char>, p: int) -> Option<(ItemV, int)> {
    match sp_keyword(s, p, kw_struct()) {
        None => None,
        Some(q) => match sp_ident(s, q) {
            None => None,
            Some((name, q1)) => {
                let (generics, q2) = sp_generics(s, q1);
                match sp_struct_body(s, q2) {
                    None => None,
                    Some((ty, q3)) => {
                        let (capabilities, e) = sp_caps(s, q3);
                        Some((ItemV::Struct(TypeDefV { name, generics, ty, capabilities }), e))
                    },
                }
            },
        },
    }
}

pub open spec fn sp_enum_def(s: Seq<char>, p: int) -> Option<(ItemV, int)> {
    match sp_keyword(s, p, kw_enum()) {
        None => None,
        Some(q) => match sp_ident(s, q) {
            None => None,
            Some((name, q1)) => {
                let (generics, q2) = sp_generics(s, q1);
                match sp_enum_body(s, q2) {
                    None => None,
                    Some((ty, q3)) => {
                        let (capabilities, e) = sp_caps(s, q3);
                        Some((ItemV::Enum(TypeDefV { name, generics, ty, capabilities }), e))
                    },
                }
            },
        },
    }
}

pub open spec fn sp_global_def(s: Seq<char>, p: int) -> Option<(ItemV, int)> {
    match sp_keyword(s, p, kw_global()) {
        None => None,
        Some(q) => match sp_ident(s, q) {
            None => None,
            Some((name, q1)) => match sp_sym(s, q1, ':') {
                None => None,
                Some(q2) => match sp_type(s, q2) {
                    None => None,
                    Some((ty, q3)) => match sp_sym(s, q3, '=') {
                        None => Some((ItemV::Global(name, ty, None), q3)),
                        Some(q4) => match sp_expr(s, q4) {
                            None => Some((ItemV::Global(name, ty, None), q3)),
                            Some((v, e)) => Some((ItemV::Global(name, ty, Some(v)), e)),
                        },
                    },
                },
            },
        },
    }
}

pub open spec fn sp_function_def(s: Seq<char>, p: int) -> Option<(ItemV, int)> {
    match sp_function(s, p) {
        None => None,
        Some((f, e)) => Some((ItemV::Function(f), e)),
    }
}

pub open spec fn sp_impl_def(s: Seq<char>, p: int) -> Option<(ItemV, int)> {
    match sp_keyword(s, p, kw_impl()) {
        None => None,
        Some(q) => {
            let (generics, q1) = sp_generics(s, q);
            match sp_type(s, q1) {
                None => None,
                Some((first, q2)) => {
                    let (trait_ref, target, q3) = match sp_keyword(s, q2, kw_for()) {
                        None => (None, first, q2),
                        Some(q4) => match sp_type(s, q4) {
                            None => (None, first, q2),
                            Some((t, e)) => (Some(first), t, e),
                        },
                    };
                    match sp_sym(s, q3, '{') {
                        None => None,
                        Some(q5) => {
                            let (methods, q6) = sp_methods(s, q5, Seq::empty());
                            match sp_sym(s, q6, '}') {
                                None => None,
                                Some(e) => match resolve_methods(target, methods) {
                                    None => None,
                                    Some(ms) => Some((ItemV::Impl(generics, trait_ref, target, ms), e)),
                                },
                            }
                        },
                    }
                },
            }
        },
    }
}

pub open spec fn sp_trait_def(s: Seq<char>, p: int) -> Option<(ItemV, int)> {
    match sp_keyword(s, p, kw_trait()) {
        None => None,
        Some(q) => match sp_ident(s, q) {
            None => None,
            Some((name, q1)) => {
                let (generics, q2) = sp_generics(s, q1);
                match sp_sym(s, q2, '{') {
                    None => None,
                    Some(q3) => {
                        let (sigs, q4) = sp_sigs(s, q3, Seq::empty());
                        match sp_sym(s, q4, '}') {
                            None => None,
                            Some(e) => Some((ItemV::Trait(name, generics, sigs), e)),
                        }
                    },
                }
            },
        },
    }
}

/// One item.
pub open spec fn sp_item(s: Seq<char>, p: int) -> Option<(ItemV, int)> {
    if sp_type_def(s, p) is Some {
        sp_type_def(s, p)
    } else if sp_struct_def(s, p) is Some {
        sp_struct_def(s, p)
    } else if sp_enum_def(s, p) is Some {
        sp_enum_def(s, p)
    } else if sp_global_def(s, p) is Some {
        sp_global_def(s, p)
    } else if sp_function_def(s, p) is Some {
        sp_function_def(s, p)
    } else if sp_impl_def(s, p) is Some {
        sp_impl_def(s, p)
    } else {
        sp_trait_def(s, p)
    }
}

pub open spec fn sp_items(s: Seq<char>, p: int, acc: Seq<ItemV>) -> (Seq<ItemV>, int)
    decreases s.len() - p,
{
    match sp_item(s, p) {
        None => (acc, p),
        Some((item, q)) => if fwd(s, p, q) {
            sp_items(s, q, acc.push(item))
        } else {
            (acc, p)
        },
    }
}

/// A module: items, from the start of the source to its end. When the
/// items stop before the end, the position where they stopped.
pub open spec fn sp_module(s: Seq<char>) -> Result<Seq<ItemV>, int> {
    let (items, q) = sp_items(s, pad(s, 0), Seq::empty());
    let e = pad(s, q);
    if e == s.len() {
        Ok(items)
    } else {
        Err(e)
    }
}

// ---------------------------------------------------------------------------
// Items, executed
// ---------------------------------------------------------------------------

/// A copy of a type expression.
#[verifier::loop_isolation(false)]
pub fn copy_type(t: &TypeExpr) -> (r: TypeExpr)
    ensures
        type_view(r) == type_view(*t),
    decreases t,
{
    match t {
        TypeExpr::Unit => TypeExpr::Unit,
        TypeExpr::Name(n) => TypeExpr::Name(n.clone()),
        TypeExpr::Apply { name, args } => {
            let mut out: Vec<TypeExpr> = Vec::new();
            let mut i: usize = 0;
            while i < args.len()
                invariant
                    0 <= i <= args@.len(),
                    types_view(out@) == types_view(args@.subrange(0, i as int)),
                decreases args@.len() - i,
            {
                let c = copy_type(&args[i]);
                proof {
                    assert(type_view(c) == type_view(args@[i as int]));
                    assert(args@.subrange(0, i + 1) =~= args@.subrange(0, i as int).push(args@[i as int]));
                    assert(types_view(out@.push(c)) =~= types_view(out@).push(type_view(c)));
                    assert(types_view(args@.subrange(0, i as int).push(args@[i as int])) =~= types_view(
                        args@.subrange(0, i as int),
                    ).push(type_view(args@[i as int])));
                }
                out.push(c);
                i += 1;
            }
            let n2 = name.clone();
            proof {
                assert(args@.subrange(0, args@.len() as int) =~= args@);
                lemma_type_apply_view(n2, out);
                lemma_type_apply_view(*name, *args);
            }
            TypeExpr::Apply { name: n2, args: out }
        },
        TypeExpr::Product(fs) => {
            let out = copy_type_fields(fs);
            proof {
                lemma_type_product_view(out);
                lemma_type_product_view(*fs);
            }
            TypeExpr::Product(out)
        },
        TypeExpr::Sum(fs) => {
            let out = copy_type_fields(fs);
            proof {
                lemma_type_product_view(out);
                lemma_type_product_view(*fs);
            }
            TypeExpr::Sum(out)
        },
        TypeExpr::Function { input, output } => TypeExpr::Function {
            input: Box::new(copy_type(input)),
            output: Box::new(copy_type(output)),
        },
    }
}

fn copy_type_fields(fs: &Vec<Field<TypeExpr>>) -> (r: Vec<Field<TypeExpr>>)
    ensures
        type_fields_view(r@) == type_fields_view(fs@),
    decreases fs@, 1int,
{
    let mut out: Vec<Field<TypeExpr>> = Vec::new();
    let mut i: usize = 0;
    while i < fs.len()
        invariant
            0 <= i <= fs@.len(),
            type_fields_view(out@) == type_fields_view(fs@.subrange(0, i as int)),
        decreases fs@.len() - i,
    {
        let name = match &fs[i].name {
            Some(n) => Some(n.clone()),
            None => None,
        };
        let f = Field { name, value: copy_type(&fs[i].value) };
        proof {
            assert(opt_str(f.name) == opt_str(fs@[i as int].name));
            assert(fs@.subrange(0, i + 1) =~= fs@.subrange(0, i as int).push(fs@[i as int]));
            assert(type_fields_view(out@.push(f)) =~= type_fields_view(out@).push(
                (opt_str(f.name), type_view(f.value)),
            ));
            assert(type_fields_view(fs@.subrange(0, i as int).push(fs@[i as int])) =~= type_fields_view(
                fs@.subrange(0, i as int),
            ).push((opt_str(fs@[i as int].name), type_view(fs@[i as int].value))));
        }
        out.push(f);
        i += 1;
    }
    assert(fs@.subrange(0, fs@.len() as int) =~= fs@);
    out
}

fn expr_to_block(e: Expr) -> (b: Block)
    ensures
        block_view(b) == expr_to_block_v(expr_view(e)),
{
    match e {
        Expr::Block(b) => b,
        e => {
            let ghost ev = expr_view(e);
            let b = Block { lets: Vec::new(), result: Some(Box::new(e)) };
            proof {
                lemma_block_view(b);
                assert(lets_view(b.lets@) =~= Seq::<LetV>::empty());
            }
            b
        },
    }
}

fn word(text: &str) -> (w: Vec<char>)
    ensures
        w@ == text@,
{
    let mut w: Vec<char> = Vec::new();
    for c in it: text.chars()
        invariant
            it.seq() == text@,
            w@ == text@.take(it.index() as int),
    {
        proof {
            assert(text@.take(it.index() + 1) =~= text@.take(it.index() as int).push(c));
        }
        w.push(c);
    }
    assert(text@.take(text@.len() as int) =~= text@);
    w
}

fn parse_struct_body(s: &Vec<char>, p: usize) -> (r: Option<(TypeExpr, usize)>)
    requires
        p <= s@.len(),
    ensures
        ot(r) == sp_struct_body(s@, p as int),
        advances(s@, p, r),
{
    if let Some(x) = parse_record_type(s, p) {
        return Some(x);
    }
    match parse_sym(s, p, '(') {
        None => None,
        Some(q) => {
            let (ts, q1) = parse_types(s, q);
            match parse_sym(s, q1, ')') {
                Some(e) => {
                    let fields = into_positional(ts);
                    proof {
                        lemma_type_product_view(fields);
                    }
                    Some((TypeExpr::Product(fields), e))
                },
                None => None,
            }
        },
    }
}

fn parse_enum_variant(s: &Vec<char>, p: usize) -> (r: Option<(Field<TypeExpr>, usize)>)
    requires
        p <= s@.len(),
    ensures
        otf(r) == sp_enum_variant(s@, p as int),
        r matches Some((_, q)) ==> p < q <= s@.len(),
{
    match parse_ident(s, p) {
        None => None,
        Some((n, q)) => match parse_record_type(s, q) {
            Some((t, e)) => Some((Field { name: Some(n), value: t }, e)),
            None => match parse_tuple_payload(s, q) {
                Some((t, e)) => Some((Field { name: Some(n), value: t }, e)),
                None => Some((Field { name: Some(n), value: TypeExpr::Unit }, q)),
            },
        },
    }
}

#[verifier::loop_isolation(false)]
fn parse_enum_body(s: &Vec<char>, p: usize) -> (r: Option<(TypeExpr, usize)>)
    requires
        p <= s@.len(),
    ensures
        ot(r) == sp_enum_body(s@, p as int),
        advances(s@, p, r),
{
    let q = match parse_sym(s, p, '{') {
        Some(q) => q,
        None => {
            return None;
        },
    };
    let (v, q1) = match parse_enum_variant(s, q) {
        Some(x) => x,
        None => {
            return None;
        },
    };
    let mut acc: Vec<Field<TypeExpr>> = Vec::new();
    acc.push(v);
    proof {
        assert(type_fields_view(acc@) =~= seq![(opt_str(acc@[0].name), type_view(acc@[0].value))]);
    }
    let mut at = q1;
    let ghost start = sp_enum_variants_rest(s@, q1 as int, type_fields_view(acc@));
    loop
        invariant
            p < at <= s@.len(),
            start == sp_enum_variants_rest(s@, at as int, type_fields_view(acc@)),
        decreases s@.len() - at,
    {
        match parse_sym(s, at, ',') {
            None => {
                break;
            },
            Some(q2) => match parse_enum_variant(s, q2) {
                None => {
                    at = q2;
                    break;
                },
                Some((v1, r1)) => {
                    proof {
                        assert(type_fields_view(acc@.push(v1)) =~= type_fields_view(acc@).push(
                            (opt_str(v1.name), type_view(v1.value)),
                        ));
                    }
                    acc.push(v1);
                    at = r1;
                },
            },
        }
    }
    match parse_sym(s, at, '}') {
        Some(e) => {
            proof {
                lemma_type_product_view(acc);
            }
            Some((TypeExpr::Sum(acc), e))
        },
        None => None,
    }
}

fn parse_param(s: &Vec<char>, p: usize) -> (r: Option<(Param, usize)>)
    requires
        p <= s@.len(),
    ensures
        match sp_param(s@, p as int) {
            Some((x, q)) => r matches Some((y, q2)) && param_view(y) == x && q2 == q,
            None => r is None,
        },
        r matches Some((_, q)) ==> p < q <= s@.len(),
{
    let (flow, q) = parse_flow(s, p);
    match parse_ident(s, q) {
        None => None,
        Some((name, q1)) => match parse_sym(s, q1, ':') {
            None => None,
            Some(q2) => match parse_type(s, q2) {
                None => None,
                Some((ty, e)) => Some((Param { flow, name, ty }, e)),
            },
        },
    }
}

#[verifier::loop_isolation(false)]
fn parse_params(s: &Vec<char>, p: usize) -> (r: Option<(Vec<Param>, usize)>)
    requires
        p <= s@.len(),
    ensures
        match sp_params(s@, p as int) {
            Some((x, q)) => r matches Some((y, q2)) && params_view(y@) == x && q2 == q,
            None => r is None,
        },
        r matches Some((_, q)) ==> p < q <= s@.len(),
{
    let q = match parse_sym(s, p, '(') {
        Some(q) => q,
        None => {
            return None;
        },
    };
    let mut acc: Vec<Param> = Vec::new();
    let mut at = q;
    match parse_param(s, q) {
        None => {
            proof {
                assert(params_view(acc@) =~= Seq::<ParamV>::empty());
            }
        },
        Some((x, r)) => {
            acc.push(x);
            proof {
                assert(params_view(acc@) =~= seq![param_view(acc@[0])]);
            }
            at = r;
            let ghost start = sp_params_rest(s@, r as int, params_view(acc@));
            loop
                invariant
                    q < at <= s@.len(),
                    start == sp_params_rest(s@, at as int, params_view(acc@)),
                decreases s@.len() - at,
            {
                match parse_sym(s, at, ',') {
                    None => {
                        break;
                    },
                    Some(q2) => match parse_param(s, q2) {
                        None => {
                            at = q2;
                            break;
                        },
                        Some((x1, r1)) => {
                            proof {
                                assert(params_view(acc@.push(x1)) =~= params_view(acc@).push(param_view(x1)));
                            }
                            acc.push(x1);
                            at = r1;
                        },
                    },
                }
            }
        },
    }
    match parse_sym(s, at, ')') {
        Some(e) => Some((acc, e)),
        None => None,
    }
}

struct RawParam {
    flow: ValueFlow,
    name: String,
    ty: Option<TypeExpr>,
}

spec fn raw_param_view(r: RawParam) -> RawParamV {
    RawParamV { flow: r.flow, name: r.name@, ty: opt_type_view(r.ty) }
}

spec fn raw_params_view(v: Seq<RawParam>) -> Seq<RawParamV> {
    v.map_values(|r: RawParam| raw_param_view(r))
}

fn parse_raw_param(s: &Vec<char>, p: usize) -> (r: Option<(RawParam, usize)>)
    requires
        p <= s@.len(),
    ensures
        match sp_raw_param(s@, p as int) {
            Some((x, q)) => r matches Some((y, q2)) && raw_param_view(y) == x && q2 == q,
            None => r is None,
        },
        r matches Some((_, q)) ==> p < q <= s@.len(),
{
    let (flow, q) = parse_flow(s, p);
    match parse_ident(s, q) {
        None => None,
        Some((name, q1)) => match parse_sym(s, q1, ':') {
            None => Some((RawParam { flow, name, ty: None }, q1)),
            Some(q2) => match parse_type(s, q2) {
                None => Some((RawParam { flow, name, ty: None }, q1)),
                Some((ty, e)) => Some((RawParam { flow, name, ty: Some(ty) }, e)),
            },
        },
    }
}

#[verifier::loop_isolation(false)]
fn parse_raw_params(s: &Vec<char>, p: usize) -> (r: Option<(Vec<RawParam>, usize)>)
    requires
        p <= s@.len(),
    ensures
        match sp_raw_params(s@, p as int) {
            Some((x, q)) => r matches Some((y, q2)) && raw_params_view(y@) == x && q2 == q,
            None => r is None,
        },
        r matches Some((_, q)) ==> p < q <= s@.len(),
{
    let q = match parse_sym(s, p, '(') {
        Some(q) => q,
        None => {
            return None;
        },
    };
    let mut acc: Vec<RawParam> = Vec::new();
    let mut at = q;
    match parse_raw_param(s, q) {
        None => {
            proof {
                assert(raw_params_view(acc@) =~= Seq::<RawParamV>::empty());
            }
        },
        Some((x, r)) => {
            acc.push(x);
            proof {
                assert(raw_params_view(acc@) =~= seq![raw_param_view(acc@[0])]);
            }
            at = r;
            let ghost start = sp_raw_params_rest(s@, r as int, raw_params_view(acc@));
            loop
                invariant
                    q < at <= s@.len(),
                    start == sp_raw_params_rest(s@, at as int, raw_params_view(acc@)),
                decreases s@.len() - at,
            {
                match parse_sym(s, at, ',') {
                    None => {
                        break;
                    },
                    Some(q2) => match parse_raw_param(s, q2) {
                        None => {
                            at = q2;
                            break;
                        },
                        Some((x1, r1)) => {
                            proof {
                                assert(raw_params_view(acc@.push(x1)) =~= raw_params_view(acc@).push(
                                    raw_param_view(x1),
                                ));
                            }
                            acc.push(x1);
                            at = r1;
                        },
                    },
                }
            }
        },
    }
    match parse_sym(s, at, ')') {
        Some(e) => Some((acc, e)),
        None => None,
    }
}

fn parse_signature(s: &Vec<char>, p: usize) -> (r: Option<(FunctionSig, usize)>)
    requires
        p <= s@.len(),
    ensures
        match sp_signature(s@, p as int) {
            Some(((name, generics, params, output), q)) => r matches Some((f, q2)) && sig_view(f) == (FunctionSigV {
                name,
                generics,
                params,
                output,
            }) && q2 == q,
            None => r is None,
        },
        r matches Some((_, q)) ==> p < q <= s@.len(),
{
    let kw = word("fn");
    proof {
        reveal_strlit("fn");
        assert(kw@ =~= kw_fn());
    }
    let q = match parse_keyword(s, p, &kw) {
        Some(q) => q,
        None => {
            return None;
        },
    };
    let (name, q1) = match parse_ident(s, q) {
        Some(x) => x,
        None => {
            return None;
        },
    };
    let (generics, q2) = parse_generics(s, q1);
    let (params, q3) = match parse_params(s, q2) {
        Some(x) => x,
        None => {
            return None;
        },
    };
    let q4 = match parse_op(s, q3, &arrow_word()) {
        Some(q4) => q4,
        None => {
            return None;
        },
    };
    match parse_type(s, q4) {
        None => None,
        Some((output, e)) => Some((FunctionSig { name, generics, params, output }, e)),
    }
}

fn parse_function(s: &Vec<char>, p: usize) -> (r: Option<(FunctionDef, usize)>)
    requires
        p <= s@.len(),
    ensures
        match sp_function(s@, p as int) {
            Some((f, q)) => r matches Some((x, q2)) && function_view(x) == f && q2 == q,
            None => r is None,
        },
        r matches Some((_, q)) ==> p < q <= s@.len(),
{
    let (sig, q) = match parse_signature(s, p) {
        Some(x) => x,
        None => {
            return None;
        },
    };
    match parse_expr(s, q) {
        None => None,
        Some((body, e)) => {
            let FunctionSig { name, generics, params, output } = sig;
            Some((FunctionDef { name, generics, params, output, body: expr_to_block(body) }, e))
        },
    }
}

struct RawMethod {
    name: String,
    generics: Vec<String>,
    params: Vec<RawParam>,
    output: TypeExpr,
    body: Expr,
}

spec fn raw_method_view(m: RawMethod) -> RawMethodV {
    RawMethodV {
        name: m.name@,
        generics: strs(m.generics@),
        params: raw_params_view(m.params@),
        output: type_view(m.output),
        body: expr_view(m.body),
    }
}

spec fn raw_methods_view(v: Seq<RawMethod>) -> Seq<RawMethodV> {
    v.map_values(|m: RawMethod| raw_method_view(m))
}

fn parse_method(s: &Vec<char>, p: usize) -> (r: Option<(RawMethod, usize)>)
    requires
        p <= s@.len(),
    ensures
        match sp_method(s@, p as int) {
            Some((m, q)) => r matches Some((x, q2)) && raw_method_view(x) == m && q2 == q,
            None => r is None,
        },
        r matches Some((_, q)) ==> p < q <= s@.len(),
{
    let kw = word("fn");
    proof {
        reveal_strlit("fn");
        assert(kw@ =~= kw_fn());
    }
    let q = match parse_keyword(s, p, &kw) {
        Some(q) => q,
        None => {
            return None;
        },
    };
    let (name, q1) = match parse_ident(s, q) {
        Some(x) => x,
        None => {
            return None;
        },
    };
    let (generics, q2) = parse_generics(s, q1);
    let (params, q3) = match parse_raw_params(s, q2) {
        Some(x) => x,
        None => {
            return None;
        },
    };
    let q4 = match parse_op(s, q3, &arrow_word()) {
        Some(q4) => q4,
        None => {
            return None;
        },
    };
    let (output, q5) = match parse_type(s, q4) {
        Some(x) => x,
        None => {
            return None;
        },
    };
    match parse_expr(s, q5) {
        None => None,
        Some((body, e)) => Some((RawMethod { name, generics, params, output, body }, e)),
    }
}

/// Resolves a method's parameters against the impl target.
#[verifier::loop_isolation(false)]
fn resolve_method_exec(target: &TypeExpr, m: RawMethod) -> (r: Option<FunctionDef>)
    ensures
        match resolve_method(type_view(*target), raw_method_view(m)) {
            Some(f) => r matches Some(x) && function_view(x) == f,
            None => r is None,
        },
{
    let ghost mv = raw_method_view(m);
    let ghost raw = raw_params_view(m.params@);
    let ghost tv = type_view(*target);
    proof {
        reveal_strlit("self");
    }
    if m.params.len() == 0 {
        return None;
    }
    let self_word = "self".to_owned();
    assert(self_word@ =~= kw_self());
    if m.params[0].name != self_word {
        assert(raw[0].name != kw_self());
        return None;
    }
    let RawMethod { name, generics, params, output, body } = m;
    let n = params.len();
    let mut rest = params;
    let mut out: Vec<Param> = Vec::new();
    let ghost resolved = Seq::new(
        raw.len(),
        |i: int|
            ParamV {
                flow: raw[i].flow,
                name: raw[i].name,
                ty: match raw[i].ty {
                    Some(t) => t,
                    None => tv,
                },
            },
    );
    while rest.len() > 0
        invariant
            out@.len() + rest@.len() == n == raw.len(),
            raw_params_view(rest@) == raw.subrange(out@.len() as int, n as int),
            params_view(out@) == resolved.subrange(0, out@.len() as int),
            forall|i: int| 1 <= i < out@.len() ==> (#[trigger] raw[i]).ty is Some,
        decreases rest@.len(),
    {
        let k = out.len();
        let ghost rest0 = rest@;
        let rp = rest.remove(0);
        assert(raw_param_view(rp) == raw[k as int]) by {
            assert(raw_params_view(rest0)[0] == raw_param_view(rp));
        }
        let ty = match rp.ty {
            Some(t) => t,
            None => {
                if k == 0 {
                    copy_type(target)
                } else {
                    assert(raw[k as int].ty is None);
                    return None;
                }
            },
        };
        let x = Param { flow: rp.flow, name: rp.name, ty };
        proof {
            assert(param_view(x) == resolved[k as int]);
            assert(params_view(out@.push(x)) =~= resolved.subrange(0, k + 1));
            assert(raw_params_view(rest@) =~= raw.subrange(k + 1, n as int)) by {
                assert forall|j: int| 0 <= j < rest@.len() implies raw_params_view(rest@)[j] == raw[k + 1 + j] by {
                    assert(rest@[j] == rest0[j + 1]);
                    assert(raw_params_view(rest0)[j + 1] == raw[k + 1 + j]);
                }
            }
        }
        out.push(x);
    }
    proof {
        assert(resolved.subrange(0, n as int) =~= resolved);
        assert(!(exists|i: int| 1 <= i < raw.len() && (#[trigger] raw[i]).ty is None));
    }
    let body = expr_to_block(body);
    Some(FunctionDef { name, generics, params: out, output, body })
}

fn parse_item(s: &Vec<char>, p: usize) -> (r: Option<(Item, usize)>)
    requires
        p <= s@.len(),
    ensures
        match sp_item(s@, p as int) {
            Some((x, q)) => r matches Some((y, q2)) && item_view(y) == x && q2 == q,
            None => r is None,
        },
        r matches Some((_, q)) ==> p < q <= s@.len(),
{
    if let Some(x) = parse_type_def(s, p) {
        return Some(x);
    }
    if let Some(x) = parse_struct_def(s, p) {
        return Some(x);
    }
    if let Some(x) = parse_enum_def(s, p) {
        return Some(x);
    }
    if let Some(x) = parse_global_def(s, p) {
        return Some(x);
    }
    if let Some((f, e)) = parse_function(s, p) {
        return Some((Item::Function(f), e));
    }
    if let Some(x) = parse_impl_def(s, p) {
        return Some(x);
    }
    parse_trait_def(s, p)
}

pub open spec fn oi(r: Option<(Item, usize)>) -> Option<(ItemV, int)> {
    match r {
        Some((x, q)) => Some((item_view(x), q as int)),
        None => None,
    }
}

pub open spec fn item_moves(s: Seq<char>, p: usize, r: Option<(Item, usize)>) -> bool {
    r matches Some((_, q)) ==> p < q <= s.len()
}

fn parse_type_def(s: &Vec<char>, p: usize) -> (r: Option<(Item, usize)>)
    requires
        p <= s@.len(),
    ensures
        oi(r) == sp_type_def(s@, p as int),
        item_moves(s@, p, r),
{
    let kw = word("type");
    proof {
        reveal_strlit("type");
        assert(kw@ =~= kw_type());
    }
    let q = match parse_keyword(s, p, &kw) {
        Some(q) => q,
        None => {
            return None;
        },
    };
    let (name, q1) = match parse_ident(s, q) {
        Some(x) => x,
        None => {
            return None;
        },
    };
    let (generics, q2) = parse_generics(s, q1);
    let q3 = match parse_sym(s, q2, '=') {
        Some(q3) => q3,
        None => {
            return None;
        },
    };
    let (ty, q4) = match parse_type(s, q3) {
        Some(x) => x,
        None => {
            return None;
        },
    };
    let (capabilities, e) = parse_caps(s, q4);
    Some((Item::Type(TypeDef { name, generics, ty, capabilities }), e))
}

fn parse_struct_def(s: &Vec<char>, p: usize) -> (r: Option<(Item, usize)>)
    requires
        p <= s@.len(),
    ensures
        oi(r) == sp_struct_def(s@, p as int),
        item_moves(s@, p, r),
{
    let kw = word("struct");
    proof {
        reveal_strlit("struct");
        assert(kw@ =~= kw_struct());
    }
    let q = match parse_keyword(s, p, &kw) {
        Some(q) => q,
        None => {
            return None;
        },
    };
    let (name, q1) = match parse_ident(s, q) {
        Some(x) => x,
        None => {
            return None;
        },
    };
    let (generics, q2) = parse_generics(s, q1);
    let (ty, q3) = match parse_struct_body(s, q2) {
        Some(x) => x,
        None => {
            return None;
        },
    };
    let (capabilities, e) = parse_caps(s, q3);
    Some((Item::Struct(TypeDef { name, generics, ty, capabilities }), e))
}

fn parse_enum_def(s: &Vec<char>, p: usize) -> (r: Option<(Item, usize)>)
    requires
        p <= s@.len(),
    ensures
        oi(r) == sp_enum_def(s@, p as int),
        item_moves(s@, p, r),
{
    let kw = word("enum");
    proof {
        reveal_strlit("enum");
        assert(kw@ =~= kw_enum());
    }
    let q = match parse_keyword(s, p, &kw) {
        Some(q) => q,
        None => {
            return None;
        },
    };
    let (name, q1) = match parse_ident(s, q) {
        Some(x) => x,
        None => {
            return None;
        },
    };
    let (generics, q2) = parse_generics(s, q1);
    let (ty, q3) = match parse_enum_body(s, q2) {
        Some(x) => x,
        None => {
            return None;
        },
    };
    let (capabilities, e) = parse_caps(s, q3);
    Some((Item::Enum(TypeDef { name, generics, ty, capabilities }), e))
}

fn parse_global_def(s: &Vec<char>, p: usize) -> (r: Option<(Item, usize)>)
    requires
        p <= s@.len(),
    ensures
        oi(r) == sp_global_def(s@, p as int),
        item_moves(s@, p, r),
{
    let kw = word("global");
    proof {
        reveal_strlit("global");
        assert(kw@ =~= kw_global());
    }
    let q = match parse_keyword(s, p, &kw) {
        Some(q) => q,
        None => {
            return None;
        },
    };
    let (name, q1) = match parse_ident(s, q) {
        Some(x) => x,
        None => {
            return None;
        },
    };
    let q2 = match parse_sym(s, q1, ':') {
        Some(q2) => q2,
        None => {
            return None;
        },
    };
    let (ty, q3) = match parse_type(s, q2) {
        Some(x) => x,
        None => {
            return None;
        },
    };
    match parse_sym(s, q3, '=') {
        None => Some((Item::Global(GlobalDef { name, ty, value: None }), q3)),
        Some(q4) => match parse_expr(s, q4) {
            None => Some((Item::Global(GlobalDef { name, ty, value: None }), q3)),
            Some((v, e)) => Some((Item::Global(GlobalDef { name, ty, value: Some(v) }), e)),
        },
    }
}

/// The methods of an impl body, as many as parse in a row.
#[verifier::loop_isolation(false)]
fn parse_methods(s: &Vec<char>, p: usize) -> (r: (Vec<RawMethod>, usize))
    requires
        p <= s@.len(),
    ensures
        (raw_methods_view(r.0@), r.1 as int) == sp_methods(s@, p as int, Seq::empty()),
        p <= r.1 <= s@.len(),
{
    let mut methods: Vec<RawMethod> = Vec::new();
    let mut at = p;
    proof {
        assert(raw_methods_view(methods@) =~= Seq::<RawMethodV>::empty());
    }
    let ghost start = sp_methods(s@, p as int, Seq::empty());
    loop
        invariant
            p <= at <= s@.len(),
            start == sp_methods(s@, at as int, raw_methods_view(methods@)),
        decreases s@.len() - at,
    {
        match parse_method(s, at) {
            None => {
                break;
            },
            Some((m, q6)) => {
                proof {
                    assert(raw_methods_view(methods@.push(m)) =~= raw_methods_view(methods@).push(raw_method_view(m)));
                }
                methods.push(m);
                at = q6;
            },
        }
    }
    (methods, at)
}

/// Every method resolved against the impl target, or `None` when one fails.
#[verifier::loop_isolation(false)]
fn resolve_methods_exec(target: &TypeExpr, methods: Vec<RawMethod>) -> (r: Option<Vec<FunctionDef>>)
    ensures
        match resolve_methods(type_view(*target), raw_methods_view(methods@)) {
            Some(fs) => r matches Some(v) && functions_view(v@) == fs,
            None => r is None,
        },
{
    let ghost tv = type_view(*target);
    let ghost ms = raw_methods_view(methods@);
    let n = methods.len();
    let mut rest = methods;
    let mut out: Vec<FunctionDef> = Vec::new();
    while rest.len() > 0
        invariant
            out@.len() + rest@.len() == n == ms.len(),
            tv == type_view(*target),
            raw_methods_view(rest@) == ms.subrange(out@.len() as int, n as int),
            forall|i: int| 0 <= i < out@.len() ==> resolve_method(tv, #[trigger] ms[i]) is Some,
            functions_view(out@) == Seq::new(out@.len() as nat, |i: int| resolve_method(tv, ms[i])->0),
        decreases rest@.len(),
    {
        let k = out.len();
        let ghost rest0 = rest@;
        let m = rest.remove(0);
        assert(raw_method_view(m) == ms[k as int]) by {
            assert(raw_methods_view(rest0)[0] == raw_method_view(m));
            assert(ms.subrange(k as int, n as int)[0] == ms[k as int]);
        }
        let f = match resolve_method_exec(target, m) {
            Some(f) => f,
            None => {
                assert(resolve_method(tv, ms[k as int]) is None);
                return None;
            },
        };
        proof {
            assert(function_view(f) == resolve_method(tv, ms[k as int])->0);
            assert(functions_view(out@.push(f)) =~= functions_view(out@).push(function_view(f)));
            assert(functions_view(out@.push(f)) =~= Seq::new((k + 1) as nat, |i: int| resolve_method(tv, ms[i])->0));
            assert(raw_methods_view(rest@) =~= ms.subrange(k + 1, n as int)) by {
                assert forall|j: int| 0 <= j < rest@.len() implies raw_methods_view(rest@)[j] == ms[k + 1 + j] by {
                    assert(rest@[j] == rest0[j + 1]);
                    assert(raw_methods_view(rest0)[j + 1] == ms[k + 1 + j]);
                }
            }
        }
        out.push(f);
    }
    proof {
        assert(!(exists|i: int| 0 <= i < ms.len() && resolve_method(tv, #[trigger] ms[i]) is None));
        assert(functions_view(out@) =~= resolve_methods(tv, ms)->0);
    }
    Some(out)
}

#[verifier::loop_isolation(false)]
fn parse_impl_def(s: &Vec<char>, p: usize) -> (r: Option<(Item, usize)>)
    requires
        p <= s@.len(),
    ensures
        oi(r) == sp_impl_def(s@, p as int),
        item_moves(s@, p, r),
{
    let kw = word("impl");
    proof {
        reveal_strlit("impl");
        assert(kw@ =~= kw_impl());
    }
    let q = match parse_keyword(s, p, &kw) {
        Some(q) => q,
        None => {
            return None;
        },
    };
    let (generics, q1) = parse_generics(s, q);
    let (first, q2) = match parse_type(s, q1) {
        Some(x) => x,
        None => {
            return None;
        },
    };
    let kw = word("for");
    proof {
        reveal_strlit("for");
        assert(kw@ =~= kw_for());
    }
    let (trait_ref, target, q3) = match parse_keyword(s, q2, &kw) {
        None => (None, first, q2),
        Some(q4) => match parse_type(s, q4) {
            None => (None, first, q2),
            Some((t, e)) => (Some(first), t, e),
        },
    };
    let q5 = match parse_sym(s, q3, '{') {
        Some(q5) => q5,
        None => {
            return None;
        },
    };
    let (methods, at) = parse_methods(s, q5);
    let e = match parse_sym(s, at, '}') {
        Some(e) => e,
        None => {
            return None;
        },
    };
    let out = match resolve_methods_exec(&target, methods) {
        Some(out) => out,
        None => {
            return None;
        },
    };
    Some((Item::Impl(ImplBlock { generics, trait_ref, target, methods: out }), e))
}

#[verifier::loop_isolation(false)]
fn parse_trait_def(s: &Vec<char>, p: usize) -> (r: Option<(Item, usize)>)
    requires
        p <= s@.len(),
    ensures
        oi(r) == sp_trait_def(s@, p as int),
        item_moves(s@, p, r),
{
    let kw = word("trait");
    proof {
        reveal_strlit("trait");
        assert(kw@ =~= kw_trait());
    }
    let q = match parse_keyword(s, p, &kw) {
        Some(q) => q,
        None => {
            return None;
        },
    };
    let (name, q1) = match parse_ident(s, q) {
        Some(x) => x,
        None => {
            return None;
        },
    };
    let (generics, q2) = parse_generics(s, q1);
    let q3 = match parse_sym(s, q2, '{') {
        Some(q3) => q3,
        None => {
            return None;
        },
    };
    let mut sigs: Vec<FunctionSig> = Vec::new();
    let mut at = q3;
    proof {
        assert(sigs_view(sigs@) =~= Seq::<FunctionSigV>::empty());
    }
    let ghost start = sp_sigs(s@, q3 as int, Seq::empty());
    loop
        invariant
            p < q3 <= at <= s@.len(),
            start == sp_sigs(s@, at as int, sigs_view(sigs@)),
        decreases s@.len() - at,
    {
        match parse_signature(s, at) {
            None => {
                break;
            },
            Some((f, q4)) => {
                proof {
                    assert(sigs_view(sigs@.push(f)) =~= sigs_view(sigs@).push(sig_view(f)));
                }
                sigs.push(f);
                at = q4;
            },
        }
    }
    match parse_sym(s, at, '}') {
        Some(e) => Some((Item::Trait(TraitDef { name, generics, methods: sigs }), e)),
        None => None,
    }
}

// ---------------------------------------------------------------------------
// Modules
// ---------------------------------------------------------------------------

/// The messages of a failed parse.
pub type ParseErrors = Vec<String>;

/// The decimal digit `d` as a character.
pub open spec fn digit_char(d: nat) -> char {
    if d == 0 {
        '0'
    } else if d == 1 {
        '1'
    } else if d == 2 {
        '2'
    } else if d == 3 {
        '3'
    } else if d == 4 {
        '4'
    } else if d == 5 {
        '5'
    } else if d == 6 {
        '6'
    } else if d == 7 {
        '7'
    } else if d == 8 {
        '8'
    } else {
        '9'
    }
}

/// `n` written in decimal, without leading zeros.
pub open spec fn decimal(n: nat) -> Seq<char>
    decreases n,
{
    if n < 10 {
        seq![digit_char(n)]
    } else {
        decimal(n / 10).push(digit_char(n % 10))
    }
}

/// The message of a parse that stopped at character `at` of the source.
pub open spec fn failure_message(at: nat) -> Seq<char> {
    seq!['u', 'n', 'e', 'x', 'p', 'e', 'c', 't', 'e', 'd', ' ', 'i', 'n', 'p', 'u', 't', ' ', 'a', 't', ' ']
        + decimal(at)
}

fn digit(d: usize) -> (c: char)
    requires
        d < 10,
    ensures
        c == digit_char(d as nat),
{
    match d {
        0 => '0',
        1 => '1',
        2 => '2',
        3 => '3',
        4 => '4',
        5 => '5',
        6 => '6',
        7 => '7',
        8 => '8',
        _ => '9',
    }
}

pub(crate) fn push_decimal(out: &mut String, n: usize)
    ensures
        final(out)@ == old(out)@ + decimal(n as nat),
    decreases n,
{
    if n >= 10 {
        push_decimal(out, n / 10);
    }
    out.push(digit(n % 10));
    proof {
        if n < 10 {
            assert(n % 10 == n);
        }
    }
}

fn failure_text(at: usize) -> (m: String)
    ensures
        m@ == failure_message(at as nat),
{
    let mut m = "unexpected input at ".to_owned();
    proof {
        reveal_strlit("unexpected input at ");
    }
    push_decimal(&mut m, at);
    m
}

/// The items of a module, as many as parse in a row from `p`.
#[verifier::loop_isolation(false)]
fn parse_items(s: &Vec<char>, p: usize) -> (r: (Vec<Item>, usize))
    requires
        p <= s@.len(),
    ensures
        (items_view(r.0@), r.1 as int) == sp_items(s@, p as int, Seq::empty()),
        p <= r.1 <= s@.len(),
{
    let mut items: Vec<Item> = Vec::new();
    let mut at = p;
    proof {
        assert(items_view(items@) =~= Seq::<ItemV>::empty());
    }
    let ghost start = sp_items(s@, p as int, Seq::empty());
    loop
        invariant
            p <= at <= s@.len(),
            start == sp_items(s@, at as int, items_view(items@)),
        decreases s@.len() - at,
    {
        match parse_item(s, at) {
            None => {
                break;
            },
            Some((item, q)) => {
                proof {
                    assert(items_view(items@.push(item)) =~= items_view(items@).push(item_view(item)));
                }
                items.push(item);
                at = q;
            },
        }
    }
    (items, at)
}

/// The characters of `src`, in order.
pub(crate) fn source_chars(src: &str) -> (w: Vec<char>)
    ensures
        w@ == src@,
{
    word(src)
}

/// Parses the items of a module from the start of the source to its end.
/// Where the items stop before the end, the result is `Err` with one
/// message that gives the character position where they stopped.
pub fn module_items(s: &Vec<char>) -> (r: Result<Vec<Item>, usize>)
    ensures
        match sp_module(s@) {
            Ok(items) => r matches Ok(v) && items_view(v@) == items,
            Err(e) => 0 <= e <= s@.len() && r == Err::<Vec<Item>, usize>(e as usize),
        },
{
    let p = skip_pad(s, 0);
    let (items, q) = parse_items(s, p);
    let e = skip_pad(s, q);
    if e == s.len() {
        Ok(items)
    } else {
        Err(e)
    }
}

/// Parses a module. On failure the errors hold one message, which names
/// the character position where the items stopped.
pub fn parse_module(src: &str) -> (r: Result<Module, ParseErrors>)
    ensures
        match sp_module(src@) {
            Ok(items) => r matches Ok(m) && items_view(m.items@) == items,
            Err(e) => r matches Err(errs) && errs@.len() == 1 && errs@[0]@ == failure_message(e as nat),
        },
{
    let s = source_chars(src);
    match module_items(&s) {
        Ok(items) => Ok(Module { items }),
        Err(e) => {
            let mut errs: Vec<String> = Vec::new();
            errs.push(failure_text(e));
            Err(errs)
        },
    }
}

// ---------------------------------------------------------------------------
// Copies of syntax trees
// ---------------------------------------------------------------------------

fn copy_opt_string(o: &Option<String>) -> (r: Option<String>)
    ensures
        opt_str(r) == opt_str(*o),
{
    match o {
        Some(s) => Some(s.clone()),
        None => None,
    }
}

/// A copy of a pattern.
#[verifier::loop_isolation(false)]
pub fn copy_pattern(p: &Pattern) -> (r: Pattern)
    ensures
        pattern_view(r) == pattern_view(*p),
    decreases p,
{
    match p {
        Pattern::Name(n) => Pattern::Name(n.clone()),
        Pattern::Wildcard => Pattern::Wildcard,
        Pattern::Unit => Pattern::Unit,
        Pattern::Tuple(ps) => {
            let mut out: Vec<Pattern> = Vec::new();
            let mut i: usize = 0;
            while i < ps.len()
                invariant
                    0 <= i <= ps@.len(),
                    patterns_view(out@) == patterns_view(ps@.subrange(0, i as int)),
                decreases ps@.len() - i,
            {
                let c = copy_pattern(&ps[i]);
                proof {
                    assert(ps@.subrange(0, i + 1) =~= ps@.subrange(0, i as int).push(ps@[i as int]));
                    assert(patterns_view(out@.push(c)) =~= patterns_view(out@).push(pattern_view(c)));
                    assert(patterns_view(ps@.subrange(0, i as int).push(ps@[i as int])) =~= patterns_view(
                        ps@.subrange(0, i as int),
                    ).push(pattern_view(ps@[i as int])));
                }
                out.push(c);
                i += 1;
            }
            proof {
                assert(ps@.subrange(0, ps@.len() as int) =~= ps@);
                lemma_tuple_pattern_view(out);
                lemma_tuple_pattern_view(*ps);
            }
            Pattern::Tuple(out)
        },
        Pattern::Record(fs) => {
            let mut out: Vec<Field<Pattern>> = Vec::new();
            let mut i: usize = 0;
            while i < fs.len()
                invariant
                    0 <= i <= fs@.len(),
                    pattern_fields_view(out@) == pattern_fields_view(fs@.subrange(0, i as int)),
                decreases fs@.len() - i,
            {
                let f = Field { name: copy_opt_string(&fs[i].name), value: copy_pattern(&fs[i].value) };
                proof {
                    assert(fs@.subrange(0, i + 1) =~= fs@.subrange(0, i as int).push(fs@[i as int]));
                    assert(pattern_fields_view(out@.push(f)) =~= pattern_fields_view(out@).push(
                        (opt_str(f.name), pattern_view(f.value)),
                    ));
                    assert(pattern_fields_view(fs@.subrange(0, i as int).push(fs@[i as int])) =~= pattern_fields_view(
                        fs@.subrange(0, i as int),
                    ).push((opt_str(fs@[i as int].name), pattern_view(fs@[i as int].value))));
                }
                out.push(f);
                i += 1;
            }
            proof {
                assert(fs@.subrange(0, fs@.len() as int) =~= fs@);
                lemma_record_pattern_view(out);
                lemma_record_pattern_view(*fs);
            }
            Pattern::Record(out)
        },
    }
}

fn copy_opt_type(t: &Option<TypeExpr>) -> (r: Option<TypeExpr>)
    ensures
        opt_type_view(r) == opt_type_view(*t),
{
    match t {
        Some(t) => Some(copy_type(t)),
        None => None,
    }
}

fn copy_opt_pattern(p: &Option<Pattern>) -> (r: Option<Pattern>)
    ensures
        opt_pattern_view(r) == opt_pattern_view(*p),
{
    match p {
        Some(p) => Some(copy_pattern(p)),
        None => None,
    }
}

/// A copy of a block.
#[verifier::loop_isolation(false)]
pub fn copy_block(b: &Block) -> (r: Block)
    ensures
        block_view(r) == block_view(*b),
    decreases b, 0int,
{
    let mut lets: Vec<LetStmt> = Vec::new();
    let mut i: usize = 0;
    while i < b.lets.len()
        invariant
            0 <= i <= b.lets@.len(),
            lets_view(lets@) == lets_view(b.lets@.subrange(0, i as int)),
        decreases b.lets@.len() - i,
    {
        let l = LetStmt {
            pattern: copy_pattern(&b.lets[i].pattern),
            ty: copy_opt_type(&b.lets[i].ty),
            value: copy_expr(&b.lets[i].value),
        };
        proof {
            let ls = b.lets@;
            assert(ls.subrange(0, i + 1) =~= ls.subrange(0, i as int).push(ls[i as int]));
            assert(lets_view(lets@.push(l)) =~= lets_view(lets@).push(let_view(l)));
            assert(lets_view(ls.subrange(0, i as int).push(ls[i as int])) =~= lets_view(ls.subrange(0, i as int)).push(
                let_view(ls[i as int]),
            ));
        }
        lets.push(l);
        i += 1;
    }
    let result = match &b.result {
        Some(e) => Some(Box::new(copy_expr(e))),
        None => None,
    };
    let r = Block { lets, result };
    proof {
        assert(b.lets@.subrange(0, b.lets@.len() as int) =~= b.lets@);
        lemma_block_view(r);
        lemma_block_view(*b);
    }
    r
}

/// A copy of an expression.
#[verifier::loop_isolation(false)]
pub fn copy_expr(e: &Expr) -> (r: Expr)
    ensures
        expr_view(r) == expr_view(*e),
    decreases e, 1int,
{
    match e {
        Expr::Name(n) => Expr::Name(n.clone()),
        Expr::Int(n) => Expr::Int(*n),
        Expr::String(t) => Expr::String(t.clone()),
        Expr::Unit => Expr::Unit,
        Expr::Block(b) => Expr::Block(copy_block(b)),
        Expr::Product(fs) => {
            let mut out: Vec<Field<Expr>> = Vec::new();
            let mut i: usize = 0;
            while i < fs.len()
                invariant
                    0 <= i <= fs@.len(),
                    expr_fields_view(out@) == expr_fields_view(fs@.subrange(0, i as int)),
                decreases fs@.len() - i,
            {
                let f = Field { name: copy_opt_string(&fs[i].name), value: copy_expr(&fs[i].value) };
                proof {
                    assert(fs@.subrange(0, i + 1) =~= fs@.subrange(0, i as int).push(fs@[i as int]));
                    assert(expr_fields_view(out@.push(f)) =~= expr_fields_view(out@).push(
                        (opt_str(f.name), expr_view(f.value)),
                    ));
                    assert(expr_fields_view(fs@.subrange(0, i as int).push(fs@[i as int])) =~= expr_fields_view(
                        fs@.subrange(0, i as int),
                    ).push((opt_str(fs@[i as int].name), expr_view(fs@[i as int].value))));
                }
                out.push(f);
                i += 1;
            }
            proof {
                assert(fs@.subrange(0, fs@.len() as int) =~= fs@);
                lemma_product_expr_view(out);
                lemma_product_expr_view(*fs);
            }
            Expr::Product(out)
        },
        Expr::Call { callee, args } => {
            let c = Box::new(copy_expr(callee));
            let a = copy_args(args);
            proof {
                lemma_call_view(c, a);
                lemma_call_view(*callee, *args);
            }
            Expr::Call { callee: c, args: a }
        },
        Expr::MethodCall { receiver, receiver_flow, method, args } => {
            let rc = Box::new(copy_expr(receiver));
            let m = method.clone();
            let a = copy_args(args);
            proof {
                lemma_method_view(rc, *receiver_flow, m, a);
                lemma_method_view(*receiver, *receiver_flow, *method, *args);
            }
            Expr::MethodCall { receiver: rc, receiver_flow: *receiver_flow, method: m, args: a }
        },
        Expr::FieldAccess { receiver, field } => Expr::FieldAccess {
            receiver: Box::new(copy_expr(receiver)),
            field: field.clone(),
        },
        Expr::Match { scrutinee, arms } => {
            let sc = Box::new(copy_expr(scrutinee));
            let mut out: Vec<MatchArm> = Vec::new();
            let mut i: usize = 0;
            while i < arms.len()
                invariant
                    0 <= i <= arms@.len(),
                    arms_view(out@) == arms_view(arms@.subrange(0, i as int)),
                decreases arms@.len() - i,
            {
                let a = MatchArm {
                    variant: arms[i].variant.clone(),
                    payload: copy_opt_pattern(&arms[i].payload),
                    body: copy_expr(&arms[i].body),
                };
                proof {
                    let xs = arms@;
                    assert(xs.subrange(0, i + 1) =~= xs.subrange(0, i as int).push(xs[i as int]));
                    assert(arms_view(out@.push(a)) =~= arms_view(out@).push(arm_view(a)));
                    assert(arms_view(xs.subrange(0, i as int).push(xs[i as int])) =~= arms_view(
                        xs.subrange(0, i as int),
                    ).push(arm_view(xs[i as int])));
                }
                out.push(a);
                i += 1;
            }
            proof {
                assert(arms@.subrange(0, arms@.len() as int) =~= arms@);
                lemma_match_view(sc, out);
                lemma_match_view(*scrutinee, *arms);
            }
            Expr::Match { scrutinee: sc, arms: out }
        },
        Expr::If { condition, then_branch, else_branch } => Expr::If {
            condition: Box::new(copy_expr(condition)),
            then_branch: copy_block(then_branch),
            else_branch: copy_block(else_branch),
        },
        Expr::Binary { lhs, op, rhs } => Expr::Binary {
            lhs: Box::new(copy_expr(lhs)),
            op: *op,
            rhs: Box::new(copy_expr(rhs)),
        },
    }
}

/// A copy of call arguments.
#[verifier::loop_isolation(false)]
fn copy_args(args: &Vec<Arg>) -> (r: Vec<Arg>)
    ensures
        args_view(r@) == args_view(args@),
    decreases args@, 0int,
{
    let mut out: Vec<Arg> = Vec::new();
    let mut i: usize = 0;
    while i < args.len()
        invariant
            0 <= i <= args@.len(),
            args_view(out@) == args_view(args@.subrange(0, i as int)),
        decreases args@.len() - i,
    {
        let a = Arg { flow: args[i].flow, label: copy_opt_string(&args[i].label), value: copy_expr(&args[i].value) };
        proof {
            let xs = args@;
            assert(xs.subrange(0, i + 1) =~= xs.subrange(0, i as int).push(xs[i as int]));
            assert(args_view(out@.push(a)) =~= args_view(out@).push(arg_view(a)));
            assert(args_view(xs.subrange(0, i as int).push(xs[i as int])) =~= args_view(xs.subrange(0, i as int)).push(
                arg_view(xs[i as int]),
            ));
        }
        out.push(a);
        i += 1;
    }
    assert(args@.subrange(0, args@.len() as int) =~= args@);
    out
}


/// The messages of a failed parse, each with the span it points at.
pub type ParseDiagnostics = Vec<Diagnostic>;

/// The byte offset of character `k` of `s` in UTF-8.
pub open spec fn char_byte_offset(s: Seq<char>, k: int) -> int
    decreases k,
{
    if k <= 0 || k > s.len() {
        0
    } else {
        char_byte_offset(s, k - 1) + crate::frontend::diagnostic::utf8_len(s[k - 1])
    }
}

/// `n`, or `usize::MAX` where it does not fit.
pub open spec fn clamp_usize(n: int) -> usize {
    if n > usize::MAX {
        usize::MAX
    } else {
        n as usize
    }
}

/// The span of the character at `k`: its bytes, or the empty span at the
/// end of the source.
pub open spec fn char_span(s: Seq<char>, k: int) -> SourceSpan {
    let start = char_byte_offset(s, k);
    let width = if 0 <= k < s.len() {
        crate::frontend::diagnostic::utf8_len(s[k])
    } else {
        0
    };
    SourceSpan { start: clamp_usize(start), end: clamp_usize(start + width) }
}

proof fn lemma_char_byte_offset_bounds(s: Seq<char>, k: int)
    requires
        0 <= k,
    ensures
        0 <= char_byte_offset(s, k) <= 4 * k,
    decreases k,
{
    if 0 < k <= s.len() {
        lemma_char_byte_offset_bounds(s, k - 1);
    }
}

fn clamp_to_usize(n: u128) -> (r: usize)
    ensures
        r == clamp_usize(n as int),
{
    if n > usize::MAX as u128 {
        usize::MAX
    } else {
        n as usize
    }
}

fn utf8_width_of(c: char) -> (n: u128)
    ensures
        n == crate::frontend::diagnostic::utf8_len(c),
{
    let code = c as u32;
    if code < 0x80 {
        1
    } else if code < 0x800 {
        2
    } else if code < 0x10000 {
        3
    } else {
        4
    }
}

/// The span of character `k` of `s`.
fn span_at(s: &Vec<char>, k: usize) -> (r: SourceSpan)
    requires
        k <= s@.len(),
    ensures
        r == char_span(s@, k as int),
{
    let mut offset: u128 = 0;
    let mut i: usize = 0;
    while i < k
        invariant
            0 <= i <= k <= s@.len(),
            offset == char_byte_offset(s@, i as int),
        decreases k - i,
    {
        proof {
            lemma_char_byte_offset_bounds(s@, i as int);
        }
        offset = offset + utf8_width_of(s[i]);
        i += 1;
    }
    proof {
        lemma_char_byte_offset_bounds(s@, k as int);
    }
    let width: u128 = if k < s.len() {
        utf8_width_of(s[k])
    } else {
        0
    };
    SourceSpan { start: clamp_to_usize(offset), end: clamp_to_usize(offset + width) }
}

/// Parses a module, reporting a failure as one diagnostic whose span is the
/// character where the items stopped.
pub fn parse_module_diagnostics(src: &str) -> (r: Result<Module, ParseDiagnostics>)
    ensures
        match sp_module(src@) {
            Ok(items) => r matches Ok(m) && items_view(m.items@) == items,
            Err(e) => r matches Err(ds) && ds@.len() == 1 && ds@[0].message@ == failure_message(e as nat)
                && ds@[0].span == Some(char_span(src@, e)),
        },
{
    let s = source_chars(src);
    match module_items(&s) {
        Ok(items) => Ok(Module { items }),
        Err(e) => {
            let mut ds: Vec<Diagnostic> = Vec::new();
            ds.push(Diagnostic { message: failure_text(e), span: Some(span_at(&s, e)) });
            Err(ds)
        },
    }
}


/// The character at the first position at or after `p` that is not
/// blank or comment, if there is one.
pub open spec fn next_char(s: Seq<char>, p: int) -> Option<char> {
    let q = pad(s, p);
    if 0 <= q < s.len() {
        Some(s[q])
    } else {
        None
    }
}

/// Additive and multiplicative operators are told apart by their
/// character: the sum level takes exactly `+` (add) and `-` (subtract), the
/// product level exactly `*` (multiply) and `/` (divide), each moving past
/// the operator and the blanks after it. So `*` and `/` are never read at
/// the sum level, and `+` and `-` never at the product level, which makes
/// the product level bind tighter.
pub proof fn law_operator_levels(s: Seq<char>, p: int)
    ensures
        sp_sum_op(s, p) matches Some((op, q)) ==> {
            &&& (op == BinaryOp::Add && next_char(s, p) == Some('+')) || (op == BinaryOp::Sub && next_char(s, p)
                == Some('-'))
            &&& q == pad(s, pad(s, p) + 1)
        },
        sp_product_op(s, p) matches Some((op, q)) ==> {
            &&& (op == BinaryOp::Mul && next_char(s, p) == Some('*')) || (op == BinaryOp::Div && next_char(s, p)
                == Some('/'))
            &&& q == pad(s, pad(s, p) + 1)
        },
        next_char(s, p) == Some('+') ==> sp_sum_op(s, p) == Some((BinaryOp::Add, pad(s, pad(s, p) + 1)))
            && sp_product_op(s, p) is None,
        next_char(s, p) == Some('-') ==> sp_sum_op(s, p) == Some((BinaryOp::Sub, pad(s, pad(s, p) + 1)))
            && sp_product_op(s, p) is None,
        next_char(s, p) == Some('*') ==> sp_product_op(s, p) == Some((BinaryOp::Mul, pad(s, pad(s, p) + 1)))
            && sp_sum_op(s, p) is None,
        next_char(s, p) == Some('/') ==> sp_product_op(s, p) == Some((BinaryOp::Div, pad(s, pad(s, p) + 1)))
            && sp_sum_op(s, p) is None,
{
    lemma_op1(s, p, '+');
    lemma_op1(s, p, '-');
    lemma_op1(s, p, '*');
    lemma_op1(s, p, '/');
}

/// Comparison operators are told apart by their characters: `==`, `!=`,
/// `<=`, `>=` as two characters, and `<`, `>` alone only when no `=`
/// follows.
pub proof fn law_comparison_operators(s: Seq<char>, p: int)
    ensures
        sp_compare_op(s, p) matches Some((op, q)) ==> {
            let c = pad(s, p);
            &&& 0 <= c < s.len()
            &&& match op {
                BinaryOp::Eq => c + 1 < s.len() && s[c] == '=' && s[c + 1] == '=' && q == pad(s, c + 2),
                BinaryOp::NotEq => c + 1 < s.len() && s[c] == '!' && s[c + 1] == '=' && q == pad(s, c + 2),
                BinaryOp::Lte => c + 1 < s.len() && s[c] == '<' && s[c + 1] == '=' && q == pad(s, c + 2),
                BinaryOp::Gte => c + 1 < s.len() && s[c] == '>' && s[c + 1] == '=' && q == pad(s, c + 2),
                BinaryOp::Lt => s[c] == '<' && !(c + 1 < s.len() && s[c + 1] == '=') && q == pad(s, c + 1),
                BinaryOp::Gt => s[c] == '>' && !(c + 1 < s.len() && s[c + 1] == '=') && q == pad(s, c + 1),
                _ => false,
            }
        },
        next_char(s, p) == Some('<') ==> sp_compare_op(s, p) is Some,
        next_char(s, p) == Some('>') ==> sp_compare_op(s, p) is Some,
{
    lemma_op2(s, p, '=', '=');
    lemma_op2(s, p, '!', '=');
    lemma_op2(s, p, '<', '=');
    lemma_op2(s, p, '>', '=');
    lemma_op1(s, p, '<');
    lemma_op1(s, p, '>');
}

/// A one-character operator is read exactly where that character comes
/// next.
proof fn lemma_op1(s: Seq<char>, p: int, a: char)
    ensures
        sp_op(s, p, seq![a]) == if next_char(s, p) == Some(a) {
            Some(pad(s, pad(s, p) + 1))
        } else {
            None::<int>
        },
{
    let q = pad(s, p);
    if 0 <= q < s.len() {
        assert(s.subrange(q, q + 1) =~= seq![s[q]]);
        if s[q] != a {
            assert(s.subrange(q, q + 1) != seq![a]) by {
                assert(s.subrange(q, q + 1)[0] == s[q]);
            }
        }
    }
}

/// A two-character operator is read exactly where those characters come
/// next.
proof fn lemma_op2(s: Seq<char>, p: int, a: char, b: char)
    ensures
        sp_op(s, p, seq![a, b]) == {
            let c = pad(s, p);
            if 0 <= c && c + 1 < s.len() && s[c] == a && s[c + 1] == b {
                Some(pad(s, c + 2))
            } else {
                None::<int>
            }
        },
{
    let c = pad(s, p);
    if 0 <= c && c + 1 < s.len() {
        assert(s.subrange(c, c + 2) =~= seq![s[c], s[c + 1]]);
        if s[c] != a || s[c + 1] != b {
            assert(s.subrange(c, c + 2) != seq![a, b]) by {
                assert(s.subrange(c, c + 2)[0] == s[c]);
                assert(s.subrange(c, c + 2)[1] == s[c + 1]);
                assert(seq![a, b][0] == a);
                assert(seq![a, b][1] == b);
            }
        }
    }
}

/// A run of sums joins its operands only by `+` and `-`: what it returns is
/// the operand it started with, or a binary node whose operator is add or
/// subtract.
pub proof fn law_sum_joins_additively(s: Seq<char>, p: int, lhs: ExprV)
    ensures
        sp_sum_rest(s, p, lhs).0 == lhs || (sp_sum_rest(s, p, lhs).0 matches ExprV::Binary(_, op, _) && (op
            == BinaryOp::Add || op == BinaryOp::Sub)),
    decreases s.len() - p,
{
    law_operator_levels(s, p);
    match sp_sum_op(s, p) {
        None => {},
        Some((op, q)) => if fwd(s, p, q) {
            match sp_product(s, q) {
                None => {},
                Some((rhs, r)) => if fwd(s, q, r) {
                    law_sum_joins_additively(s, r, ExprV::Binary(Box::new(lhs), op, Box::new(rhs)));
                },
            }
        },
    }
}

/// A run of products joins its operands only by `*` and `/`: what it
/// returns is the operand it started with, or a binary node whose operator
/// is multiply or divide.
pub proof fn law_product_joins_multiplicatively(s: Seq<char>, p: int, lhs: ExprV)
    ensures
        sp_product_rest(s, p, lhs).0 == lhs || (sp_product_rest(s, p, lhs).0 matches ExprV::Binary(_, op, _) && (op
            == BinaryOp::Mul || op == BinaryOp::Div)),
    decreases s.len() - p,
{
    law_operator_levels(s, p);
    match sp_product_op(s, p) {
        None => {},
        Some((op, q)) => if fwd(s, p, q) {
            match sp_chain(s, q) {
                None => {},
                Some((rhs, r)) => if fwd(s, q, r) {
                    law_product_joins_multiplicatively(s, r, ExprV::Binary(Box::new(lhs), op, Box::new(rhs)));
                },
            }
        },
    }
}

} // verus!
