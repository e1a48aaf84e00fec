//! Printing then parsing: the text that [`crate::format`] renders reads back,
//! through [`crate::parser`], as the tree it was rendered from.

use vstd::prelude::*;
use crate::ast::SpecExpr;
use crate::format::precedence_of;
use crate::parser::{
    parsed, SpecParseError, call_at, expression_at, expression_rest, parsed_tokens,
    power_at, primary_at, term_at, term_rest, unary_at,
};
use crate::parser::tokenizer::{
    SpecToken, equal_tokens, is_blank, is_number_char, is_valid_literal, lex_from, lexed, lemma_lex_concat,
    name_end, name_token, number_end, separated, symbol_token,
};
use crate::floats::{NEG_ONE, SpecQuery, SpecTable};
use crate::text::{is_ascii_letter, name_char};

verus! {

/// The tokens of an expression's printed form without outer parentheses.
pub open spec fn token_body(e: SpecExpr) -> Seq<SpecToken>
    decreases e, 0int,
{
    match e {
        SpecExpr::Num(n) => seq![SpecToken::Num(n)],
        SpecExpr::Var(s) => seq![SpecToken::Var(s)],
        SpecExpr::Neg(x) => seq![SpecToken::Minus] + token_form(*x, 4),
        SpecExpr::Add(l, r) => token_form(*l, 1) + seq![SpecToken::Plus] + token_form(*r, 1),
        SpecExpr::Mul(l, r) => match *r {
            SpecExpr::Pow(b, k) if *k == SpecExpr::Num(NEG_ONE) => token_form(*l, 2) + seq![SpecToken::Slash]
                + token_form(*b, 3),
            _ => token_form(*l, 2) + seq![SpecToken::Star] + token_form(*r, 2),
        },
        SpecExpr::Pow(l, r) => token_form(*l, 4) + seq![SpecToken::Caret] + token_form(*r, 3),
        SpecExpr::Ln(x) => seq![SpecToken::Ln, SpecToken::LParen] + token_form(*x, 0) + seq![SpecToken::RParen],
        SpecExpr::Sin(x) => seq![SpecToken::Sin, SpecToken::LParen] + token_form(*x, 0) + seq![SpecToken::RParen],
        SpecExpr::Cos(x) => seq![SpecToken::Cos, SpecToken::LParen] + token_form(*x, 0) + seq![SpecToken::RParen],
    }
}

/// The tokens of an expression's printed form under parent precedence `p`.
pub open spec fn token_form(e: SpecExpr, p: u8) -> Seq<SpecToken>
    decreases e, 1int,
{
    if precedence_of(e) < p {
        seq![SpecToken::LParen] + token_body(e) + seq![SpecToken::RParen]
    } else {
        token_body(e)
    }
}

/// No sum has a sum as its right operand and no product a product: the shapes
/// that printing without parentheses keeps apart from left-grouped chains.
pub open spec fn nests_left(e: SpecExpr) -> bool
    decreases e,
{
    match e {
        SpecExpr::Add(l, r) => !(*r is Add) && nests_left(*l) && nests_left(*r),
        SpecExpr::Mul(l, r) => !(*r is Mul) && nests_left(*l) && nests_left(*r),
        SpecExpr::Pow(l, r) => nests_left(*l) && nests_left(*r),
        SpecExpr::Ln(x) | SpecExpr::Neg(x) | SpecExpr::Sin(x) | SpecExpr::Cos(x) => nests_left(*x),
        _ => true,
    }
}

/// No `^` stands at `i`.
pub open spec fn no_caret_at(ts: Seq<SpecToken>, i: int) -> bool {
    i >= ts.len() || !(ts[i] is Caret)
}

/// No `*` or `/` stands at `i`.
pub open spec fn no_product_at(ts: Seq<SpecToken>, i: int) -> bool {
    i >= ts.len() || !(ts[i] is Star || ts[i] is Slash)
}

proof fn lemma_piece(ts: Seq<SpecToken>, k: int, f: Seq<SpecToken>, i: int, j: int)
    requires
        0 <= k,
        k + f.len() <= ts.len(),
        ts.subrange(k, k + f.len()) == f,
        0 <= i <= j <= f.len(),
    ensures
        ts.subrange(k + i, k + j) == f.subrange(i, j),
        forall|m: int| i <= m < j ==> ts[k + m] == #[trigger] f[m],
{
    assert forall|m: int| i <= m < j implies ts[k + m] == #[trigger] f[m] by {
        assert(ts.subrange(k, k + f.len())[m] == ts[k + m]);
    }
    assert(ts.subrange(k + i, k + j) =~= f.subrange(i, j));
}

proof fn lemma_levels_from_power(ts: Seq<SpecToken>, k: int, end: int, e: SpecExpr)
    requires
        0 <= k < end <= ts.len(),
        power_at(ts, k) == Ok::<(SpecExpr, int), SpecParseError>((e, end)),
    ensures
        term_at(ts, k) == term_rest(ts, end, e),
        no_product_at(ts, end) ==> expression_at(ts, k) == expression_rest(ts, end, e),
{
}

proof fn lemma_levels_from_unary(ts: Seq<SpecToken>, k: int, end: int, e: SpecExpr)
    requires
        0 <= k < end <= ts.len(),
        unary_at(ts, k) == Ok::<(SpecExpr, int), SpecParseError>((e, end)),
    ensures
        no_caret_at(ts, end) ==> power_at(ts, k) == Ok::<(SpecExpr, int), SpecParseError>((e, end)),
        no_caret_at(ts, end) ==> term_at(ts, k) == term_rest(ts, end, e),
        no_caret_at(ts, end) && no_product_at(ts, end) ==> expression_at(ts, k) == expression_rest(ts, end, e),
{
    if no_caret_at(ts, end) {
        lemma_levels_from_power(ts, k, end, e);
    }
}

proof fn lemma_token_form_nonempty(e: SpecExpr, p: u8)
    ensures
        token_form(e, p).len() >= 1,
        token_body(e).len() >= 1,
        token_form(e, 0) == token_body(e),
{
    reveal_with_fuel(token_form, 2);
}

/// The printed tokens of `e` under precedence `p` stand at `k` in `ts`.
pub open spec fn form_at(e: SpecExpr, p: u8, ts: Seq<SpecToken>, k: int) -> bool {
    &&& 0 <= k
    &&& k + token_form(e, p).len() <= ts.len()
    &&& ts.subrange(k, k + token_form(e, p).len()) == token_form(e, p)
}

/// Each level of the grammar that can hold `e`, printed under `p`, reads exactly
/// `e` at `k`, given what follows it.
pub open spec fn reads_at(e: SpecExpr, p: u8, ts: Seq<SpecToken>, k: int) -> bool {
    let end = k + token_form(e, p).len();
    &&& (precedence_of(e) >= 4 || precedence_of(e) < p) ==> unary_at(ts, k) == Ok::<(SpecExpr, int), SpecParseError>((e, end))
    &&& ((precedence_of(e) >= 3 || precedence_of(e) < p) && no_caret_at(ts, end)) ==> power_at(ts, k)
        == Ok::<(SpecExpr, int), SpecParseError>((e, end))
    &&& ((precedence_of(e) >= 2 || precedence_of(e) < p) && no_caret_at(ts, end)) ==> term_at(ts, k)
        == term_rest(ts, end, e)
    &&& (no_caret_at(ts, end) && no_product_at(ts, end)) ==> expression_at(ts, k) == expression_rest(ts, end, e)
}

proof fn lemma_split3(ts: Seq<SpecToken>, k: int, a: Seq<SpecToken>, x: SpecToken, b: Seq<SpecToken>)
    requires
        0 <= k,
        k + (a + seq![x] + b).len() <= ts.len(),
        ts.subrange(k, k + (a + seq![x] + b).len()) == a + seq![x] + b,
    ensures
        ts.subrange(k, k + a.len()) == a,
        ts[k + a.len()] == x,
        ts.subrange(k + a.len() + 1, k + a.len() + 1 + b.len()) == b,
{
    let f = a + seq![x] + b;
    lemma_piece(ts, k, f, 0, a.len() as int);
    lemma_piece(ts, k, f, a.len() as int, a.len() as int + 1);
    lemma_piece(ts, k, f, a.len() as int + 1, f.len() as int);
    assert(f.subrange(0, a.len() as int) =~= a);
    assert(f.subrange(a.len() as int + 1, f.len() as int) =~= b);
    assert(f[a.len() as int] == x);
}

proof fn lemma_leaf_reads(e: SpecExpr, p: u8, ts: Seq<SpecToken>, k: int)
    requires
        e is Num || e is Var,
        precedence_of(e) >= p,
        form_at(e, p, ts, k),
    ensures
        reads_at(e, p, ts, k),
{
    let f = token_form(e, p);
    assert(f == token_body(e));
    lemma_piece(ts, k, f, 0, 1);
    assert(ts[k] == f[0]);
    let end = k + 1;
    match e {
        SpecExpr::Num(n) => {
            assert(ts[k] == SpecToken::Num(n));
            assert(primary_at(ts, k) == Ok::<(SpecExpr, int), SpecParseError>((e, end)));
        },
        SpecExpr::Var(v) => {
            assert(ts[k] == SpecToken::Var(v));
            assert(primary_at(ts, k) == Ok::<(SpecExpr, int), SpecParseError>((e, end)));
        },
        _ => {},
    }
    assert(unary_at(ts, k) == Ok::<(SpecExpr, int), SpecParseError>((e, end)));
    lemma_levels_from_unary(ts, k, end, e);
}

proof fn lemma_paren_reads(e: SpecExpr, p: u8, ts: Seq<SpecToken>, k: int)
    requires
        precedence_of(e) < p,
        form_at(e, p, ts, k),
        reads_at(e, 0, ts, k + 1),
        token_form(e, 0) == token_body(e),
    ensures
        reads_at(e, p, ts, k),
{
    let b = token_body(e);
    let f = token_form(e, p);
    assert(f == seq![SpecToken::LParen] + b + seq![SpecToken::RParen]);
    assert(f =~= seq![SpecToken::LParen] + (b + seq![SpecToken::RParen]));
    lemma_piece(ts, k, f, 0, 1);
    lemma_piece(ts, k, f, 1 + b.len() as int, f.len() as int);
    assert(f[0] == SpecToken::LParen);
    assert(ts[k] == f[0]);
    let end = k + f.len();
    let inner_end = k + 1 + b.len();
    assert(f[1 + b.len() as int] == SpecToken::RParen);
    assert(ts[inner_end] == SpecToken::RParen);
    assert(expression_rest(ts, inner_end, e) == Ok::<(SpecExpr, int), SpecParseError>((e, inner_end)));
    assert(equal_tokens(ts[inner_end], SpecToken::RParen));
    assert(ts[k] == SpecToken::LParen);
    assert(primary_at(ts, k) == Ok::<(SpecExpr, int), SpecParseError>((e, end)));
    assert(unary_at(ts, k) == Ok::<(SpecExpr, int), SpecParseError>((e, end)));
    lemma_levels_from_unary(ts, k, end, e);
}

proof fn lemma_neg_reads(e: SpecExpr, x: SpecExpr, p: u8, ts: Seq<SpecToken>, k: int)
    requires
        e == SpecExpr::negate(x),
        precedence_of(e) >= p,
        form_at(e, p, ts, k),
        reads_at(x, 4, ts, k + 1),
        token_form(x, 4).len() >= 1,
    ensures
        reads_at(e, p, ts, k),
{
    let f = token_form(e, p);
    assert(f == seq![SpecToken::Minus] + token_form(x, 4));
    lemma_piece(ts, k, f, 0, 1);
    assert(f[0] == SpecToken::Minus);
    assert(ts[k] == f[0]);
    let end = k + f.len();
    assert(unary_at(ts, k) == Ok::<(SpecExpr, int), SpecParseError>((e, end)));
    lemma_levels_from_unary(ts, k, end, e);
}

proof fn lemma_call_reads(e: SpecExpr, x: SpecExpr, head: SpecToken, p: u8, ts: Seq<SpecToken>, k: int)
    requires
        (e == SpecExpr::log(x) && head == SpecToken::Ln) || (e == SpecExpr::sine(x) && head == SpecToken::Sin)
            || (e == SpecExpr::cosine(x) && head == SpecToken::Cos),
        precedence_of(e) >= p,
        form_at(e, p, ts, k),
        reads_at(x, 0, ts, k + 2),
        token_form(x, 0).len() >= 1,
    ensures
        reads_at(e, p, ts, k),
{
    let xf = token_form(x, 0);
    let f = token_form(e, p);
    assert(f == seq![head, SpecToken::LParen] + xf + seq![SpecToken::RParen]);
    lemma_piece(ts, k, f, 0, 2);
    lemma_piece(ts, k, f, 2 + xf.len() as int, f.len() as int);
    assert(f[0] == head && f[1] == SpecToken::LParen);
    assert(ts[k] == f[0] && ts[k + 1] == f[1]);
    let end = k + f.len();
    let xend = k + 2 + xf.len();
    assert(f[2 + xf.len() as int] == SpecToken::RParen);
    assert(ts[xend] == SpecToken::RParen);
    assert(expression_rest(ts, xend, x) == Ok::<(SpecExpr, int), SpecParseError>((x, xend)));
    assert(ts[k + 1] == SpecToken::LParen);
    assert(equal_tokens(ts[k + 1], SpecToken::LParen));
    assert(equal_tokens(ts[xend], SpecToken::RParen));
    assert(call_at(ts, k) == Ok::<(SpecExpr, int), SpecParseError>((x, end)));
    assert(ts[k] == head);
    assert(unary_at(ts, k) == Ok::<(SpecExpr, int), SpecParseError>((e, end)));
    lemma_levels_from_unary(ts, k, end, e);
}

proof fn lemma_pow_reads(e: SpecExpr, l: SpecExpr, r: SpecExpr, p: u8, ts: Seq<SpecToken>, k: int)
    requires
        e == SpecExpr::power(l, r),
        precedence_of(e) >= p,
        form_at(e, p, ts, k),
        reads_at(l, 4, ts, k),
        reads_at(r, 3, ts, k + token_form(l, 4).len() + 1),
        token_form(l, 4).len() >= 1,
        token_form(r, 3).len() >= 1,
    ensures
        reads_at(e, p, ts, k),
{
    let lf = token_form(l, 4);
    let rf = token_form(r, 3);
    let f = token_form(e, p);
    assert(f == lf + seq![SpecToken::Caret] + rf);
    lemma_split3(ts, k, lf, SpecToken::Caret, rf);
    let end = k + f.len();
    if no_caret_at(ts, end) {
        assert(power_at(ts, k) == Ok::<(SpecExpr, int), SpecParseError>((e, end)));
        lemma_levels_from_power(ts, k, end, e);
    }
}

proof fn lemma_mul_reads(e: SpecExpr, l: SpecExpr, r: SpecExpr, p: u8, ts: Seq<SpecToken>, k: int)
    requires
        e == SpecExpr::times(l, r),
        !(r is Mul),
        !(r matches SpecExpr::Pow(_, x) && *x == SpecExpr::Num(NEG_ONE)),
        precedence_of(e) >= p,
        form_at(e, p, ts, k),
        reads_at(l, 2, ts, k),
        reads_at(r, 2, ts, k + token_form(l, 2).len() + 1),
        token_form(l, 2).len() >= 1,
        token_form(r, 2).len() >= 1,
    ensures
        reads_at(e, p, ts, k),
{
    let lf = token_form(l, 2);
    let rf = token_form(r, 2);
    let f = token_form(e, p);
    assert(f == lf + seq![SpecToken::Star] + rf);
    lemma_split3(ts, k, lf, SpecToken::Star, rf);
    let end = k + f.len();
    let lend = k + lf.len();
    assert(ts[lend] == SpecToken::Star);
    if no_caret_at(ts, end) {
        assert(power_at(ts, lend + 1) == Ok::<(SpecExpr, int), SpecParseError>((r, end)));
        assert(term_rest(ts, lend, l) == term_rest(ts, end, e));
        assert(term_at(ts, k) == term_rest(ts, end, e));
        if no_product_at(ts, end) {
            assert(term_rest(ts, end, e) == Ok::<(SpecExpr, int), SpecParseError>((e, end)));
        }
    }
}

proof fn lemma_div_reads(e: SpecExpr, l: SpecExpr, b: SpecExpr, p: u8, ts: Seq<SpecToken>, k: int)
    requires
        e == SpecExpr::times(l, SpecExpr::power(b, SpecExpr::Num(NEG_ONE))),
        precedence_of(e) >= p,
        form_at(e, p, ts, k),
        reads_at(l, 2, ts, k),
        reads_at(b, 3, ts, k + token_form(l, 2).len() + 1),
        token_form(l, 2).len() >= 1,
        token_form(b, 3).len() >= 1,
    ensures
        reads_at(e, p, ts, k),
{
    let lf = token_form(l, 2);
    let bf = token_form(b, 3);
    let f = token_form(e, p);
    assert(f == lf + seq![SpecToken::Slash] + bf);
    lemma_split3(ts, k, lf, SpecToken::Slash, bf);
    let end = k + f.len();
    let lend = k + lf.len();
    assert(ts[lend] == SpecToken::Slash);
    if no_caret_at(ts, end) {
        assert(power_at(ts, lend + 1) == Ok::<(SpecExpr, int), SpecParseError>((b, end)));
        assert(term_rest(ts, lend, l) == term_rest(ts, end, e));
        assert(term_at(ts, k) == term_rest(ts, end, e));
        if no_product_at(ts, end) {
            assert(term_rest(ts, end, e) == Ok::<(SpecExpr, int), SpecParseError>((e, end)));
        }
    }
}

proof fn lemma_add_reads(e: SpecExpr, l: SpecExpr, r: SpecExpr, p: u8, ts: Seq<SpecToken>, k: int)
    requires
        e == SpecExpr::plus(l, r),
        !(r is Add),
        precedence_of(e) >= p,
        form_at(e, p, ts, k),
        reads_at(l, 1, ts, k),
        reads_at(r, 1, ts, k + token_form(l, 1).len() + 1),
        token_form(l, 1).len() >= 1,
        token_form(r, 1).len() >= 1,
    ensures
        reads_at(e, p, ts, k),
{
    let lf = token_form(l, 1);
    let rf = token_form(r, 1);
    let f = token_form(e, p);
    assert(f == lf + seq![SpecToken::Plus] + rf);
    lemma_split3(ts, k, lf, SpecToken::Plus, rf);
    let end = k + f.len();
    let lend = k + lf.len();
    assert(ts[lend] == SpecToken::Plus);
    if no_caret_at(ts, end) && no_product_at(ts, end) {
        assert(term_rest(ts, end, r) == Ok::<(SpecExpr, int), SpecParseError>((r, end)));
        assert(term_at(ts, lend + 1) == Ok::<(SpecExpr, int), SpecParseError>((r, end)));
        assert(expression_rest(ts, lend, l) == expression_rest(ts, end, e));
    }
}

/// Where the printed tokens of `e` stand at `k` in `ts`, each level of the
/// grammar that can hold `e` reads exactly `e` there.
pub proof fn lemma_parse_token_form(e: SpecExpr, p: u8, ts: Seq<SpecToken>, k: int)
    requires
        nests_left(e),
        form_at(e, p, ts, k),
    ensures
        reads_at(e, p, ts, k),
    decreases e.size(), if precedence_of(e) < p { 1int } else { 0int },
{
    let f = token_form(e, p);
    lemma_token_form_nonempty(e, p);
    if precedence_of(e) < p {
        let b = token_body(e);
        assert(f == seq![SpecToken::LParen] + b + seq![SpecToken::RParen]);
        lemma_piece(ts, k, f, 1, 1 + b.len() as int);
        assert(f.subrange(1, 1 + b.len() as int) =~= b);
        lemma_parse_token_form(e, 0, ts, k + 1);
        lemma_paren_reads(e, p, ts, k);
    } else {
        assert(f == token_body(e));
        match e {
            SpecExpr::Num(_) | SpecExpr::Var(_) => {
                lemma_leaf_reads(e, p, ts, k);
            },
            SpecExpr::Neg(x) => {
                let xf = token_form(*x, 4);
                lemma_piece(ts, k, f, 1, f.len() as int);
                assert(f.subrange(1, f.len() as int) =~= xf);
                lemma_token_form_nonempty(*x, 4);
                lemma_parse_token_form(*x, 4, ts, k + 1);
                lemma_neg_reads(e, *x, p, ts, k);
            },
            SpecExpr::Ln(x) | SpecExpr::Sin(x) | SpecExpr::Cos(x) => {
                let xf = token_form(*x, 0);
                lemma_piece(ts, k, f, 2, 2 + xf.len() as int);
                assert(f.subrange(2, 2 + xf.len() as int) =~= xf);
                lemma_token_form_nonempty(*x, 0);
                lemma_parse_token_form(*x, 0, ts, k + 2);
                lemma_call_reads(e, *x, f[0], p, ts, k);
            },
            SpecExpr::Pow(l, r) => {
                lemma_split3(ts, k, token_form(*l, 4), SpecToken::Caret, token_form(*r, 3));
                lemma_token_form_nonempty(*l, 4);
                lemma_token_form_nonempty(*r, 3);
                lemma_parse_token_form(*l, 4, ts, k);
                lemma_parse_token_form(*r, 3, ts, k + token_form(*l, 4).len() + 1);
                lemma_pow_reads(e, *l, *r, p, ts, k);
            },
            SpecExpr::Mul(l, r) => match *r {
                SpecExpr::Pow(b, x) if *x == SpecExpr::Num(NEG_ONE) => {
                    lemma_split3(ts, k, token_form(*l, 2), SpecToken::Slash, token_form(*b, 3));
                    lemma_token_form_nonempty(*l, 2);
                    lemma_token_form_nonempty(*b, 3);
                    lemma_parse_token_form(*l, 2, ts, k);
                    assert(r.size() == 1 + b.size() + x.size());
                    assert(nests_left(*r));
                    lemma_parse_token_form(*b, 3, ts, k + token_form(*l, 2).len() + 1);
                    lemma_div_reads(e, *l, *b, p, ts, k);
                },
                _ => {
                    lemma_split3(ts, k, token_form(*l, 2), SpecToken::Star, token_form(*r, 2));
                    lemma_token_form_nonempty(*l, 2);
                    lemma_token_form_nonempty(*r, 2);
                    lemma_parse_token_form(*l, 2, ts, k);
                    lemma_parse_token_form(*r, 2, ts, k + token_form(*l, 2).len() + 1);
                    lemma_mul_reads(e, *l, *r, p, ts, k);
                },
            },
            SpecExpr::Add(l, r) => {
                lemma_split3(ts, k, token_form(*l, 1), SpecToken::Plus, token_form(*r, 1));
                lemma_token_form_nonempty(*l, 1);
                lemma_token_form_nonempty(*r, 1);
                lemma_parse_token_form(*l, 1, ts, k);
                lemma_parse_token_form(*r, 1, ts, k + token_form(*l, 1).len() + 1);
                lemma_add_reads(e, *l, *r, p, ts, k);
            },
        }
    }
}

/// The printed tokens of a tree that nests to the left parse back as the tree.
pub proof fn law_token_form_parses_back(e: SpecExpr)
    requires
        nests_left(e),
    ensures
        parsed_tokens(token_form(e, 0)) == Ok::<SpecExpr, SpecParseError>(e),
{
    let ts = token_form(e, 0);
    assert(ts.subrange(0, ts.len() as int) =~= ts);
    lemma_parse_token_form(e, 0, ts, 0);
}

/// A variable name that prints and reads back as itself: it starts with an
/// ASCII letter, every character continues a name, and it is no keyword.
pub open spec fn is_plain_name(s: Seq<char>) -> bool {
    &&& s.len() > 0
    &&& is_ascii_letter(s[0])
    &&& forall|i: int| 0 <= i < s.len() ==> name_char(#[trigger] s[i])
    &&& name_token(s) == SpecToken::Var(s)
}

/// The table prints the number `n` as a literal of digits and at most one dot
/// that it reads back as `n`.
pub open spec fn number_prints(n: u64, t: SpecTable) -> bool {
    let d = t.texts[SpecQuery::Display(n)];
    &&& t.texts.contains_key(SpecQuery::Display(n))
    &&& d.len() > 0
    &&& forall|i: int| 0 <= i < d.len() ==> is_number_char(#[trigger] d[i])
    &&& is_valid_literal(d)
    &&& t.values.contains_key(SpecQuery::Parse(d))
    &&& t.values[SpecQuery::Parse(d)] == n
}

/// Every number of `e` prints and reads back as itself under `t`, and every
/// variable name of `e` is plain.
pub open spec fn leaves_print(e: SpecExpr, t: SpecTable) -> bool
    decreases e,
{
    match e {
        SpecExpr::Num(n) => number_prints(n, t),
        SpecExpr::Var(s) => is_plain_name(s),
        SpecExpr::Mul(l, r) => leaves_print(*l, t) && match *r {
            SpecExpr::Pow(b, k) if *k == SpecExpr::Num(NEG_ONE) => leaves_print(*b, t),
            _ => leaves_print(*r, t),
        },
        SpecExpr::Add(l, r) | SpecExpr::Pow(l, r) => leaves_print(*l, t) && leaves_print(*r, t),
        SpecExpr::Ln(x) | SpecExpr::Neg(x) | SpecExpr::Sin(x) | SpecExpr::Cos(x) => leaves_print(*x, t),
    }
}

proof fn lemma_name_run(s: Seq<char>, i: int)
    requires
        0 <= i <= s.len(),
        forall|k: int| 0 <= k < s.len() ==> name_char(#[trigger] s[k]),
    ensures
        name_end(s, i) == s.len(),
    decreases s.len() - i,
{
    if i < s.len() {
        assert(name_char(s[i]));
        lemma_name_run(s, i + 1);
    }
}

proof fn lemma_number_run(s: Seq<char>, i: int)
    requires
        0 <= i <= s.len(),
        forall|k: int| 0 <= k < s.len() ==> is_number_char(#[trigger] s[k]),
    ensures
        number_end(s, i) == s.len(),
    decreases s.len() - i,
{
    if i < s.len() {
        assert(is_number_char(s[i]));
        lemma_number_run(s, i + 1);
    }
}

proof fn lemma_word_lexes(s: Seq<char>, t: SpecTable)
    requires
        s.len() > 0,
        is_ascii_letter(s[0]),
        forall|i: int| 0 <= i < s.len() ==> name_char(#[trigger] s[i]),
    ensures
        lexed(s, t) == Ok::<Result<Seq<SpecToken>, Seq<char>>, SpecQuery>(Ok(seq![name_token(s)])),
{
    lemma_name_run(s, 1);
    assert(s.subrange(0, s.len() as int) =~= s);
    assert(lex_from(s, s.len() as int, t) == Ok::<Result<Seq<SpecToken>, Seq<char>>, SpecQuery>(Ok(seq![])));
    assert(seq![name_token(s)] + Seq::<SpecToken>::empty() =~= seq![name_token(s)]);
}

proof fn lemma_name_lexes(s: Seq<char>, t: SpecTable)
    requires
        is_plain_name(s),
    ensures
        lexed(s, t) == Ok::<Result<Seq<SpecToken>, Seq<char>>, SpecQuery>(Ok(seq![SpecToken::Var(s)])),
{
    lemma_word_lexes(s, t);
}

proof fn lemma_number_lexes(n: u64, t: SpecTable)
    requires
        number_prints(n, t),
    ensures
        lexed(t.texts[SpecQuery::Display(n)], t) == Ok::<Result<Seq<SpecToken>, Seq<char>>, SpecQuery>(
            Ok(seq![SpecToken::Num(n)]),
        ),
{
    let d = t.texts[SpecQuery::Display(n)];
    lemma_number_run(d, 1);
    assert(is_number_char(d[0]));
    assert(d.subrange(0, d.len() as int) =~= d);
    assert(lex_from(d, d.len() as int, t) == Ok::<Result<Seq<SpecToken>, Seq<char>>, SpecQuery>(Ok(seq![])));
    assert(seq![SpecToken::Num(n)] + Seq::<SpecToken>::empty() =~= seq![SpecToken::Num(n)]);
}

proof fn lemma_symbol_lexes(c: char, t: SpecTable)
    requires
        symbol_token(c) is Some,
    ensures
        lexed(seq![c], t) == Ok::<Result<Seq<SpecToken>, Seq<char>>, SpecQuery>(Ok(seq![symbol_token(c).unwrap()])),
{
    let s = seq![c];
    assert(lex_from(s, 1, t) == Ok::<Result<Seq<SpecToken>, Seq<char>>, SpecQuery>(Ok(seq![])));
    assert(seq![symbol_token(c).unwrap()] + Seq::<SpecToken>::empty() =~= seq![symbol_token(c).unwrap()]);
}

proof fn lemma_spaced_lexes(c: char, t: SpecTable)
    requires
        symbol_token(c) is Some,
    ensures
        lexed(seq![' ', c, ' '], t) == Ok::<Result<Seq<SpecToken>, Seq<char>>, SpecQuery>(
            Ok(seq![symbol_token(c).unwrap()]),
        ),
{
    let s = seq![' ', c, ' '];
    assert(lex_from(s, 3, t) == Ok::<Result<Seq<SpecToken>, Seq<char>>, SpecQuery>(Ok(seq![])));
    assert(lex_from(s, 2, t) == Ok::<Result<Seq<SpecToken>, Seq<char>>, SpecQuery>(Ok(seq![])));
    assert(seq![symbol_token(c).unwrap()] + Seq::<SpecToken>::empty() =~= seq![symbol_token(c).unwrap()]);
    assert(lex_from(s, 1, t) == Ok::<Result<Seq<SpecToken>, Seq<char>>, SpecQuery>(Ok(seq![symbol_token(c).unwrap()])));
}

/// Texts that lex apart and meet at a delimiter lex to the two token runs together.
proof fn lemma_join(a: Seq<char>, b: Seq<char>, ta: Seq<SpecToken>, tb: Seq<SpecToken>, t: SpecTable)
    requires
        lexed(a, t) == Ok::<Result<Seq<SpecToken>, Seq<char>>, SpecQuery>(Ok(ta)),
        lexed(b, t) == Ok::<Result<Seq<SpecToken>, Seq<char>>, SpecQuery>(Ok(tb)),
        separated(a, b),
    ensures
        lexed(a + b, t) == Ok::<Result<Seq<SpecToken>, Seq<char>>, SpecQuery>(Ok(ta + tb)),
{
    lemma_lex_concat(a, b, 0, t);
}

proof fn lemma_call_head_lexes(w: Seq<char>, t: SpecTable)
    requires
        w == seq!['l', 'n'] || w == seq!['s', 'i', 'n'] || w == seq!['c', 'o', 's'],
    ensures
        lexed(w + seq!['('], t) == Ok::<Result<Seq<SpecToken>, Seq<char>>, SpecQuery>(
            Ok(seq![name_token(w), SpecToken::LParen]),
        ),
{
    assert(forall|i: int| 0 <= i < w.len() ==> name_char(#[trigger] w[i]));
    lemma_word_lexes(w, t);
    lemma_symbol_lexes('(', t);
    lemma_join(w, seq!['('], seq![name_token(w)], seq![SpecToken::LParen], t);
    assert(seq![name_token(w)] + seq![SpecToken::LParen] =~= seq![name_token(w), SpecToken::LParen]);
}

proof fn lemma_join3(
    a: Seq<char>,
    b: Seq<char>,
    c: Seq<char>,
    ta: Seq<SpecToken>,
    tb: Seq<SpecToken>,
    tc: Seq<SpecToken>,
    t: SpecTable,
)
    requires
        lexed(a, t) == Ok::<Result<Seq<SpecToken>, Seq<char>>, SpecQuery>(Ok(ta)),
        lexed(b, t) == Ok::<Result<Seq<SpecToken>, Seq<char>>, SpecQuery>(Ok(tb)),
        lexed(c, t) == Ok::<Result<Seq<SpecToken>, Seq<char>>, SpecQuery>(Ok(tc)),
        b.len() > 0,
        separated(a, b),
        is_blank(b.last()) || symbol_token(b.last()) is Some || c.len() == 0 || is_blank(c[0]) || symbol_token(c[0]) is Some,
    ensures
        lexed(a + b + c, t) == Ok::<Result<Seq<SpecToken>, Seq<char>>, SpecQuery>(Ok(ta + tb + tc)),
{
    lemma_join(a, b, ta, tb, t);
    assert((a + b).last() == b.last());
    lemma_join(a + b, c, ta + tb, tc, t);
}

/// `e` renders under `p`, and the text lexes to its printed tokens.
pub open spec fn render_lexes(e: SpecExpr, p: u8, t: SpecTable) -> bool {
    &&& e.rendered(p, t) is Ok
    &&& lexed(e.rendered(p, t)->Ok_0, t) == Ok::<Result<Seq<SpecToken>, Seq<char>>, SpecQuery>(Ok(token_form(e, p)))
}

proof fn lemma_mul_lexes(e: SpecExpr, l: SpecExpr, r: SpecExpr, p: u8, t: SpecTable)
    requires
        e == SpecExpr::times(l, r),
        precedence_of(e) >= p,
        render_lexes(l, 2, t),
        r matches SpecExpr::Pow(b, x) ==> (*x == SpecExpr::Num(NEG_ONE) ==> render_lexes(*b, 3, t)),
        !(r matches SpecExpr::Pow(b, x) && *x == SpecExpr::Num(NEG_ONE)) ==> render_lexes(r, 2, t),
    ensures
        render_lexes(e, p, t),
{
    match r {
        SpecExpr::Pow(b, x) if *x == SpecExpr::Num(NEG_ONE) => {
            lemma_symbol_lexes('/', t);
            lemma_join3(l.rendered(2, t)->Ok_0, seq!['/'], b.rendered(3, t)->Ok_0,
                token_form(l, 2), seq![SpecToken::Slash], token_form(*b, 3), t);
        },
        _ => {
            lemma_spaced_lexes('*', t);
            lemma_join3(l.rendered(2, t)->Ok_0, seq![' ', '*', ' '], r.rendered(2, t)->Ok_0,
                token_form(l, 2), seq![SpecToken::Star], token_form(r, 2), t);
        },
    }
}

/// A tree whose leaves print renders, under any precedence, to a text that
/// lexes to its printed tokens.
pub proof fn lemma_render_lexes(e: SpecExpr, p: u8, t: SpecTable)
    requires
        leaves_print(e, t),
    ensures
        e.rendered(p, t) is Ok,
        lexed(e.rendered(p, t)->Ok_0, t) == Ok::<Result<Seq<SpecToken>, Seq<char>>, SpecQuery>(Ok(token_form(e, p))),
    decreases e, if precedence_of(e) < p { 1int } else { 0int },
{
    lemma_token_form_nonempty(e, p);
    if precedence_of(e) < p {
        lemma_render_lexes(e, 0, t);
        let b = e.rendered(0, t)->Ok_0;
        assert(e.rendered(p, t) == Ok::<Seq<char>, SpecQuery>(seq!['('] + b + seq![')']));
        lemma_symbol_lexes('(', t);
        lemma_symbol_lexes(')', t);
        lemma_join3(seq!['('], b, seq![')'], seq![SpecToken::LParen], token_body(e), seq![SpecToken::RParen], t);
    } else {
        match e {
            SpecExpr::Num(n) => {
                lemma_number_lexes(n, t);
            },
            SpecExpr::Var(v) => {
                lemma_name_lexes(v, t);
            },
            SpecExpr::Neg(x) => {
                lemma_render_lexes(*x, 4, t);
                lemma_symbol_lexes('-', t);
                let xt = x.rendered(4, t)->Ok_0;
                lemma_join(seq!['-'], xt, seq![SpecToken::Minus], token_form(*x, 4), t);
                assert(seq!['-'] + xt + Seq::<char>::empty() =~= seq!['-'] + xt);
            },
            SpecExpr::Add(l, r) => {
                lemma_render_lexes(*l, 1, t);
                lemma_render_lexes(*r, 1, t);
                lemma_spaced_lexes('+', t);
                lemma_join3(l.rendered(1, t)->Ok_0, seq![' ', '+', ' '], r.rendered(1, t)->Ok_0,
                    token_form(*l, 1), seq![SpecToken::Plus], token_form(*r, 1), t);
            },
            SpecExpr::Mul(l, r) => {
                lemma_render_lexes(*l, 2, t);
                match *r {
                    SpecExpr::Pow(b, x) if *x == SpecExpr::Num(NEG_ONE) => lemma_render_lexes(*b, 3, t),
                    _ => lemma_render_lexes(*r, 2, t),
                }
                lemma_mul_lexes(e, *l, *r, p, t);
            },
            SpecExpr::Pow(l, r) => {
                lemma_render_lexes(*l, 4, t);
                lemma_render_lexes(*r, 3, t);
                lemma_symbol_lexes('^', t);
                lemma_join3(l.rendered(4, t)->Ok_0, seq!['^'], r.rendered(3, t)->Ok_0,
                    token_form(*l, 4), seq![SpecToken::Caret], token_form(*r, 3), t);
            },
            SpecExpr::Ln(x) => {
                lemma_render_lexes(*x, 0, t);
                lemma_call_head_lexes(seq!['l', 'n'], t);
                lemma_symbol_lexes(')', t);
                assert(seq!['l', 'n'] + seq!['('] =~= seq!['l', 'n', '(']);
                lemma_join3(seq!['l', 'n', '('], x.rendered(0, t)->Ok_0, seq![')'],
                    seq![SpecToken::Ln, SpecToken::LParen], token_form(*x, 0), seq![SpecToken::RParen], t);
            },
            SpecExpr::Sin(x) => {
                lemma_render_lexes(*x, 0, t);
                lemma_call_head_lexes(seq!['s', 'i', 'n'], t);
                lemma_symbol_lexes(')', t);
                assert(seq!['s', 'i', 'n'] + seq!['('] =~= seq!['s', 'i', 'n', '(']);
                lemma_join3(seq!['s', 'i', 'n', '('], x.rendered(0, t)->Ok_0, seq![')'],
                    seq![SpecToken::Sin, SpecToken::LParen], token_form(*x, 0), seq![SpecToken::RParen], t);
            },
            SpecExpr::Cos(x) => {
                lemma_render_lexes(*x, 0, t);
                lemma_call_head_lexes(seq!['c', 'o', 's'], t);
                lemma_symbol_lexes(')', t);
                assert(seq!['c', 'o', 's'] + seq!['('] =~= seq!['c', 'o', 's', '(']);
                lemma_join3(seq!['c', 'o', 's', '('], x.rendered(0, t)->Ok_0, seq![')'],
                    seq![SpecToken::Cos, SpecToken::LParen], token_form(*x, 0), seq![SpecToken::RParen], t);
            },
        }
    }
}

/// Printing then parsing gives the tree back: a tree whose numbers print as
/// literals that read back as themselves, whose variable names are plain, and
/// in which no sum is the right operand of a sum and no product the right
/// operand of a product, renders to a text that parses to the same tree.
/// (Parentheses stand wherever precedence, or the grouping of `^` to the right,
/// needs them; a sum or product to the right of its own kind would come back
/// regrouped to the left.)
pub proof fn law_print_then_parse(e: SpecExpr, t: SpecTable)
    requires
        nests_left(e),
        leaves_print(e, t),
    ensures
        e.rendered(0, t) is Ok,
        parsed(e.rendered(0, t)->Ok_0, t) == Ok::<Result<SpecExpr, Seq<char>>, SpecQuery>(Ok(e)),
{
    lemma_render_lexes(e, 0, t);
    law_token_form_parses_back(e);
}

proof fn lemma_operator_reads(a: SpecExpr, pa: u8, x: SpecToken, b: SpecExpr, pb: u8)
    requires
        nests_left(a),
        nests_left(b),
    ensures
        ({
            let ts = token_form(a, pa) + seq![x] + token_form(b, pb);
            let aend = token_form(a, pa).len() as int;
            &&& ts.len() == aend + 1 + token_form(b, pb).len()
            &&& ts[aend] == x
            &&& reads_at(a, pa, ts, 0)
            &&& reads_at(b, pb, ts, aend + 1)
        }),
{
    let fa = token_form(a, pa);
    let fb = token_form(b, pb);
    let ts = fa + seq![x] + fb;
    assert(ts.subrange(0, ts.len() as int) =~= ts);
    lemma_split3(ts, 0, fa, x, fb);
    lemma_parse_token_form(a, pa, ts, 0);
    lemma_parse_token_form(b, pb, ts, fa.len() as int + 1);
}

proof fn lemma_sum_parse(a: SpecExpr, x: SpecToken, b: SpecExpr)
    requires
        nests_left(a),
        nests_left(b),
        x == SpecToken::Plus || x == SpecToken::Minus,
    ensures
        parsed_tokens(token_form(a, 1) + seq![x] + token_form(b, 2)) == Ok::<SpecExpr, SpecParseError>(
            if x == SpecToken::Plus { SpecExpr::plus(a, b) } else { SpecExpr::plus(a, SpecExpr::negate(b)) },
        ),
{
    lemma_operator_reads(a, 1, x, b, 2);
    let ts = token_form(a, 1) + seq![x] + token_form(b, 2);
    let aend = token_form(a, 1).len() as int;
    let n = ts.len() as int;
    let next = if x == SpecToken::Plus { SpecExpr::plus(a, b) } else { SpecExpr::plus(a, SpecExpr::negate(b)) };
    assert(term_at(ts, aend + 1) == term_rest(ts, n, b));
    assert(term_rest(ts, n, b) == Ok::<(SpecExpr, int), SpecParseError>((b, n)));
    assert(expression_rest(ts, n, next) == Ok::<(SpecExpr, int), SpecParseError>((next, n)));
    assert(expression_rest(ts, aend, a) == Ok::<(SpecExpr, int), SpecParseError>((next, n)));
    assert(expression_at(ts, 0) == expression_rest(ts, aend, a));
}

proof fn lemma_product_parse(a: SpecExpr, x: SpecToken, b: SpecExpr)
    requires
        nests_left(a),
        nests_left(b),
        x == SpecToken::Star || x == SpecToken::Slash,
    ensures
        parsed_tokens(token_form(a, 2) + seq![x] + token_form(b, 3)) == Ok::<SpecExpr, SpecParseError>(
            if x == SpecToken::Star {
                SpecExpr::times(a, b)
            } else {
                SpecExpr::times(a, SpecExpr::power(b, SpecExpr::Num(NEG_ONE)))
            },
        ),
{
    lemma_operator_reads(a, 2, x, b, 3);
    let ts = token_form(a, 2) + seq![x] + token_form(b, 3);
    let aend = token_form(a, 2).len() as int;
    let n = ts.len() as int;
    let next = if x == SpecToken::Star {
        SpecExpr::times(a, b)
    } else {
        SpecExpr::times(a, SpecExpr::power(b, SpecExpr::Num(NEG_ONE)))
    };
    assert(power_at(ts, aend + 1) == Ok::<(SpecExpr, int), SpecParseError>((b, n)));
    assert(term_rest(ts, n, next) == Ok::<(SpecExpr, int), SpecParseError>((next, n)));
    assert(term_rest(ts, aend, a) == Ok::<(SpecExpr, int), SpecParseError>((next, n)));
    assert(term_at(ts, 0) == term_rest(ts, aend, a));
    assert(expression_rest(ts, n, next) == Ok::<(SpecExpr, int), SpecParseError>((next, n)));
    assert(expression_at(ts, 0) == Ok::<(SpecExpr, int), SpecParseError>((next, n)));
}

/// The binary operators group as written: `a - b` is `a` plus the negation of
/// the whole of `b` (a bracketed sum included), `a + b` is their sum, `a * b`
/// their product and `a / b` is `a` times `b^(-1)`, where `a` and `b` stand in
/// the tokens they print as (with the brackets that their precedence needs).
pub proof fn law_parse_binary_operators(a: SpecExpr, b: SpecExpr)
    requires
        nests_left(a),
        nests_left(b),
    ensures
        parsed_tokens(token_form(a, 1) + seq![SpecToken::Minus] + token_form(b, 2))
            == Ok::<SpecExpr, SpecParseError>(SpecExpr::plus(a, SpecExpr::negate(b))),
        parsed_tokens(token_form(a, 1) + seq![SpecToken::Plus] + token_form(b, 2))
            == Ok::<SpecExpr, SpecParseError>(SpecExpr::plus(a, b)),
        parsed_tokens(token_form(a, 2) + seq![SpecToken::Star] + token_form(b, 3))
            == Ok::<SpecExpr, SpecParseError>(SpecExpr::times(a, b)),
        parsed_tokens(token_form(a, 2) + seq![SpecToken::Slash] + token_form(b, 3))
            == Ok::<SpecExpr, SpecParseError>(SpecExpr::times(a, SpecExpr::power(b, SpecExpr::Num(NEG_ONE)))),
{
    lemma_sum_parse(a, SpecToken::Minus, b);
    lemma_sum_parse(a, SpecToken::Plus, b);
    lemma_product_parse(a, SpecToken::Star, b);
    lemma_product_parse(a, SpecToken::Slash, b);
}

/// Subtraction in text negates the whole right operand: the text of `a`, then
/// ` - `, then the text of `b` (bracketed where `b` is a sum) parses to
/// `a + (-b)`, for trees whose leaves print and that nest to the left.
pub proof fn law_parse_subtraction(a: SpecExpr, b: SpecExpr, t: SpecTable)
    requires
        nests_left(a),
        nests_left(b),
        leaves_print(a, t),
        leaves_print(b, t),
    ensures
        a.rendered(1, t) is Ok,
        b.rendered(2, t) is Ok,
        parsed(a.rendered(1, t)->Ok_0 + seq![' ', '-', ' '] + b.rendered(2, t)->Ok_0, t)
            == Ok::<Result<SpecExpr, Seq<char>>, SpecQuery>(Ok(SpecExpr::plus(a, SpecExpr::negate(b)))),
{
    lemma_render_lexes(a, 1, t);
    lemma_render_lexes(b, 2, t);
    lemma_spaced_lexes('-', t);
    lemma_join3(a.rendered(1, t)->Ok_0, seq![' ', '-', ' '], b.rendered(2, t)->Ok_0,
        token_form(a, 1), seq![SpecToken::Minus], token_form(b, 2), t);
    lemma_sum_parse(a, SpecToken::Minus, b);
}

} // verus!
