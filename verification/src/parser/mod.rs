//! Parsing: text to tokens, tokens to an expression tree by recursive descent.
//!
//! The grammar, from the loosest binding to the tightest:
//! * expression: term, then any number of `+ term` or `- term`, grouped to the left
//!   (`a - b` becomes `a + (-b)`);
//! * term: power, then any number of `* power` or `/ power`, grouped to the left
//!   (`a / b` becomes `a * b^(-1)`);
//! * power: unary, then optionally `^ power` (grouped to the right);
//! * unary: `- unary`, or `sin`, `cos`, `ln` followed by `( expression )`, or a primary;
//! * primary: a number, a variable, or `( expression )`.

pub mod tokenizer;

use vstd::prelude::*;
use crate::ast::{Expr, SpecExpr};
use crate::floats::{FloatQuery, FloatTable, SpecQuery, SpecTable, answered, outcome, table_extends};
use crate::text::push_chars;
use tokenizer::{SpecToken, Token, equal_tokens, law_lex_table_answers, lemma_lex_queries, lexed, token_debug, tokenize};

verus! {

/// Why a sequence of tokens is not an expression.
pub enum ParseError {
    /// A token that cannot start an operand.
    UnexpectedToken(Token),
    /// The tokens ended where an operand was due.
    UnexpectedEnd,
    /// The first token was due; the second is what stood there, if anything did.
    Expected(Token, Option<Token>),
    /// An expression was read, but tokens remain after it.
    TrailingTokens,
}

/// The model of a [`ParseError`].
pub enum SpecParseError {
    UnexpectedToken(SpecToken),
    UnexpectedEnd,
    Expected(SpecToken, Option<SpecToken>),
    TrailingTokens,
}

impl View for ParseError {
    type V = SpecParseError;

    open spec fn view(&self) -> SpecParseError {
        match self {
            ParseError::UnexpectedToken(t) => SpecParseError::UnexpectedToken(t@),
            ParseError::UnexpectedEnd => SpecParseError::UnexpectedEnd,
            ParseError::Expected(e, found) => SpecParseError::Expected(
                e@,
                match found {
                    Some(f) => Some(f@),
                    None => None,
                },
            ),
            ParseError::TrailingTokens => SpecParseError::TrailingTokens,
        }
    }
}

/// A parse from a position: the tree and the position after it, or the error.
pub type SpecParse = Result<(SpecExpr, int), SpecParseError>;

/// The model of an executable parse result.
pub open spec fn parse_view(r: Result<(Expr, usize), ParseError>) -> SpecParse {
    match r {
        Ok((e, p)) => Ok((e@, p as int)),
        Err(err) => Err(err@),
    }
}

/// The token `tok` stands at `pos`, as `==` on tokens compares them.
pub open spec fn expect_at(ts: Seq<SpecToken>, pos: int, tok: SpecToken) -> Result<(), SpecParseError> {
    if 0 <= pos < ts.len() {
        if equal_tokens(ts[pos], tok) {
            Ok(())
        } else {
            Err(SpecParseError::Expected(tok, Some(ts[pos])))
        }
    } else {
        Err(SpecParseError::Expected(tok, None))
    }
}

/// The expression that starts at `pos`.
pub open spec fn expression_at(ts: Seq<SpecToken>, pos: int) -> SpecParse
    decreases ts.len() - pos, 6int,
{
    match term_at(ts, pos) {
        Err(e) => Err(e),
        Ok((lhs, p)) => if pos < p <= ts.len() {
            expression_rest(ts, p, lhs)
        } else {
            Ok((lhs, p))
        },
    }
}

/// The `+ term` and `- term` that follow an expression `acc` ending at `pos`.
pub open spec fn expression_rest(ts: Seq<SpecToken>, pos: int, acc: SpecExpr) -> SpecParse
    decreases ts.len() - pos, 7int,
{
    if 0 <= pos < ts.len() && (ts[pos] is Plus || ts[pos] is Minus) {
        match term_at(ts, pos + 1) {
            Err(e) => Err(e),
            Ok((rhs, p)) => {
                let next = if ts[pos] is Plus {
                    SpecExpr::plus(acc, rhs)
                } else {
                    SpecExpr::plus(acc, SpecExpr::negate(rhs))
                };
                if pos + 1 < p <= ts.len() {
                    expression_rest(ts, p, next)
                } else {
                    Ok((next, p))
                }
            },
        }
    } else {
        Ok((acc, pos))
    }
}

/// The term that starts at `pos`.
pub open spec fn term_at(ts: Seq<SpecToken>, pos: int) -> SpecParse
    decreases ts.len() - pos, 5int,
{
    match power_at(ts, pos) {
        Err(e) => Err(e),
        Ok((lhs, p)) => if pos < p <= ts.len() {
            term_rest(ts, p, lhs)
        } else {
            Ok((lhs, p))
        },
    }
}

/// The `* power` and `/ power` that follow a term `acc` ending at `pos`.
pub open spec fn term_rest(ts: Seq<SpecToken>, pos: int, acc: SpecExpr) -> SpecParse
    decreases ts.len() - pos, 7int,
{
    if 0 <= pos < ts.len() && (ts[pos] is Star || ts[pos] is Slash) {
        match power_at(ts, pos + 1) {
            Err(e) => Err(e),
            Ok((rhs, p)) => {
                let next = if ts[pos] is Star {
                    SpecExpr::times(acc, rhs)
                } else {
                    SpecExpr::times(acc, SpecExpr::power(rhs, SpecExpr::Num(crate::floats::NEG_ONE)))
                };
                if pos + 1 < p <= ts.len() {
                    term_rest(ts, p, next)
                } else {
                    Ok((next, p))
                }
            },
        }
    } else {
        Ok((acc, pos))
    }
}

/// The power that starts at `pos`.
pub open spec fn power_at(ts: Seq<SpecToken>, pos: int) -> SpecParse
    decreases ts.len() - pos, 4int,
{
    match unary_at(ts, pos) {
        Err(e) => Err(e),
        Ok((lhs, p)) => if pos <= p < ts.len() && ts[p] is Caret {
            match power_at(ts, p + 1) {
                Err(e) => Err(e),
                Ok((rhs, p2)) => Ok((SpecExpr::power(lhs, rhs), p2)),
            }
        } else {
            Ok((lhs, p))
        },
    }
}

/// `f ( expression )` where the function keyword stands at `pos`.
pub open spec fn call_at(ts: Seq<SpecToken>, pos: int) -> SpecParse
    decreases ts.len() - pos, 2int,
{
    match expect_at(ts, pos + 1, SpecToken::LParen) {
        Err(e) => Err(e),
        Ok(_) => if 0 <= pos && pos + 2 <= ts.len() {
            match expression_at(ts, pos + 2) {
                Err(e) => Err(e),
                Ok((inner, p)) => match expect_at(ts, p, SpecToken::RParen) {
                    Err(e) => Err(e),
                    Ok(_) => Ok((inner, p + 1)),
                },
            }
        } else {
            Err(SpecParseError::UnexpectedEnd)
        },
    }
}

/// The unary expression that starts at `pos`.
pub open spec fn unary_at(ts: Seq<SpecToken>, pos: int) -> SpecParse
    decreases ts.len() - pos, 3int,
{
    if 0 <= pos < ts.len() {
        match ts[pos] {
            SpecToken::Minus => match unary_at(ts, pos + 1) {
                Err(e) => Err(e),
                Ok((x, p)) => Ok((SpecExpr::negate(x), p)),
            },
            SpecToken::Sin => match call_at(ts, pos) {
                Err(e) => Err(e),
                Ok((x, p)) => Ok((SpecExpr::sine(x), p)),
            },
            SpecToken::Cos => match call_at(ts, pos) {
                Err(e) => Err(e),
                Ok((x, p)) => Ok((SpecExpr::cosine(x), p)),
            },
            SpecToken::Ln => match call_at(ts, pos) {
                Err(e) => Err(e),
                Ok((x, p)) => Ok((SpecExpr::log(x), p)),
            },
            _ => primary_at(ts, pos),
        }
    } else {
        primary_at(ts, pos)
    }
}

/// The number, variable or bracketed expression that starts at `pos`.
pub open spec fn primary_at(ts: Seq<SpecToken>, pos: int) -> SpecParse
    decreases ts.len() - pos, 1int,
{
    if 0 <= pos < ts.len() {
        match ts[pos] {
            SpecToken::Num(n) => Ok((SpecExpr::Num(n), pos + 1)),
            SpecToken::Var(s) => Ok((SpecExpr::Var(s), pos + 1)),
            SpecToken::LParen => match expression_at(ts, pos + 1) {
                Err(e) => Err(e),
                Ok((inner, p)) => match expect_at(ts, p, SpecToken::RParen) {
                    Err(e) => Err(e),
                    Ok(_) => Ok((inner, p + 1)),
                },
            },
            t => Err(SpecParseError::UnexpectedToken(t)),
        }
    } else {
        Err(SpecParseError::UnexpectedEnd)
    }
}

/// The expression that the whole token sequence is.
pub open spec fn parsed_tokens(ts: Seq<SpecToken>) -> Result<SpecExpr, SpecParseError> {
    match expression_at(ts, 0) {
        Err(e) => Err(e),
        Ok((e, p)) => if p == ts.len() {
            Ok(e)
        } else {
            Err(SpecParseError::TrailingTokens)
        },
    }
}

fn expect(tokens: &Vec<Token>, pos: usize, want: Token) -> (r: Result<(), ParseError>)
    ensures
        match r {
            Ok(_) => expect_at(tokens.deep_view(), pos as int, want@) == Ok::<(), SpecParseError>(()),
            Err(e) => expect_at(tokens.deep_view(), pos as int, want@) == Err::<(), SpecParseError>(e@),
        },
{
    if pos < tokens.len() {
        let found = &tokens[pos];
        assert(tokens.deep_view()[pos as int] == found@);
        if *found == want {
            Ok(())
        } else {
            Err(ParseError::Expected(want, Some(found.duplicate())))
        }
    } else {
        Err(ParseError::Expected(want, None))
    }
}

fn parse_expression(tokens: &Vec<Token>, pos: usize) -> (r: Result<(Expr, usize), ParseError>)
    requires
        pos <= tokens.len(),
    ensures
        parse_view(r) == expression_at(tokens.deep_view(), pos as int),
        r matches Ok((_, p)) ==> pos < p <= tokens.len(),
    decreases tokens@.len() - pos, 6int,
{
    let ghost ts = tokens.deep_view();
    let (first, p0) = parse_term(tokens, pos)?;
    let mut expr = first;
    let mut p = p0;
    loop
        invariant
            ts == tokens.deep_view(),
            pos < p <= tokens.len(),
            expression_at(ts, pos as int) == expression_rest(ts, p as int, expr@),
        decreases tokens@.len() - p,
    {
        if p < tokens.len() {
            assert(ts[p as int] == tokens@[p as int]@);
            let is_plus = matches!(tokens[p], Token::Plus);
            let is_minus = matches!(tokens[p], Token::Minus);
            if is_plus || is_minus {
                let (rhs, p2) = parse_term(tokens, p + 1)?;
                expr = if is_plus { expr + rhs } else { expr - rhs };
                p = p2;
                continue;
            }
        }
        return Ok((expr, p));
    }
}

fn parse_term(tokens: &Vec<Token>, pos: usize) -> (r: Result<(Expr, usize), ParseError>)
    requires
        pos <= tokens.len(),
    ensures
        parse_view(r) == term_at(tokens.deep_view(), pos as int),
        r matches Ok((_, p)) ==> pos < p <= tokens.len(),
    decreases tokens@.len() - pos, 5int,
{
    let ghost ts = tokens.deep_view();
    let (first, p0) = parse_power(tokens, pos)?;
    let mut expr = first;
    let mut p = p0;
    loop
        invariant
            ts == tokens.deep_view(),
            pos < p <= tokens.len(),
            term_at(ts, pos as int) == term_rest(ts, p as int, expr@),
        decreases tokens@.len() - p,
    {
        if p < tokens.len() {
            assert(ts[p as int] == tokens@[p as int]@);
            let is_star = matches!(tokens[p], Token::Star);
            let is_slash = matches!(tokens[p], Token::Slash);
            if is_star || is_slash {
                let (rhs, p2) = parse_power(tokens, p + 1)?;
                expr = if is_star { expr * rhs } else { expr / rhs };
                p = p2;
                continue;
            }
        }
        return Ok((expr, p));
    }
}

fn parse_power(tokens: &Vec<Token>, pos: usize) -> (r: Result<(Expr, usize), ParseError>)
    requires
        pos <= tokens.len(),
    ensures
        parse_view(r) == power_at(tokens.deep_view(), pos as int),
        r matches Ok((_, p)) ==> pos < p <= tokens.len(),
    decreases tokens@.len() - pos, 4int,
{
    let ghost ts = tokens.deep_view();
    let (lhs, p) = parse_unary(tokens, pos)?;
    if p < tokens.len() {
        assert(ts[p as int] == tokens@[p as int]@);
        if matches!(tokens[p], Token::Caret) {
            let (rhs, p2) = parse_power(tokens, p + 1)?;
            return Ok((lhs.pow(rhs), p2));
        }
    }
    Ok((lhs, p))
}

fn parse_call(tokens: &Vec<Token>, pos: usize) -> (r: Result<(Expr, usize), ParseError>)
    requires
        pos < tokens.len(),
    ensures
        parse_view(r) == call_at(tokens.deep_view(), pos as int),
        r matches Ok((_, p)) ==> pos < p <= tokens.len(),
    decreases tokens@.len() - pos, 2int,
{
    expect(tokens, pos + 1, Token::LParen)?;
    let (inner, p) = parse_expression(tokens, pos + 2)?;
    expect(tokens, p, Token::RParen)?;
    Ok((inner, p + 1))
}

fn parse_unary(tokens: &Vec<Token>, pos: usize) -> (r: Result<(Expr, usize), ParseError>)
    requires
        pos <= tokens.len(),
    ensures
        parse_view(r) == unary_at(tokens.deep_view(), pos as int),
        r matches Ok((_, p)) ==> pos < p <= tokens.len(),
    decreases tokens@.len() - pos, 3int,
{
    let ghost ts = tokens.deep_view();
    if pos < tokens.len() {
        assert(ts[pos as int] == tokens@[pos as int]@);
        match &tokens[pos] {
            Token::Minus => {
                let (x, p) = parse_unary(tokens, pos + 1)?;
                return Ok((Expr::Neg(Box::new(x)), p));
            },
            Token::Sin => {
                let (x, p) = parse_call(tokens, pos)?;
                return Ok((x.sin(), p));
            },
            Token::Cos => {
                let (x, p) = parse_call(tokens, pos)?;
                return Ok((x.cos(), p));
            },
            Token::Ln => {
                let (x, p) = parse_call(tokens, pos)?;
                return Ok((x.ln(), p));
            },
            _ => {},
        }
    }
    parse_primary(tokens, pos)
}

fn parse_primary(tokens: &Vec<Token>, pos: usize) -> (r: Result<(Expr, usize), ParseError>)
    requires
        pos <= tokens.len(),
    ensures
        parse_view(r) == primary_at(tokens.deep_view(), pos as int),
        r matches Ok((_, p)) ==> pos < p <= tokens.len(),
    decreases tokens@.len() - pos, 1int,
{
    let ghost ts = tokens.deep_view();
    if pos < tokens.len() {
        assert(ts[pos as int] == tokens@[pos as int]@);
        match &tokens[pos] {
            Token::Num(n) => Ok((Expr::num(*n), pos + 1)),
            Token::Var(s) => Ok((Expr::Var(s.clone()), pos + 1)),
            Token::LParen => {
                let (inner, p) = parse_expression(tokens, pos + 1)?;
                expect(tokens, p, Token::RParen)?;
                Ok((inner, p + 1))
            },
            t => Err(ParseError::UnexpectedToken(t.duplicate())),
        }
    } else {
        Err(ParseError::UnexpectedEnd)
    }
}

/// Parses a whole token sequence into one expression.
///
/// # Errors
/// The [`ParseError`] at the first token where the grammar fails, or
/// [`ParseError::TrailingTokens`] when tokens remain after an expression.
pub fn parse_tokens(tokens: &Vec<Token>) -> (r: Result<Expr, ParseError>)
    ensures
        match r {
            Ok(e) => parsed_tokens(tokens.deep_view()) == Ok::<SpecExpr, SpecParseError>(e@),
            Err(err) => parsed_tokens(tokens.deep_view()) == Err::<SpecExpr, SpecParseError>(err@),
        },
{
    let (e, p) = parse_expression(tokens, 0)?;
    if p == tokens.len() {
        Ok(e)
    } else {
        Err(ParseError::TrailingTokens)
    }
}

/// The text of a parse error, as the tokens' `Debug` texts spell it.
pub open spec fn parse_error_message(e: SpecParseError, t: SpecTable) -> Result<Seq<char>, SpecQuery> {
    match e {
        SpecParseError::UnexpectedToken(tok) => match token_debug(tok, t) {
            Err(q) => Err(q),
            Ok(d) => Ok("Unexpected token: "@ + d),
        },
        SpecParseError::UnexpectedEnd => Ok("Unexpected end of input"@),
        SpecParseError::Expected(want, found) => match token_debug(want, t) {
            Err(q) => Err(q),
            Ok(w) => match found {
                Some(f) => match token_debug(f, t) {
                    Err(q) => Err(q),
                    Ok(d) => Ok("Expected "@ + w + ", found "@ + d),
                },
                None => Ok("Expected "@ + w + ", found end of input"@),
            },
        },
        SpecParseError::TrailingTokens => Ok("Trailing tokens after expression"@),
    }
}

impl ParseError {
    /// The error's message, such as `Unexpected token: RParen` or
    /// `Expected RParen, found end of input`.
    pub fn message(&self, table: &FloatTable) -> (r: Result<String, FloatQuery>)
        ensures
            answered(r) == parse_error_message(self@, table@),
    {
        match self {
            ParseError::UnexpectedToken(tok) => {
                let d = tok.describe(table)?;
                let mut m = "Unexpected token: ".to_owned();
                push_chars(&mut m, &d);
                Ok(m)
            },
            ParseError::UnexpectedEnd => Ok("Unexpected end of input".to_owned()),
            ParseError::Expected(want, found) => {
                let w = want.describe(table)?;
                let mut m = "Expected ".to_owned();
                push_chars(&mut m, &w);
                match found {
                    Some(f) => {
                        let d = f.describe(table)?;
                        push_chars(&mut m, &", found ".to_owned());
                        push_chars(&mut m, &d);
                    },
                    None => {
                        push_chars(&mut m, &", found end of input".to_owned());
                    },
                }
                Ok(m)
            },
            ParseError::TrailingTokens => Ok("Trailing tokens after expression".to_owned()),
        }
    }
}

/// The result of parsing the text `s`: its tokens parsed into one expression,
/// or the message of the first error.
pub open spec fn parsed(s: Seq<char>, t: SpecTable) -> Result<Result<SpecExpr, Seq<char>>, SpecQuery> {
    match lexed(s, t) {
        Err(q) => Err(q),
        Ok(Err(m)) => Ok(Err(m)),
        Ok(Ok(ts)) => match parsed_tokens(ts) {
            Ok(e) => Ok(Ok(e)),
            Err(pe) => match parse_error_message(pe, t) {
                Err(q) => Err(q),
                Ok(m) => Ok(Err(m)),
            },
        },
    }
}

/// Parsing that gives a result gives the same one under any table that holds
/// every answer of the first; one that stops names a query the table lacks.
pub proof fn law_parse_table_answers(s: Seq<char>, t1: SpecTable, t2: SpecTable)
    ensures
        table_extends(t1, t2) && parsed(s, t1) is Ok ==> parsed(s, t2) == parsed(s, t1),
        parsed(s, t1) matches Err(q) ==> ((q is Parse && !t1.values.contains_key(q)) || (q is Debug
            && !t1.texts.contains_key(q))),
{
    law_lex_table_answers(s, 0, t1, t2);
    lemma_lex_queries(s, 0, t1);
}

/// Parses a text into an expression tree. Stops at the first floating-point
/// answer (a literal's value, or the `{:?}` text of a number in an error
/// message) that `table` lacks, and returns its query.
///
/// # Errors
/// The tokenizer's message for a character that starts no token or a malformed
/// number; `Unexpected token: ..`, `Unexpected end of input`,
/// `Expected .., found ..` where the grammar fails; and
/// `Trailing tokens after expression` when tokens remain.
pub fn parse(input: &str, table: &FloatTable) -> (r: Result<Result<Expr, String>, FloatQuery>)
    ensures
        outcome(r) == parsed(input@, table@),
{
    let tokens = match tokenize(input, table)? {
        Ok(ts) => ts,
        Err(m) => return Ok(Err(m)),
    };
    match parse_tokens(&tokens) {
        Ok(e) => Ok(Ok(e)),
        Err(pe) => {
            let m = pe.message(table)?;
            Ok(Err(m))
        },
    }
}

} // verus!
