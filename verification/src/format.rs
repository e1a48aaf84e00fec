//! Rendering an expression as text with as few parentheses as its meaning allows.
//!
//! Each node has a precedence: numbers and variables 100; `ln`, `sin`, `cos` and
//! negation 4; powers 3; products 2; sums 1. A child is wrapped in parentheses
//! exactly when its precedence is below the one its parent hands down: a binary
//! node hands down its own precedence to both children, except that a power hands
//! its base one more (powers associate to the right); negation hands down its
//! own; a function call hands down 0 inside its brackets. The outermost node gets 0.
//! A product whose right factor is `b^(-1)` (what the parser makes of `a / b`)
//! prints as a division, `a/b`, handing `b` the precedence of a power.
//! A number prints as `{}` prints it, which the [`FloatTable`] holds.

use vstd::prelude::*;
use crate::ast::{Expr, SpecExpr};
use crate::floats::{NEG_ONE, FloatQuery, FloatTable, SpecQuery, SpecTable, answered, ask_text, table_extends};
use crate::text::{push_char, push_chars};

verus! {

/// The precedence of the node at the root of `e`.
pub open spec fn precedence_of(e: SpecExpr) -> u8 {
    match e {
        SpecExpr::Num(_) | SpecExpr::Var(_) => 100,
        SpecExpr::Ln(_) | SpecExpr::Sin(_) | SpecExpr::Cos(_) | SpecExpr::Neg(_) => 4,
        SpecExpr::Pow(_, _) => 3,
        SpecExpr::Mul(_, _) => 2,
        SpecExpr::Add(_, _) => 1,
    }
}

/// `a`, then `sep`, then `b`; the first missing answer if either has one.
pub open spec fn joined(a: Result<Seq<char>, SpecQuery>, sep: Seq<char>, b: Result<Seq<char>, SpecQuery>) -> Result<Seq<char>, SpecQuery> {
    match a {
        Err(q) => Err(q),
        Ok(x) => match b {
            Err(q) => Err(q),
            Ok(y) => Ok(x + sep + y),
        },
    }
}

/// `before`, then `a`, then `after`.
pub open spec fn enclosed(before: Seq<char>, a: Result<Seq<char>, SpecQuery>, after: Seq<char>) -> Result<Seq<char>, SpecQuery> {
    match a {
        Err(q) => Err(q),
        Ok(x) => Ok(before + x + after),
    }
}

impl SpecExpr {
    /// The text of the expression when its parent hands down precedence `parent`.
    pub open spec fn rendered(self, parent: u8, t: SpecTable) -> Result<Seq<char>, SpecQuery>
        decreases self,
    {
        let body = match self {
            SpecExpr::Num(n) => ask_text(t, SpecQuery::Display(n)),
            SpecExpr::Var(s) => Ok(s),
            SpecExpr::Neg(x) => enclosed(seq!['-'], x.rendered(4, t), seq![]),
            SpecExpr::Add(l, r) => joined(l.rendered(1, t), seq![' ', '+', ' '], r.rendered(1, t)),
            SpecExpr::Mul(l, r) => match *r {
                SpecExpr::Pow(b, k) if *k == SpecExpr::Num(NEG_ONE) => joined(l.rendered(2, t), seq!['/'], b.rendered(3, t)),
                _ => joined(l.rendered(2, t), seq![' ', '*', ' '], r.rendered(2, t)),
            },
            SpecExpr::Pow(l, r) => joined(l.rendered(4, t), seq!['^'], r.rendered(3, t)),
            SpecExpr::Ln(x) => enclosed(seq!['l', 'n', '('], x.rendered(0, t), seq![')']),
            SpecExpr::Sin(x) => enclosed(seq!['s', 'i', 'n', '('], x.rendered(0, t), seq![')']),
            SpecExpr::Cos(x) => enclosed(seq!['c', 'o', 's', '('], x.rendered(0, t), seq![')']),
        };
        if precedence_of(self) < parent {
            enclosed(seq!['('], body, seq![')'])
        } else {
            body
        }
    }
}

/// An expression rendered under precedence `parent` is its text at the outermost
/// level, in parentheses exactly when its own precedence is below `parent`; at
/// the outermost level (precedence 0) it is never wrapped.
pub proof fn law_render_parenthesizes(e: SpecExpr, parent: u8, t: SpecTable)
    ensures
        e.rendered(parent, t) == (if precedence_of(e) < parent {
            enclosed(seq!['('], e.rendered(0, t), seq![')'])
        } else {
            e.rendered(0, t)
        }),
{
}

/// A rendering that succeeds gives the same text under any table that holds
/// every answer of the first; one that stops names a number whose text the table lacks.
pub proof fn law_render_table_answers(e: SpecExpr, parent: u8, t1: SpecTable, t2: SpecTable)
    ensures
        table_extends(t1, t2) && e.rendered(parent, t1) is Ok ==> e.rendered(parent, t2) == e.rendered(parent, t1),
        e.rendered(parent, t1) matches Err(q) ==> !t1.texts.contains_key(q),
    decreases e,
{
    match e {
        SpecExpr::Add(l, r) | SpecExpr::Mul(l, r) | SpecExpr::Pow(l, r) => {
            law_render_table_answers(*l, precedence_of(e), t1, t2);
            law_render_table_answers(*r, precedence_of(e), t1, t2);
            law_render_table_answers(*l, 4, t1, t2);
            if let SpecExpr::Pow(b, _) = *r {
                law_render_table_answers(*b, 3, t1, t2);
            }
        },
        SpecExpr::Neg(x) => {
            law_render_table_answers(*x, 4, t1, t2);
        },
        SpecExpr::Ln(x) | SpecExpr::Sin(x) | SpecExpr::Cos(x) => {
            law_render_table_answers(*x, 0, t1, t2);
        },
        _ => {},
    }
}

fn push_three(out: &mut String, a: char, b: char, c: char)
    ensures
        final(out)@ == old(out)@ + seq![a, b, c],
{
    push_char(out, a);
    push_char(out, b);
    push_char(out, c);
    assert(final(out)@ =~= old(out)@ + seq![a, b, c]);
}

impl Expr {
    fn precedence(&self) -> (p: u8)
        ensures
            p == precedence_of(self@),
    {
        match self {
            Expr::Num(_) | Expr::Var(_) => 100,
            Expr::Ln(_) | Expr::Sin(_) | Expr::Cos(_) | Expr::Neg(_) => 4,
            Expr::Pow(_, _) => 3,
            Expr::Mul(_, _) => 2,
            Expr::Add(_, _) => 1,
        }
    }

    /// Appends the text of the expression under the precedence `parent` that its
    /// parent hands down, as [`SpecExpr::rendered`] gives it, to `out`; stops at
    /// the first number whose printed form `table` lacks.
    #[verifier::rlimit(40)]
    pub fn format_with_precedence(&self, parent: u8, table: &FloatTable, out: &mut String) -> (r: Result<(), FloatQuery>)
        ensures
            self@.rendered(parent, table@) matches Ok(s) ==> r is Ok && final(out)@ == old(out)@ + s,
            self@.rendered(parent, table@) matches Err(q) ==> r matches Err(e) && e@ == q,
        decreases self,
    {
        let p = self.precedence();
        let paren = p < parent;
        if paren {
            push_char(out, '(');
        }
        match self {
            Expr::Num(n) => {
                let txt = table.text(FloatQuery::Display(*n))?;
                push_chars(out, &txt);
            },
            Expr::Var(s) => {
                push_chars(out, s);
            },
            Expr::Neg(x) => {
                push_char(out, '-');
                x.format_with_precedence(p, table, out)?;
            },
            Expr::Add(l, r) => {
                l.format_with_precedence(p, table, out)?;
                push_three(out, ' ', '+', ' ');
                r.format_with_precedence(p, table, out)?;
            },
            Expr::Mul(l, r) => {
                l.format_with_precedence(p, table, out)?;
                match &**r {
                    Expr::Pow(b, k) if k.is_num(NEG_ONE) => {
                        push_char(out, '/');
                        assert(r@ == SpecExpr::power(b@, SpecExpr::Num(NEG_ONE)));
                        b.format_with_precedence(3, table, out)?;
                    },
                    _ => {
                        push_three(out, ' ', '*', ' ');
                        r.format_with_precedence(p, table, out)?;
                    },
                }
            },
            Expr::Pow(l, r) => {
                l.format_with_precedence(p + 1, table, out)?;
                push_char(out, '^');
                r.format_with_precedence(p, table, out)?;
            },
            Expr::Ln(x) => {
                push_three(out, 'l', 'n', '(');
                x.format_with_precedence(0, table, out)?;
                push_char(out, ')');
            },
            Expr::Sin(x) => {
                push_three(out, 's', 'i', 'n');
                push_char(out, '(');
                x.format_with_precedence(0, table, out)?;
                push_char(out, ')');
            },
            Expr::Cos(x) => {
                push_three(out, 'c', 'o', 's');
                push_char(out, '(');
                x.format_with_precedence(0, table, out)?;
                push_char(out, ')');
            },
        }
        if paren {
            push_char(out, ')');
        }
        Ok(())
    }

    /// The expression as text, with minimal parentheses; stops at the first
    /// number whose printed form `table` lacks.
    pub fn render(&self, table: &FloatTable) -> (r: Result<String, FloatQuery>)
        ensures
            answered(r) == self@.rendered(0, table@),
    {
        let mut out = String::new();
        self.format_with_precedence(0, table, &mut out)?;
        assert(out@ =~= Seq::<char>::empty() + out@);
        Ok(out)
    }
}

} // verus!
