//! Simplification: a bottom-up rewriting pass, repeated until it changes nothing.
//!
//! One pass rewrites the children of a node first and then applies, at the node,
//! the first rule that matches:
//! * constant folding: `a + b`, `a * b` and `a ^ b` of two numbers become one number;
//! * neutral elements: `x + 0 = x`, `0 + x = x`, `x * 1 = x`, `1 * x = x`, `x ^ 1 = x`;
//! * annihilation: `x * 0 = 0`, `0 * x = 0`, `x ^ 0 = 1`, `1 ^ x = 1`;
//! * cancellation: `(a * b) * b^(-1) = a` when the two `b` are the same tree;
//! * `ln(1) = 0`; `-(-x) = x`; `-0 = 0`; `-(a)` of a number `a` is the number `-a`.
//!
//! The constants that folding produces come from a [`FloatTable`].

use vstd::prelude::*;
use crate::ast::{Expr, SpecExpr};
use crate::floats::{
    ZERO, ONE, NEG_ONE, FloatQuery, FloatTable, SpecQuery, SpecTable, answered, ask_value, is_zero, is_one,
    negated, table_extends, bits_is_zero, bits_is_one, bits_negated,
};

verus! {

/// A number from a table's answer, or the missing query.
pub open spec fn number_from(r: Result<u64, SpecQuery>) -> Result<SpecExpr, SpecQuery> {
    match r {
        Ok(b) => Ok(SpecExpr::Num(b)),
        Err(q) => Err(q),
    }
}

/// The expression is a number that compares equal to `0.0`.
pub open spec fn is_zero_num(e: SpecExpr) -> bool {
    e is Num && is_zero(e->Num_0)
}

/// The expression is the number `1.0`.
pub open spec fn is_one_num(e: SpecExpr) -> bool {
    e is Num && is_one(e->Num_0)
}

/// The rules for `l + r` once `l` and `r` are simplified.
pub open spec fn reduce_add(l: SpecExpr, r: SpecExpr, t: SpecTable) -> Result<SpecExpr, SpecQuery> {
    if l is Num && r is Num {
        number_from(ask_value(t, SpecQuery::Add(l->Num_0, r->Num_0)))
    } else if is_zero_num(r) {
        Ok(l)
    } else if is_zero_num(l) {
        Ok(r)
    } else {
        Ok(SpecExpr::plus(l, r))
    }
}

/// The rules for `l * r` once `l` and `r` are simplified.
pub open spec fn reduce_mul(l: SpecExpr, r: SpecExpr, t: SpecTable) -> Result<SpecExpr, SpecQuery> {
    if l is Num && r is Num {
        number_from(ask_value(t, SpecQuery::Mul(l->Num_0, r->Num_0)))
    } else if is_zero_num(r) || is_zero_num(l) {
        Ok(SpecExpr::Num(ZERO))
    } else if is_one_num(r) {
        Ok(l)
    } else if is_one_num(l) {
        Ok(r)
    } else if l is Mul && r == SpecExpr::power(*l->Mul_1, SpecExpr::Num(NEG_ONE)) {
        Ok(*l->Mul_0)
    } else {
        Ok(SpecExpr::times(l, r))
    }
}

/// The rules for `l ^ r` once `l` and `r` are simplified.
pub open spec fn reduce_pow(l: SpecExpr, r: SpecExpr, t: SpecTable) -> Result<SpecExpr, SpecQuery> {
    if is_zero_num(r) {
        Ok(SpecExpr::Num(ONE))
    } else if is_one_num(r) {
        Ok(l)
    } else if is_one_num(l) {
        Ok(SpecExpr::Num(ONE))
    } else if l is Num && r is Num {
        number_from(ask_value(t, SpecQuery::Pow(l->Num_0, r->Num_0)))
    } else {
        Ok(SpecExpr::power(l, r))
    }
}

/// The rule for `ln(x)` once `x` is simplified.
pub open spec fn reduce_ln(x: SpecExpr) -> SpecExpr {
    if is_one_num(x) {
        SpecExpr::Num(ZERO)
    } else {
        SpecExpr::log(x)
    }
}

/// The rules for `-x` once `x` is simplified.
pub open spec fn reduce_neg(x: SpecExpr) -> SpecExpr {
    match x {
        SpecExpr::Neg(inner) => *inner,
        SpecExpr::Num(n) => if is_zero(n) { SpecExpr::Num(ZERO) } else { SpecExpr::Num(negated(n)) },
        _ => SpecExpr::negate(x),
    }
}

impl SpecExpr {
    /// One bottom-up simplification pass, reading folded constants from `t`.
    /// The left child is simplified before the right one; the first query that
    /// `t` cannot answer stops the pass.
    pub open spec fn simplify_once(self, t: SpecTable) -> Result<SpecExpr, SpecQuery>
        decreases self,
    {
        match self {
            SpecExpr::Add(l, r) => match l.simplify_once(t) {
                Err(q) => Err(q),
                Ok(a) => match r.simplify_once(t) {
                    Err(q) => Err(q),
                    Ok(b) => reduce_add(a, b, t),
                },
            },
            SpecExpr::Mul(l, r) => match l.simplify_once(t) {
                Err(q) => Err(q),
                Ok(a) => match r.simplify_once(t) {
                    Err(q) => Err(q),
                    Ok(b) => reduce_mul(a, b, t),
                },
            },
            SpecExpr::Pow(l, r) => match l.simplify_once(t) {
                Err(q) => Err(q),
                Ok(a) => match r.simplify_once(t) {
                    Err(q) => Err(q),
                    Ok(b) => reduce_pow(a, b, t),
                },
            },
            SpecExpr::Ln(x) => match x.simplify_once(t) {
                Err(q) => Err(q),
                Ok(a) => Ok(reduce_ln(a)),
            },
            SpecExpr::Neg(x) => match x.simplify_once(t) {
                Err(q) => Err(q),
                Ok(a) => Ok(reduce_neg(a)),
            },
            SpecExpr::Sin(x) => match x.simplify_once(t) {
                Err(q) => Err(q),
                Ok(a) => Ok(SpecExpr::sine(a)),
            },
            SpecExpr::Cos(x) => match x.simplify_once(t) {
                Err(q) => Err(q),
                Ok(a) => Ok(SpecExpr::cosine(a)),
            },
            _ => Ok(self),
        }
    }

    /// Passes repeated until one changes nothing: the fixed point that `self` reaches.
    pub open spec fn simplified(self, t: SpecTable) -> Result<SpecExpr, SpecQuery>
        decreases self.size(),
    {
        match self.simplify_once(t) {
            Err(q) => Err(q),
            Ok(n) => if n == self {
                Ok(n)
            } else {
                proof {
                    lemma_simplify_once_shrinks(self, t);
                }
                n.simplified(t)
            },
        }
    }
}

/// A pass never grows a tree, and one that keeps its size keeps the tree.
pub proof fn lemma_simplify_once_shrinks(e: SpecExpr, t: SpecTable)
    ensures
        e.simplify_once(t) matches Ok(n) ==> n.size() <= e.size() && (n.size() == e.size() ==> n == e),
    decreases e,
{
    match e {
        SpecExpr::Add(l, r) => {
            lemma_simplify_once_shrinks(*l, t);
            lemma_simplify_once_shrinks(*r, t);
        },
        SpecExpr::Mul(l, r) => {
            lemma_simplify_once_shrinks(*l, t);
            lemma_simplify_once_shrinks(*r, t);
        },
        SpecExpr::Pow(l, r) => {
            lemma_simplify_once_shrinks(*l, t);
            lemma_simplify_once_shrinks(*r, t);
        },
        SpecExpr::Ln(x) => lemma_simplify_once_shrinks(*x, t),
        SpecExpr::Neg(x) => lemma_simplify_once_shrinks(*x, t),
        SpecExpr::Sin(x) => lemma_simplify_once_shrinks(*x, t),
        SpecExpr::Cos(x) => lemma_simplify_once_shrinks(*x, t),
        _ => {},
    }
}

/// Once a pass of `e` succeeds under `t1`, it gives the same tree under any table
/// that holds every answer of `t1`.
pub proof fn lemma_simplify_once_table_monotone(e: SpecExpr, t1: SpecTable, t2: SpecTable)
    requires
        table_extends(t1, t2),
        e.simplify_once(t1) is Ok,
    ensures
        e.simplify_once(t2) == e.simplify_once(t1),
    decreases e,
{
    match e {
        SpecExpr::Add(l, r) | SpecExpr::Mul(l, r) | SpecExpr::Pow(l, r) => {
            lemma_simplify_once_table_monotone(*l, t1, t2);
            lemma_simplify_once_table_monotone(*r, t1, t2);
        },
        SpecExpr::Ln(x) | SpecExpr::Neg(x) | SpecExpr::Sin(x) | SpecExpr::Cos(x) => {
            lemma_simplify_once_table_monotone(*x, t1, t2);
        },
        _ => {},
    }
}

/// A pass that stops names a folding query that the table cannot answer.
pub proof fn lemma_simplify_once_missing(e: SpecExpr, t: SpecTable)
    ensures
        e.simplify_once(t) matches Err(q) ==> !t.values.contains_key(q),
    decreases e,
{
    match e {
        SpecExpr::Add(l, r) | SpecExpr::Mul(l, r) | SpecExpr::Pow(l, r) => {
            lemma_simplify_once_missing(*l, t);
            lemma_simplify_once_missing(*r, t);
        },
        SpecExpr::Ln(x) | SpecExpr::Neg(x) | SpecExpr::Sin(x) | SpecExpr::Cos(x) => {
            lemma_simplify_once_missing(*x, t);
        },
        _ => {},
    }
}

/// A pass introduces no variable.
pub proof fn lemma_simplify_once_no_new_variables(e: SpecExpr, t: SpecTable, v: Seq<char>)
    ensures
        e.simplify_once(t) matches Ok(n) ==> (n.mentions(v) ==> e.mentions(v)),
    decreases e,
{
    match e {
        SpecExpr::Add(l, r) | SpecExpr::Mul(l, r) | SpecExpr::Pow(l, r) => {
            lemma_simplify_once_no_new_variables(*l, t, v);
            lemma_simplify_once_no_new_variables(*r, t, v);
        },
        SpecExpr::Ln(x) | SpecExpr::Neg(x) | SpecExpr::Sin(x) | SpecExpr::Cos(x) => {
            lemma_simplify_once_no_new_variables(*x, t, v);
            if let SpecExpr::Neg(_) = e {
                if let Ok(a) = x.simplify_once(t) {
                    if let SpecExpr::Neg(inner) = a {
                        assert(a.mentions(v) == inner.mentions(v));
                    }
                }
            }
        },
        _ => {},
    }
}

/// The tree that simplification returns is a fixed point of a pass.
pub proof fn lemma_simplified_is_fixed_point(e: SpecExpr, t: SpecTable)
    ensures
        e.simplified(t) matches Ok(r) ==> r.simplify_once(t) == Ok::<SpecExpr, SpecQuery>(r),
    decreases e.size(),
{
    if let Ok(n) = e.simplify_once(t) {
        if n != e {
            lemma_simplify_once_shrinks(e, t);
            lemma_simplified_is_fixed_point(n, t);
        }
    }
}

/// No rewrite rule applies anywhere in the tree: under no node, the arguments of
/// `sin`, `cos` and `ln` included, is there a sum or product or power of two
/// numbers, a sum with a zero operand, a product with a zero or one operand or
/// of the form `(p * q) * q^(-1)`, a power with exponent zero or one or base
/// one, the logarithm of one, or the negation of a negation or of a number.
pub open spec fn irreducible(e: SpecExpr) -> bool
    decreases e,
{
    match e {
        SpecExpr::Add(l, r) => {
            &&& !(*l is Num && *r is Num) && !is_zero_num(*l) && !is_zero_num(*r)
            &&& irreducible(*l) && irreducible(*r)
        },
        SpecExpr::Mul(l, r) => {
            &&& !(*l is Num && *r is Num) && !is_zero_num(*l) && !is_zero_num(*r)
            &&& !is_one_num(*l) && !is_one_num(*r)
            &&& !(*l is Mul && *r == SpecExpr::power(*l->Mul_1, SpecExpr::Num(NEG_ONE)))
            &&& irreducible(*l) && irreducible(*r)
        },
        SpecExpr::Pow(l, r) => {
            &&& !(*l is Num && *r is Num) && !is_zero_num(*r) && !is_one_num(*r) && !is_one_num(*l)
            &&& irreducible(*l) && irreducible(*r)
        },
        SpecExpr::Ln(x) => !is_one_num(*x) && irreducible(*x),
        SpecExpr::Neg(x) => !(*x is Neg) && !(*x is Num) && irreducible(*x),
        SpecExpr::Sin(x) | SpecExpr::Cos(x) => irreducible(*x),
        _ => true,
    }
}

/// A tree that a pass leaves unchanged is one to which no rule applies.
pub proof fn lemma_unchanged_is_irreducible(e: SpecExpr, t: SpecTable)
    requires
        e.simplify_once(t) == Ok::<SpecExpr, SpecQuery>(e),
    ensures
        irreducible(e),
    decreases e,
{
    match e {
        SpecExpr::Add(l, r) | SpecExpr::Mul(l, r) | SpecExpr::Pow(l, r) => {
            lemma_simplify_once_shrinks(*l, t);
            lemma_simplify_once_shrinks(*r, t);
            let a = l.simplify_once(t)->Ok_0;
            let b = r.simplify_once(t)->Ok_0;
            if let SpecExpr::Mul(p, q) = a {
                assert(p.size() < a.size());
            }
            if e is Add {
                assert(reduce_add(a, b, t) == Ok::<SpecExpr, SpecQuery>(e));
            } else if e is Mul {
                assert(reduce_mul(a, b, t) == Ok::<SpecExpr, SpecQuery>(e));
            } else {
                assert(reduce_pow(a, b, t) == Ok::<SpecExpr, SpecQuery>(e));
            }
            assert(a == *l && b == *r);
            lemma_unchanged_is_irreducible(*l, t);
            lemma_unchanged_is_irreducible(*r, t);
        },
        SpecExpr::Ln(x) | SpecExpr::Neg(x) | SpecExpr::Sin(x) | SpecExpr::Cos(x) => {
            lemma_simplify_once_shrinks(*x, t);
            let a = x.simplify_once(t)->Ok_0;
            if let SpecExpr::Neg(inner) = a {
                assert(inner.size() < a.size());
            }
            assert(a == *x);
            lemma_unchanged_is_irreducible(*x, t);
        },
        _ => {},
    }
}

/// Simplification reaches a tree to which no rewrite rule applies, at any
/// depth: every subtree, the arguments of `sin` and `cos` included, is simplified.
pub proof fn law_simplified_is_irreducible(e: SpecExpr, t: SpecTable)
    ensures
        e.simplified(t) matches Ok(r) ==> irreducible(r),
{
    lemma_simplified_is_fixed_point(e, t);
    if let Ok(r) = e.simplified(t) {
        lemma_unchanged_is_irreducible(r, t);
    }
}

/// Simplification is idempotent: simplifying its result again returns that result.
pub proof fn law_simplify_idempotent(e: SpecExpr, t: SpecTable)
    ensures
        e.simplified(t) matches Ok(r) ==> r.simplified(t) == Ok::<SpecExpr, SpecQuery>(r),
{
    lemma_simplified_is_fixed_point(e, t);
}

/// Simplification never grows the tree.
pub proof fn law_simplify_never_grows(e: SpecExpr, t: SpecTable)
    ensures
        e.simplified(t) matches Ok(r) ==> r.size() <= e.size(),
    decreases e.size(),
{
    lemma_simplify_once_shrinks(e, t);
    if let Ok(n) = e.simplify_once(t) {
        if n != e {
            law_simplify_never_grows(n, t);
        }
    }
}

/// Simplification introduces no variable.
pub proof fn law_simplify_no_new_variables(e: SpecExpr, t: SpecTable, v: Seq<char>)
    ensures
        e.simplified(t) matches Ok(r) ==> (r.mentions(v) ==> e.mentions(v)),
    decreases e.size(),
{
    lemma_simplify_once_no_new_variables(e, t, v);
    if let Ok(n) = e.simplify_once(t) {
        if n != e {
            lemma_simplify_once_shrinks(e, t);
            law_simplify_no_new_variables(n, t, v);
        }
    }
}

/// A simplification that succeeds gives the same tree under any table that
/// holds every answer of the first; one that stops names a query the table lacks.
pub proof fn law_simplify_table_answers(e: SpecExpr, t1: SpecTable, t2: SpecTable)
    ensures
        table_extends(t1, t2) && e.simplified(t1) is Ok ==> e.simplified(t2) == e.simplified(t1),
        e.simplified(t1) matches Err(q) ==> !t1.values.contains_key(q),
    decreases e.size(),
{
    lemma_simplify_once_missing(e, t1);
    if table_extends(t1, t2) && e.simplified(t1) is Ok {
        lemma_simplify_once_table_monotone(e, t1, t2);
    }
    if let Ok(n) = e.simplify_once(t1) {
        if n != e {
            lemma_simplify_once_shrinks(e, t1);
            law_simplify_table_answers(n, t1, t2);
        }
    }
}

fn number_answer(r: Result<u64, FloatQuery>) -> (e: Result<Expr, FloatQuery>)
    ensures
        answered(e) == number_from(answered(r)),
{
    match r {
        Ok(b) => Ok(Expr::num(b)),
        Err(q) => Err(q),
    }
}

fn fold_add(l: Expr, r: Expr, table: &FloatTable) -> (e: Result<Expr, FloatQuery>)
    ensures
        answered(e) == reduce_add(l@, r@, table@),
{
    if let (Expr::Num(a), Expr::Num(b)) = (&l, &r) {
        return number_answer(table.value(FloatQuery::Add(*a, *b)));
    }
    if let Expr::Num(n) = &r {
        if bits_is_zero(*n) {
            return Ok(l);
        }
    }
    if let Expr::Num(n) = &l {
        if bits_is_zero(*n) {
            return Ok(r);
        }
    }
    Ok(l + r)
}

fn fold_mul(l: Expr, r: Expr, table: &FloatTable) -> (e: Result<Expr, FloatQuery>)
    ensures
        answered(e) == reduce_mul(l@, r@, table@),
{
    if let (Expr::Num(a), Expr::Num(b)) = (&l, &r) {
        return number_answer(table.value(FloatQuery::Mul(*a, *b)));
    }
    if let Expr::Num(n) = &r {
        if bits_is_zero(*n) {
            return Ok(Expr::num(ZERO));
        }
    }
    if let Expr::Num(n) = &l {
        if bits_is_zero(*n) {
            return Ok(Expr::num(ZERO));
        }
    }
    if let Expr::Num(n) = &r {
        if bits_is_one(*n) {
            return Ok(l);
        }
    }
    if let Expr::Num(n) = &l {
        if bits_is_one(*n) {
            return Ok(r);
        }
    }
    if let (Expr::Mul(a, b), Expr::Pow(c, k)) = (&l, &r) {
        if k.is_num(NEG_ONE) && b.identical(c) {
            return Ok(a.deep_copy());
        }
    }
    Ok(l * r)
}

fn fold_pow(l: Expr, r: Expr, table: &FloatTable) -> (e: Result<Expr, FloatQuery>)
    ensures
        answered(e) == reduce_pow(l@, r@, table@),
{
    if let Expr::Num(n) = &r {
        if bits_is_zero(*n) {
            return Ok(Expr::num(ONE));
        }
        if bits_is_one(*n) {
            return Ok(l);
        }
    }
    if let Expr::Num(n) = &l {
        if bits_is_one(*n) {
            return Ok(Expr::num(ONE));
        }
    }
    if let (Expr::Num(a), Expr::Num(b)) = (&l, &r) {
        return number_answer(table.value(FloatQuery::Pow(*a, *b)));
    }
    Ok(l.pow(r))
}

fn fold_ln(x: Expr) -> (e: Expr)
    ensures
        e@ == reduce_ln(x@),
{
    if let Expr::Num(n) = &x {
        if bits_is_one(*n) {
            return Expr::num(ZERO);
        }
    }
    x.ln()
}

fn fold_neg(x: Expr) -> (e: Expr)
    ensures
        e@ == reduce_neg(x@),
{
    match x {
        Expr::Neg(inner) => *inner,
        Expr::Num(n) => {
            if bits_is_zero(n) {
                Expr::num(ZERO)
            } else {
                Expr::num(bits_negated(n))
            }
        },
        other => Expr::Neg(Box::new(other)),
    }
}

impl Expr {
    /// One bottom-up simplification pass.
    pub fn simplify_once(&self, table: &FloatTable) -> (r: Result<Expr, FloatQuery>)
        ensures
            answered(r) == self@.simplify_once(table@),
        decreases self,
    {
        match self {
            Expr::Add(l, r) => {
                let a = l.simplify_once(table)?;
                let b = r.simplify_once(table)?;
                fold_add(a, b, table)
            },
            Expr::Mul(l, r) => {
                let a = l.simplify_once(table)?;
                let b = r.simplify_once(table)?;
                fold_mul(a, b, table)
            },
            Expr::Pow(l, r) => {
                let a = l.simplify_once(table)?;
                let b = r.simplify_once(table)?;
                fold_pow(a, b, table)
            },
            Expr::Ln(x) => {
                let a = x.simplify_once(table)?;
                Ok(fold_ln(a))
            },
            Expr::Neg(x) => {
                let a = x.simplify_once(table)?;
                Ok(fold_neg(a))
            },
            Expr::Sin(x) => {
                let a = x.simplify_once(table)?;
                Ok(a.sin())
            },
            Expr::Cos(x) => {
                let a = x.simplify_once(table)?;
                Ok(a.cos())
            },
            Expr::Num(n) => Ok(Expr::num(*n)),
            Expr::Var(s) => Ok(Expr::Var(s.clone())),
        }
    }

    /// Simplifies the expression: repeats [`Expr::simplify_once`] until a pass
    /// returns the tree it was given (node by node, numbers by bit pattern), and
    /// returns that tree. Each pass that changes the tree makes it smaller, so the
    /// repetition ends. Stops at the first
    /// folded constant that `table` lacks and returns its query.
    pub fn simplify(&self, table: &FloatTable) -> (r: Result<Expr, FloatQuery>)
        ensures
            answered(r) == self@.simplified(table@),
    {
        let mut current = self.deep_copy();
        loop
            invariant
                current@.simplified(table@) == self@.simplified(table@),
            decreases current@.size(),
        {
            let next = match current.simplify_once(table) {
                Ok(n) => n,
                Err(q) => return Err(q),
            };
            if next.identical(&current) {
                return Ok(next);
            }
            proof {
                lemma_simplify_once_shrinks(current@, table@);
            }
            current = next;
        }
    }
}

} // verus!
