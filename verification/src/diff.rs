//! Symbolic differentiation.

use vstd::prelude::*;
use crate::ast::{Expr, SpecExpr};
use crate::floats::{ZERO, ONE, NEG_ONE, SpecTable, negated};

verus! {

impl SpecExpr {
    /// The derivative of the expression with respect to `v`, by the rules:
    /// constants give 0; `v` gives 1 and any other variable 0;
    /// `(f + g)' = f' + g'`; `(f g)' = f' g + f g'`;
    /// `(f^g)' = f^g (g' ln(f) + g f' f^(-1))`; `ln(f)' = f' f^(-1)`;
    /// `(-f)' = -(f')`; `sin(u)' = cos(u) u'`; `cos(u)' = -(sin(u) u')`.
    pub open spec fn derivative(self, v: Seq<char>) -> SpecExpr
        decreases self,
    {
        match self {
            SpecExpr::Num(_) => SpecExpr::Num(ZERO),
            SpecExpr::Var(s) => if s == v { SpecExpr::Num(ONE) } else { SpecExpr::Num(ZERO) },
            SpecExpr::Add(l, r) => SpecExpr::plus(l.derivative(v), r.derivative(v)),
            SpecExpr::Mul(l, r) => SpecExpr::plus(
                SpecExpr::times(l.derivative(v), *r),
                SpecExpr::times(*l, r.derivative(v)),
            ),
            SpecExpr::Pow(l, r) => SpecExpr::times(
                SpecExpr::power(*l, *r),
                SpecExpr::plus(
                    SpecExpr::times(r.derivative(v), SpecExpr::log(*l)),
                    SpecExpr::times(
                        SpecExpr::times(*r, l.derivative(v)),
                        SpecExpr::power(*l, SpecExpr::Num(NEG_ONE)),
                    ),
                ),
            ),
            SpecExpr::Ln(x) => SpecExpr::times(x.derivative(v), SpecExpr::power(*x, SpecExpr::Num(NEG_ONE))),
            SpecExpr::Neg(x) => SpecExpr::negate(x.derivative(v)),
            SpecExpr::Sin(x) => SpecExpr::times(SpecExpr::cosine(*x), x.derivative(v)),
            SpecExpr::Cos(x) => SpecExpr::negate(SpecExpr::times(SpecExpr::sine(*x), x.derivative(v))),
        }
    }
}

/// Differentiation introduces no variable.
pub proof fn law_derivative_no_new_variables(e: SpecExpr, v: Seq<char>, w: Seq<char>)
    ensures
        e.derivative(v).mentions(w) ==> e.mentions(w),
    decreases e,
{
    match e {
        SpecExpr::Add(l, r) | SpecExpr::Mul(l, r) | SpecExpr::Pow(l, r) => {
            law_derivative_no_new_variables(*l, v, w);
            law_derivative_no_new_variables(*r, v, w);
            reveal_with_fuel(SpecExpr::mentions, 5);
        },
        SpecExpr::Ln(x) | SpecExpr::Neg(x) | SpecExpr::Sin(x) | SpecExpr::Cos(x) => {
            law_derivative_no_new_variables(*x, v, w);
            reveal_with_fuel(SpecExpr::mentions, 4);
        },
        _ => {},
    }
}

/// Differentiation is additive: the derivative of a sum is the sum of the derivatives.
pub proof fn law_derivative_additive(f: SpecExpr, g: SpecExpr, v: Seq<char>)
    ensures
        SpecExpr::plus(f, g).derivative(v) == SpecExpr::plus(f.derivative(v), g.derivative(v)),
{
}

/// The derivative of a constant multiple `c f` is `0 f + c f'`, which simplification
/// turns into `c f'` by the zero and neutral-element rules.
pub proof fn law_derivative_constant_multiple(c: u64, f: SpecExpr, v: Seq<char>)
    ensures
        SpecExpr::times(SpecExpr::Num(c), f).derivative(v) == SpecExpr::plus(
            SpecExpr::times(SpecExpr::Num(ZERO), f),
            SpecExpr::times(SpecExpr::Num(c), f.derivative(v)),
        ),
{
    assert(SpecExpr::Num(c).derivative(v) == SpecExpr::Num(ZERO));
}

/// The rules of differentiation, each relating the derivative of a composite to
/// the derivatives of its parts: a number has derivative 0; `v` has derivative
/// 1 and every other variable 0; the derivative of `-f` is `-(f')`; the product
/// rule `(f g)' = f' g + f g'`; the chain rule for `sin`, `cos` and `ln`; and
/// `(f^g)' = f^g (g' ln(f) + g f' f^(-1))`.
pub proof fn law_derivative_rules(f: SpecExpr, g: SpecExpr, v: Seq<char>, n: u64, w: Seq<char>)
    ensures
        SpecExpr::Num(n).derivative(v) == SpecExpr::Num(ZERO),
        SpecExpr::Var(v).derivative(v) == SpecExpr::Num(ONE),
        w != v ==> SpecExpr::Var(w).derivative(v) == SpecExpr::Num(ZERO),
        SpecExpr::negate(f).derivative(v) == SpecExpr::negate(f.derivative(v)),
        SpecExpr::times(f, g).derivative(v) == SpecExpr::plus(
            SpecExpr::times(f.derivative(v), g),
            SpecExpr::times(f, g.derivative(v)),
        ),
        SpecExpr::sine(f).derivative(v) == SpecExpr::times(SpecExpr::cosine(f), f.derivative(v)),
        SpecExpr::cosine(f).derivative(v) == SpecExpr::negate(SpecExpr::times(SpecExpr::sine(f), f.derivative(v))),
        SpecExpr::log(f).derivative(v) == SpecExpr::times(f.derivative(v), SpecExpr::power(f, SpecExpr::Num(NEG_ONE))),
        SpecExpr::power(f, g).derivative(v) == SpecExpr::times(
            SpecExpr::power(f, g),
            SpecExpr::plus(
                SpecExpr::times(g.derivative(v), SpecExpr::log(f)),
                SpecExpr::times(SpecExpr::times(g, f.derivative(v)), SpecExpr::power(f, SpecExpr::Num(NEG_ONE))),
            ),
        ),
{
}

/// Negation flips the value of a derivative: evaluating the derivative of `-f`
/// gives the value of the derivative of `f` with its sign flipped, or the same
/// error or missing answer.
pub proof fn law_derivative_of_negation_evaluates_negated(f: SpecExpr, v: Seq<char>, env: Map<Seq<char>, u64>, t: SpecTable)
    ensures
        SpecExpr::negate(f).derivative(v).evaluated(env, t) == (match f.derivative(v).evaluated(env, t) {
            Ok(Ok(a)) => Ok(Ok(negated(a))),
            other => other,
        }),
{
}

impl Expr {
    /// The symbolic derivative with respect to the variable `var`.
    ///
    /// The result is exact but often holds redundant terms such as `* 1` or `+ 0`;
    /// [`Expr::simplify`] removes them.
    pub fn diff(&self, var: &str) -> (r: Expr)
        ensures
            r@ == self@.derivative(var@),
    {
        let v = var.to_owned();
        self.diff_name(&v)
    }

    fn diff_name(&self, var: &String) -> (r: Expr)
        ensures
            r@ == self@.derivative(var@),
        decreases self,
    {
        match self {
            Expr::Num(_) => Expr::num(ZERO),
            Expr::Var(s) => {
                if *s == *var {
                    Expr::num(ONE)
                } else {
                    Expr::num(ZERO)
                }
            },
            Expr::Add(l, r) => l.diff_name(var) + r.diff_name(var),
            Expr::Mul(l, r) => {
                let f_prime = l.diff_name(var);
                let g_prime = r.diff_name(var);
                (f_prime * r.deep_copy()) + (l.deep_copy() * g_prime)
            },
            Expr::Pow(l, r) => {
                let f_prime = l.diff_name(var);
                let g_prime = r.diff_name(var);
                let term1 = g_prime * l.deep_copy().ln();
                let term2 = (r.deep_copy() * f_prime) * l.deep_copy().pow(Expr::num(NEG_ONE));
                l.deep_copy().pow(r.deep_copy()) * (term1 + term2)
            },
            Expr::Ln(x) => x.diff_name(var) * x.deep_copy().pow(Expr::num(NEG_ONE)),
            Expr::Neg(x) => Expr::Neg(Box::new(x.diff_name(var))),
            Expr::Sin(x) => x.deep_copy().cos() * x.diff_name(var),
            Expr::Cos(x) => {
                let prod = x.deep_copy().sin() * x.diff_name(var);
                Expr::Neg(Box::new(prod))
            },
        }
    }
}

} // verus!
