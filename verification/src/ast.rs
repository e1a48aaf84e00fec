//! The expression tree, its mathematical model, constructors and substitution.

use vstd::prelude::*;
use vstd::std_specs::cmp::PartialEqSpecImpl;
use crate::floats::{ZERO, float_eq, bits_float_eq, is_nan, is_zero};

verus! {

/// A node of an expression tree.
///
/// A number is held as its IEEE-754 binary64 bit pattern (see [`crate::floats`]).
/// Subtraction and division have no node of their own: `a - b` is `a + (-b)` and
/// `a / b` is `a * b^(-1)`.
pub enum Expr {
    /// A number, as a binary64 bit pattern.
    Num(u64),
    /// A named variable.
    Var(String),
    /// `l + r`
    Add(Box<Expr>, Box<Expr>),
    /// `l * r`
    Mul(Box<Expr>, Box<Expr>),
    /// `l ^ r`
    Pow(Box<Expr>, Box<Expr>),
    /// `ln(x)`
    Ln(Box<Expr>),
    /// `-x`
    Neg(Box<Expr>),
    /// `sin(x)`
    Sin(Box<Expr>),
    /// `cos(x)`
    Cos(Box<Expr>),
}

/// The mathematical model of an [`Expr`]: the same tree with names as character sequences.
pub enum SpecExpr {
    Num(u64),
    Var(Seq<char>),
    Add(Box<SpecExpr>, Box<SpecExpr>),
    Mul(Box<SpecExpr>, Box<SpecExpr>),
    Pow(Box<SpecExpr>, Box<SpecExpr>),
    Ln(Box<SpecExpr>),
    Neg(Box<SpecExpr>),
    Sin(Box<SpecExpr>),
    Cos(Box<SpecExpr>),
}

impl SpecExpr {
    pub open spec fn plus(a: SpecExpr, b: SpecExpr) -> SpecExpr {
        SpecExpr::Add(Box::new(a), Box::new(b))
    }

    pub open spec fn times(a: SpecExpr, b: SpecExpr) -> SpecExpr {
        SpecExpr::Mul(Box::new(a), Box::new(b))
    }

    pub open spec fn power(a: SpecExpr, b: SpecExpr) -> SpecExpr {
        SpecExpr::Pow(Box::new(a), Box::new(b))
    }

    pub open spec fn log(a: SpecExpr) -> SpecExpr {
        SpecExpr::Ln(Box::new(a))
    }

    pub open spec fn negate(a: SpecExpr) -> SpecExpr {
        SpecExpr::Neg(Box::new(a))
    }

    pub open spec fn sine(a: SpecExpr) -> SpecExpr {
        SpecExpr::Sin(Box::new(a))
    }

    pub open spec fn cosine(a: SpecExpr) -> SpecExpr {
        SpecExpr::Cos(Box::new(a))
    }

    /// The number of nodes of the tree.
    pub open spec fn size(self) -> nat
        decreases self,
    {
        match self {
            SpecExpr::Num(_) => 1,
            SpecExpr::Var(_) => 1,
            SpecExpr::Add(l, r) => 1 + l.size() + r.size(),
            SpecExpr::Mul(l, r) => 1 + l.size() + r.size(),
            SpecExpr::Pow(l, r) => 1 + l.size() + r.size(),
            SpecExpr::Ln(x) => 1 + x.size(),
            SpecExpr::Neg(x) => 1 + x.size(),
            SpecExpr::Sin(x) => 1 + x.size(),
            SpecExpr::Cos(x) => 1 + x.size(),
        }
    }

    /// The variable `v` occurs in the tree.
    pub open spec fn mentions(self, v: Seq<char>) -> bool
        decreases self,
    {
        match self {
            SpecExpr::Num(_) => false,
            SpecExpr::Var(s) => s == v,
            SpecExpr::Add(l, r) => l.mentions(v) || r.mentions(v),
            SpecExpr::Mul(l, r) => l.mentions(v) || r.mentions(v),
            SpecExpr::Pow(l, r) => l.mentions(v) || r.mentions(v),
            SpecExpr::Ln(x) => x.mentions(v),
            SpecExpr::Neg(x) => x.mentions(v),
            SpecExpr::Sin(x) => x.mentions(v),
            SpecExpr::Cos(x) => x.mentions(v),
        }
    }

    /// Every occurrence of the variable `v` replaced by `rep`.
    pub open spec fn substituted(self, v: Seq<char>, rep: SpecExpr) -> SpecExpr
        decreases self,
    {
        match self {
            SpecExpr::Num(n) => SpecExpr::Num(n),
            SpecExpr::Var(s) => if s == v { rep } else { SpecExpr::Var(s) },
            SpecExpr::Add(l, r) => SpecExpr::plus(l.substituted(v, rep), r.substituted(v, rep)),
            SpecExpr::Mul(l, r) => SpecExpr::times(l.substituted(v, rep), r.substituted(v, rep)),
            SpecExpr::Pow(l, r) => SpecExpr::power(l.substituted(v, rep), r.substituted(v, rep)),
            SpecExpr::Ln(x) => SpecExpr::log(x.substituted(v, rep)),
            SpecExpr::Neg(x) => SpecExpr::negate(x.substituted(v, rep)),
            SpecExpr::Sin(x) => SpecExpr::sine(x.substituted(v, rep)),
            SpecExpr::Cos(x) => SpecExpr::cosine(x.substituted(v, rep)),
        }
    }
}

/// Substituting for a variable that does not occur leaves the expression unchanged.
pub proof fn law_substitute_absent_variable(e: SpecExpr, v: Seq<char>, rep: SpecExpr)
    requires
        !e.mentions(v),
    ensures
        e.substituted(v, rep) == e,
    decreases e,
{
    match e {
        SpecExpr::Add(l, r) | SpecExpr::Mul(l, r) | SpecExpr::Pow(l, r) => {
            law_substitute_absent_variable(*l, v, rep);
            law_substitute_absent_variable(*r, v, rep);
        },
        SpecExpr::Ln(x) | SpecExpr::Neg(x) | SpecExpr::Sin(x) | SpecExpr::Cos(x) => {
            law_substitute_absent_variable(*x, v, rep);
        },
        _ => {},
    }
}

/// Substituting a variable by itself leaves the expression unchanged.
pub proof fn law_substitute_variable_by_itself(e: SpecExpr, v: Seq<char>)
    ensures
        e.substituted(v, SpecExpr::Var(v)) == e,
    decreases e,
{
    match e {
        SpecExpr::Add(l, r) | SpecExpr::Mul(l, r) | SpecExpr::Pow(l, r) => {
            law_substitute_variable_by_itself(*l, v);
            law_substitute_variable_by_itself(*r, v);
        },
        SpecExpr::Ln(x) | SpecExpr::Neg(x) | SpecExpr::Sin(x) | SpecExpr::Cos(x) => {
            law_substitute_variable_by_itself(*x, v);
        },
        _ => {},
    }
}

/// After substituting `rep` for `v`, a variable `w` occurs exactly when it is
/// another variable of the expression, or it occurs in `rep` and `v` occurred.
pub proof fn law_substitute_variables(e: SpecExpr, v: Seq<char>, rep: SpecExpr, w: Seq<char>)
    ensures
        e.substituted(v, rep).mentions(w) <==> ((w != v && e.mentions(w)) || (e.mentions(v) && rep.mentions(w))),
    decreases e,
{
    match e {
        SpecExpr::Add(l, r) | SpecExpr::Mul(l, r) | SpecExpr::Pow(l, r) => {
            law_substitute_variables(*l, v, rep, w);
            law_substitute_variables(*r, v, rep, w);
        },
        SpecExpr::Ln(x) | SpecExpr::Neg(x) | SpecExpr::Sin(x) | SpecExpr::Cos(x) => {
            law_substitute_variables(*x, v, rep, w);
        },
        _ => {},
    }
}

/// Substituting twice for the same variable composes the replacements.
pub proof fn law_substitute_twice(e: SpecExpr, v: Seq<char>, r1: SpecExpr, r2: SpecExpr)
    ensures
        e.substituted(v, r1).substituted(v, r2) == e.substituted(v, r1.substituted(v, r2)),
    decreases e,
{
    match e {
        SpecExpr::Add(l, r) | SpecExpr::Mul(l, r) | SpecExpr::Pow(l, r) => {
            law_substitute_twice(*l, v, r1, r2);
            law_substitute_twice(*r, v, r1, r2);
        },
        SpecExpr::Ln(x) | SpecExpr::Neg(x) | SpecExpr::Sin(x) | SpecExpr::Cos(x) => {
            law_substitute_twice(*x, v, r1, r2);
        },
        SpecExpr::Var(s) => {
            if s != v {
                assert(SpecExpr::Var(s).substituted(v, r2) == SpecExpr::Var(s));
            }
        },
        _ => {},
    }
}

impl Expr {
    /// The model of the tree.
    pub open spec fn model(&self) -> SpecExpr
        decreases self,
    {
        match self {
            Expr::Num(n) => SpecExpr::Num(*n),
            Expr::Var(s) => SpecExpr::Var(s@),
            Expr::Add(l, r) => SpecExpr::plus(l.model(), r.model()),
            Expr::Mul(l, r) => SpecExpr::times(l.model(), r.model()),
            Expr::Pow(l, r) => SpecExpr::power(l.model(), r.model()),
            Expr::Ln(x) => SpecExpr::log(x.model()),
            Expr::Neg(x) => SpecExpr::negate(x.model()),
            Expr::Sin(x) => SpecExpr::sine(x.model()),
            Expr::Cos(x) => SpecExpr::cosine(x.model()),
        }
    }
}

impl Clone for Expr {
    /// A deep copy of the tree.
    fn clone(&self) -> (r: Expr)
        ensures
            r@ == self@,
    {
        self.deep_copy()
    }
}

impl View for Expr {
    type V = SpecExpr;

    open spec fn view(&self) -> SpecExpr {
        self.model()
    }
}

impl DeepView for Expr {
    type V = SpecExpr;

    open spec fn deep_view(&self) -> SpecExpr {
        self.model()
    }
}

impl Expr {
    /// Creates a number from its binary64 bit pattern.
    pub fn num(bits: u64) -> (r: Expr)
        ensures
            r@ == SpecExpr::Num(bits),
    {
        Expr::Num(bits)
    }

    /// Creates a variable.
    pub fn var(v: &str) -> (r: Expr)
        ensures
            r@ == SpecExpr::Var(v@),
    {
        Expr::Var(v.to_owned())
    }

    /// Wraps the expression in a sine.
    pub fn sin(self) -> (r: Expr)
        ensures
            r@ == SpecExpr::sine(self@),
    {
        Expr::Sin(Box::new(self))
    }

    /// Wraps the expression in a cosine.
    pub fn cos(self) -> (r: Expr)
        ensures
            r@ == SpecExpr::cosine(self@),
    {
        Expr::Cos(Box::new(self))
    }

    /// Raises the expression to the power `exponent`.
    pub fn pow(self, exponent: Expr) -> (r: Expr)
        ensures
            r@ == SpecExpr::power(self@, exponent@),
    {
        Expr::Pow(Box::new(self), Box::new(exponent))
    }

    /// Wraps the expression in a natural logarithm.
    pub fn ln(self) -> (r: Expr)
        ensures
            r@ == SpecExpr::log(self@),
    {
        Expr::Ln(Box::new(self))
    }

    /// A deep copy of the tree.
    pub fn deep_copy(&self) -> (r: Expr)
        ensures
            r@ == self@,
        decreases self,
    {
        match self {
            Expr::Num(n) => Expr::Num(*n),
            Expr::Var(s) => Expr::Var(s.clone()),
            Expr::Add(l, r) => Expr::Add(Box::new(l.deep_copy()), Box::new(r.deep_copy())),
            Expr::Mul(l, r) => Expr::Mul(Box::new(l.deep_copy()), Box::new(r.deep_copy())),
            Expr::Pow(l, r) => Expr::Pow(Box::new(l.deep_copy()), Box::new(r.deep_copy())),
            Expr::Ln(x) => Expr::Ln(Box::new(x.deep_copy())),
            Expr::Neg(x) => Expr::Neg(Box::new(x.deep_copy())),
            Expr::Sin(x) => Expr::Sin(Box::new(x.deep_copy())),
            Expr::Cos(x) => Expr::Cos(Box::new(x.deep_copy())),
        }
    }

    /// Whether the expression is the number with bit pattern `bits`.
    pub(crate) fn is_num(&self, bits: u64) -> (r: bool)
        ensures
            r == (self@ == SpecExpr::Num(bits)),
    {
        match self {
            Expr::Num(n) => *n == bits,
            _ => false,
        }
    }

    /// Whether two trees are identical, node by node and bit by bit.
    pub fn identical(&self, other: &Expr) -> (r: bool)
        ensures
            r == (self@ == other@),
        decreases self,
    {
        match (self, other) {
            (Expr::Num(a), Expr::Num(b)) => *a == *b,
            (Expr::Var(a), Expr::Var(b)) => *a == *b,
            (Expr::Add(l1, r1), Expr::Add(l2, r2)) => l1.identical(l2) && r1.identical(r2),
            (Expr::Mul(l1, r1), Expr::Mul(l2, r2)) => l1.identical(l2) && r1.identical(r2),
            (Expr::Pow(l1, r1), Expr::Pow(l2, r2)) => l1.identical(l2) && r1.identical(r2),
            (Expr::Ln(a), Expr::Ln(b)) => a.identical(b),
            (Expr::Neg(a), Expr::Neg(b)) => a.identical(b),
            (Expr::Sin(a), Expr::Sin(b)) => a.identical(b),
            (Expr::Cos(a), Expr::Cos(b)) => a.identical(b),
            _ => false,
        }
    }

    /// Replaces every occurrence of the variable `var` by a copy of `replacement`.
    pub fn substitute(&self, var: &str, replacement: &Expr) -> (r: Expr)
        ensures
            r@ == self@.substituted(var@, replacement@),
    {
        let v = var.to_owned();
        self.substitute_name(&v, replacement)
    }

    fn substitute_name(&self, var: &String, replacement: &Expr) -> (r: Expr)
        ensures
            r@ == self@.substituted(var@, replacement@),
        decreases self,
    {
        match self {
            Expr::Var(s) => {
                if *s == *var {
                    replacement.deep_copy()
                } else {
                    Expr::Var(s.clone())
                }
            },
            Expr::Num(n) => Expr::Num(*n),
            Expr::Add(l, r) => Expr::Add(
                Box::new(l.substitute_name(var, replacement)),
                Box::new(r.substitute_name(var, replacement)),
            ),
            Expr::Mul(l, r) => Expr::Mul(
                Box::new(l.substitute_name(var, replacement)),
                Box::new(r.substitute_name(var, replacement)),
            ),
            Expr::Pow(l, r) => Expr::Pow(
                Box::new(l.substitute_name(var, replacement)),
                Box::new(r.substitute_name(var, replacement)),
            ),
            Expr::Neg(x) => Expr::Neg(Box::new(x.substitute_name(var, replacement))),
            Expr::Sin(x) => Expr::Sin(Box::new(x.substitute_name(var, replacement))),
            Expr::Cos(x) => Expr::Cos(Box::new(x.substitute_name(var, replacement))),
            Expr::Ln(x) => Expr::Ln(Box::new(x.substitute_name(var, replacement))),
        }
    }
}

/// Equality of trees as `==` on [`Expr`] decides it: the same shape and names,
/// with numbers compared as `f64` compares them (a NaN equals nothing, `0.0`
/// equals `-0.0`).
pub open spec fn equal_trees(a: SpecExpr, b: SpecExpr) -> bool
    decreases a,
{
    match a {
        SpecExpr::Num(x) => b matches SpecExpr::Num(y) && float_eq(x, y),
        SpecExpr::Var(x) => b matches SpecExpr::Var(y) && x == y,
        SpecExpr::Add(l1, r1) => b matches SpecExpr::Add(l2, r2) && equal_trees(*l1, *l2) && equal_trees(*r1, *r2),
        SpecExpr::Mul(l1, r1) => b matches SpecExpr::Mul(l2, r2) && equal_trees(*l1, *l2) && equal_trees(*r1, *r2),
        SpecExpr::Pow(l1, r1) => b matches SpecExpr::Pow(l2, r2) && equal_trees(*l1, *l2) && equal_trees(*r1, *r2),
        SpecExpr::Ln(x1) => b matches SpecExpr::Ln(x2) && equal_trees(*x1, *x2),
        SpecExpr::Neg(x1) => b matches SpecExpr::Neg(x2) && equal_trees(*x1, *x2),
        SpecExpr::Sin(x1) => b matches SpecExpr::Sin(x2) && equal_trees(*x1, *x2),
        SpecExpr::Cos(x1) => b matches SpecExpr::Cos(x2) && equal_trees(*x1, *x2),
    }
}

/// No number of the tree is a NaN.
pub open spec fn nan_free(e: SpecExpr) -> bool
    decreases e,
{
    match e {
        SpecExpr::Num(n) => !is_nan(n),
        SpecExpr::Var(_) => true,
        SpecExpr::Add(l, r) | SpecExpr::Mul(l, r) | SpecExpr::Pow(l, r) => nan_free(*l) && nan_free(*r),
        SpecExpr::Ln(x) | SpecExpr::Neg(x) | SpecExpr::Sin(x) | SpecExpr::Cos(x) => nan_free(*x),
    }
}

/// The tree with every zero made `+0.0`.
pub open spec fn zero_sign_erased(e: SpecExpr) -> SpecExpr
    decreases e,
{
    match e {
        SpecExpr::Num(n) => SpecExpr::Num(if is_zero(n) { ZERO } else { n }),
        SpecExpr::Var(_) => e,
        SpecExpr::Add(l, r) => SpecExpr::plus(zero_sign_erased(*l), zero_sign_erased(*r)),
        SpecExpr::Mul(l, r) => SpecExpr::times(zero_sign_erased(*l), zero_sign_erased(*r)),
        SpecExpr::Pow(l, r) => SpecExpr::power(zero_sign_erased(*l), zero_sign_erased(*r)),
        SpecExpr::Ln(x) => SpecExpr::log(zero_sign_erased(*x)),
        SpecExpr::Neg(x) => SpecExpr::negate(zero_sign_erased(*x)),
        SpecExpr::Sin(x) => SpecExpr::sine(zero_sign_erased(*x)),
        SpecExpr::Cos(x) => SpecExpr::cosine(zero_sign_erased(*x)),
    }
}

/// `==` on trees without a NaN is sameness of the trees up to the sign of each
/// zero: the same shape, the same variable names, the same numbers.
pub proof fn law_equality_is_sameness(a: SpecExpr, b: SpecExpr)
    requires
        nan_free(a),
        nan_free(b),
    ensures
        equal_trees(a, b) <==> zero_sign_erased(a) == zero_sign_erased(b),
    decreases a,
{
    match (a, b) {
        (SpecExpr::Add(l1, r1), SpecExpr::Add(l2, r2)) | (SpecExpr::Mul(l1, r1), SpecExpr::Mul(l2, r2))
        | (SpecExpr::Pow(l1, r1), SpecExpr::Pow(l2, r2)) => {
            law_equality_is_sameness(*l1, *l2);
            law_equality_is_sameness(*r1, *r2);
        },
        (SpecExpr::Ln(x1), SpecExpr::Ln(x2)) | (SpecExpr::Neg(x1), SpecExpr::Neg(x2))
        | (SpecExpr::Sin(x1), SpecExpr::Sin(x2)) | (SpecExpr::Cos(x1), SpecExpr::Cos(x2)) => {
            law_equality_is_sameness(*x1, *x2);
        },
        _ => {},
    }
}

/// Equal trees hold the same variables.
pub proof fn law_equal_trees_mention_the_same_variables(a: SpecExpr, b: SpecExpr, v: Seq<char>)
    requires
        equal_trees(a, b),
    ensures
        a.mentions(v) == b.mentions(v),
    decreases a,
{
    match (a, b) {
        (SpecExpr::Add(l1, r1), SpecExpr::Add(l2, r2)) | (SpecExpr::Mul(l1, r1), SpecExpr::Mul(l2, r2))
        | (SpecExpr::Pow(l1, r1), SpecExpr::Pow(l2, r2)) => {
            law_equal_trees_mention_the_same_variables(*l1, *l2, v);
            law_equal_trees_mention_the_same_variables(*r1, *r2, v);
        },
        (SpecExpr::Ln(x1), SpecExpr::Ln(x2)) | (SpecExpr::Neg(x1), SpecExpr::Neg(x2))
        | (SpecExpr::Sin(x1), SpecExpr::Sin(x2)) | (SpecExpr::Cos(x1), SpecExpr::Cos(x2)) => {
            law_equal_trees_mention_the_same_variables(*x1, *x2, v);
        },
        _ => {},
    }
}

impl Expr {
    fn equal_to(&self, other: &Expr) -> (r: bool)
        ensures
            r == equal_trees(self@, other@),
        decreases self,
    {
        match (self, other) {
            (Expr::Num(a), Expr::Num(b)) => bits_float_eq(*a, *b),
            (Expr::Var(a), Expr::Var(b)) => *a == *b,
            (Expr::Add(l1, r1), Expr::Add(l2, r2)) => l1.equal_to(l2) && r1.equal_to(r2),
            (Expr::Mul(l1, r1), Expr::Mul(l2, r2)) => l1.equal_to(l2) && r1.equal_to(r2),
            (Expr::Pow(l1, r1), Expr::Pow(l2, r2)) => l1.equal_to(l2) && r1.equal_to(r2),
            (Expr::Ln(a), Expr::Ln(b)) => a.equal_to(b),
            (Expr::Neg(a), Expr::Neg(b)) => a.equal_to(b),
            (Expr::Sin(a), Expr::Sin(b)) => a.equal_to(b),
            (Expr::Cos(a), Expr::Cos(b)) => a.equal_to(b),
            _ => false,
        }
    }
}

impl PartialEq for Expr {
    fn eq(&self, other: &Expr) -> (r: bool) {
        self.equal_to(other)
    }
}

impl PartialEqSpecImpl for Expr {
    open spec fn obeys_eq_spec() -> bool {
        true
    }

    open spec fn eq_spec(&self, other: &Expr) -> bool {
        equal_trees(self@, other@)
    }
}

} // verus!
