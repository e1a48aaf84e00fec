//! Arithmetic operators on expressions, for building trees with `+ - * /` and
//! unary `-`, on owned expressions and on references (which copy the operands).
//! Subtraction and division are composed from the other nodes: `a - b` is
//! `a + (-b)` and `a / b` is `a * b^(-1)`.

use vstd::prelude::*;
use vstd::std_specs::ops::{AddSpecImpl, DivSpecImpl, MulSpecImpl, NegSpecImpl, SubSpecImpl};
use core::ops::{Add, Div, Mul, Neg, Sub};
use crate::ast::{Expr, SpecExpr};
use crate::floats::NEG_ONE;

verus! {

impl Add for Expr {
    type Output = Expr;

    fn add(self, rhs: Expr) -> (r: Expr)
        ensures
            r@ == SpecExpr::plus(self@, rhs@),
    {
        Expr::Add(Box::new(self), Box::new(rhs))
    }
}

impl AddSpecImpl for Expr {
    open spec fn obeys_add_spec() -> bool {
        true
    }

    open spec fn add_req(self, rhs: Expr) -> bool {
        true
    }

    open spec fn add_spec(self, rhs: Expr) -> Expr {
        Expr::Add(Box::new(self), Box::new(rhs))
    }
}

impl Mul for Expr {
    type Output = Expr;

    fn mul(self, rhs: Expr) -> (r: Expr)
        ensures
            r@ == SpecExpr::times(self@, rhs@),
    {
        Expr::Mul(Box::new(self), Box::new(rhs))
    }
}

impl MulSpecImpl for Expr {
    open spec fn obeys_mul_spec() -> bool {
        true
    }

    open spec fn mul_req(self, rhs: Expr) -> bool {
        true
    }

    open spec fn mul_spec(self, rhs: Expr) -> Expr {
        Expr::Mul(Box::new(self), Box::new(rhs))
    }
}

impl Neg for Expr {
    type Output = Expr;

    fn neg(self) -> (r: Expr)
        ensures
            r@ == SpecExpr::negate(self@),
    {
        Expr::Neg(Box::new(self))
    }
}

impl NegSpecImpl for Expr {
    open spec fn obeys_neg_spec() -> bool {
        true
    }

    open spec fn neg_req(self) -> bool {
        true
    }

    open spec fn neg_spec(self) -> Expr {
        Expr::Neg(Box::new(self))
    }
}

impl Sub for Expr {
    type Output = Expr;

    /// `a - b` is `a + (-b)`.
    fn sub(self, rhs: Expr) -> (r: Expr)
        ensures
            r@ == SpecExpr::plus(self@, SpecExpr::negate(rhs@)),
    {
        self + Expr::Neg(Box::new(rhs))
    }
}

impl SubSpecImpl for Expr {
    open spec fn obeys_sub_spec() -> bool {
        true
    }

    open spec fn sub_req(self, rhs: Expr) -> bool {
        true
    }

    open spec fn sub_spec(self, rhs: Expr) -> Expr {
        Expr::Add(Box::new(self), Box::new(Expr::Neg(Box::new(rhs))))
    }
}

impl Div for Expr {
    type Output = Expr;

    /// `a / b` is `a * b^(-1)`.
    fn div(self, rhs: Expr) -> (r: Expr)
        ensures
            r@ == SpecExpr::times(self@, SpecExpr::power(rhs@, SpecExpr::Num(NEG_ONE))),
    {
        let exponent = Expr::Num(NEG_ONE);
        assert(exponent@ == SpecExpr::Num(NEG_ONE));
        let reciprocal = Expr::Pow(Box::new(rhs), Box::new(exponent));
        assert(reciprocal@ == SpecExpr::power(rhs@, SpecExpr::Num(NEG_ONE)));
        self * reciprocal
    }
}

impl DivSpecImpl for Expr {
    open spec fn obeys_div_spec() -> bool {
        true
    }

    open spec fn div_req(self, rhs: Expr) -> bool {
        true
    }

    open spec fn div_spec(self, rhs: Expr) -> Expr {
        Expr::Mul(Box::new(self), Box::new(Expr::Pow(Box::new(rhs), Box::new(Expr::Num(NEG_ONE)))))
    }
}


impl<'a> Add for &'a Expr {
    type Output = Expr;

    /// Copies both operands.
    fn add(self, rhs: &'a Expr) -> (r: Expr)
        ensures
            r@ == SpecExpr::plus(self@, rhs@),
    {
        self.deep_copy() + rhs.deep_copy()
    }
}

/// The model of the result is stated on `add` itself.
impl<'a> AddSpecImpl for &'a Expr {
    open spec fn obeys_add_spec() -> bool {
        false
    }

    open spec fn add_req(self, rhs: &'a Expr) -> bool {
        true
    }

    open spec fn add_spec(self, rhs: &'a Expr) -> Expr {
        Expr::Add(Box::new(*self), Box::new(*rhs))
    }
}

impl<'a> Mul for &'a Expr {
    type Output = Expr;

    /// Copies both operands.
    fn mul(self, rhs: &'a Expr) -> (r: Expr)
        ensures
            r@ == SpecExpr::times(self@, rhs@),
    {
        self.deep_copy() * rhs.deep_copy()
    }
}

/// The model of the result is stated on `mul` itself.
impl<'a> MulSpecImpl for &'a Expr {
    open spec fn obeys_mul_spec() -> bool {
        false
    }

    open spec fn mul_req(self, rhs: &'a Expr) -> bool {
        true
    }

    open spec fn mul_spec(self, rhs: &'a Expr) -> Expr {
        Expr::Mul(Box::new(*self), Box::new(*rhs))
    }
}

impl<'a> Sub for &'a Expr {
    type Output = Expr;

    /// Copies both operands.
    fn sub(self, rhs: &'a Expr) -> (r: Expr)
        ensures
            r@ == SpecExpr::plus(self@, SpecExpr::negate(rhs@)),
    {
        self.deep_copy() - rhs.deep_copy()
    }
}

/// The model of the result is stated on `sub` itself.
impl<'a> SubSpecImpl for &'a Expr {
    open spec fn obeys_sub_spec() -> bool {
        false
    }

    open spec fn sub_req(self, rhs: &'a Expr) -> bool {
        true
    }

    open spec fn sub_spec(self, rhs: &'a Expr) -> Expr {
        Expr::Add(Box::new(*self), Box::new(Expr::Neg(Box::new(*rhs))))
    }
}

impl<'a> Div for &'a Expr {
    type Output = Expr;

    /// Copies both operands.
    fn div(self, rhs: &'a Expr) -> (r: Expr)
        ensures
            r@ == SpecExpr::times(self@, SpecExpr::power(rhs@, SpecExpr::Num(NEG_ONE))),
    {
        self.deep_copy() / rhs.deep_copy()
    }
}

/// The model of the result is stated on `div` itself.
impl<'a> DivSpecImpl for &'a Expr {
    open spec fn obeys_div_spec() -> bool {
        false
    }

    open spec fn div_req(self, rhs: &'a Expr) -> bool {
        true
    }

    open spec fn div_spec(self, rhs: &'a Expr) -> Expr {
        Expr::Mul(Box::new(*self), Box::new(Expr::Pow(Box::new(*rhs), Box::new(Expr::Num(NEG_ONE)))))
    }
}

impl<'a> Neg for &'a Expr {
    type Output = Expr;

    /// Copies the operand.
    fn neg(self) -> (r: Expr)
        ensures
            r@ == SpecExpr::negate(self@),
    {
        Expr::Neg(Box::new(self.deep_copy()))
    }
}

/// The model of the result is stated on `neg` itself.
impl<'a> NegSpecImpl for &'a Expr {
    open spec fn obeys_neg_spec() -> bool {
        false
    }

    open spec fn neg_req(self) -> bool {
        true
    }

    open spec fn neg_spec(self) -> Expr {
        Expr::Neg(Box::new(*self))
    }
}

} // verus!
