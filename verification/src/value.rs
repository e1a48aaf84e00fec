//! Simplification keeps the value of an expression.
//!
//! Over a table whose answers obey the IEEE-754 identities that the rewrite
//! rules rely on (as a table of `f64` answers does), a pass of simplification,
//! and simplification to its fixed point, give a tree whose value equals the
//! value of the tree they were given, up to the sign of a zero, wherever every
//! subexpression has a finite value and every cancellation `(a * b) * b^(-1) = a`
//! on the way is exact on the values at hand. The derivative in a variable that
//! an expression does not hold simplifies to zero.

use vstd::prelude::*;
use crate::ast::SpecExpr;
use crate::eval::SpecEvalError;
use crate::floats::{
    EXPONENT_BITS, NEG_ONE, ONE, ZERO, SpecQuery, SpecTable, float_eq, is_nan, is_one, is_zero, negated,
};
use crate::simplify::{lemma_simplify_once_shrinks, reduce_add, reduce_mul, reduce_pow, reduce_neg};

verus! {

/// The number is finite: its exponent field is not all ones (no infinity, no NaN).
pub open spec fn finite(b: u64) -> bool {
    b & EXPONENT_BITS != EXPONENT_BITS
}

/// The value of an expression that evaluates to one.
pub open spec fn value_of(e: SpecExpr, env: Map<Seq<char>, u64>, t: SpecTable) -> u64 {
    e.evaluated(env, t)->Ok_0->Ok_0
}

/// `e` and every subexpression of it evaluate to a finite value.
pub open spec fn finite_throughout(e: SpecExpr, env: Map<Seq<char>, u64>, t: SpecTable) -> bool
    decreases e,
{
    &&& e.evaluated(env, t) is Ok
    &&& e.evaluated(env, t)->Ok_0 is Ok
    &&& finite(value_of(e, env, t))
    &&& match e {
        SpecExpr::Add(l, r) | SpecExpr::Mul(l, r) | SpecExpr::Pow(l, r) => finite_throughout(*l, env, t)
            && finite_throughout(*r, env, t),
        SpecExpr::Ln(x) | SpecExpr::Neg(x) | SpecExpr::Sin(x) | SpecExpr::Cos(x) => finite_throughout(*x, env, t),
        _ => true,
    }
}

/// The table answers every arithmetic query.
pub open spec fn answers_arithmetic(t: SpecTable) -> bool {
    &&& forall|x: u64, y: u64| #[trigger] t.values.contains_key(SpecQuery::Add(x, y))
    &&& forall|x: u64, y: u64| #[trigger] t.values.contains_key(SpecQuery::Mul(x, y))
    &&& forall|x: u64, y: u64| #[trigger] t.values.contains_key(SpecQuery::Pow(x, y))
    &&& forall|x: u64| #[trigger] t.values.contains_key(SpecQuery::Ln(x))
    &&& forall|x: u64| #[trigger] t.values.contains_key(SpecQuery::Sin(x))
    &&& forall|x: u64| #[trigger] t.values.contains_key(SpecQuery::Cos(x))
}

/// A finite answer does not change, beyond the sign of a zero, when an operand
/// is replaced by one that compares equal to it (a zero of the other sign).
pub open spec fn zero_sign_blind(t: SpecTable) -> bool {
    &&& forall|x1: u64, y1: u64, x2: u64, y2: u64|
        #![trigger t.values[SpecQuery::Add(x1, y1)], t.values[SpecQuery::Add(x2, y2)]]
        float_eq(x1, x2) && float_eq(y1, y2) && finite(t.values[SpecQuery::Add(x1, y1)])
            ==> float_eq(t.values[SpecQuery::Add(x2, y2)], t.values[SpecQuery::Add(x1, y1)])
    &&& forall|x1: u64, y1: u64, x2: u64, y2: u64|
        #![trigger t.values[SpecQuery::Mul(x1, y1)], t.values[SpecQuery::Mul(x2, y2)]]
        float_eq(x1, x2) && float_eq(y1, y2) && finite(t.values[SpecQuery::Mul(x1, y1)])
            ==> float_eq(t.values[SpecQuery::Mul(x2, y2)], t.values[SpecQuery::Mul(x1, y1)])
    &&& forall|x1: u64, y1: u64, x2: u64, y2: u64|
        #![trigger t.values[SpecQuery::Pow(x1, y1)], t.values[SpecQuery::Pow(x2, y2)]]
        float_eq(x1, x2) && float_eq(y1, y2) && finite(t.values[SpecQuery::Pow(x1, y1)])
            ==> float_eq(t.values[SpecQuery::Pow(x2, y2)], t.values[SpecQuery::Pow(x1, y1)])
    &&& forall|x1: u64, x2: u64| #![trigger t.values[SpecQuery::Ln(x1)], t.values[SpecQuery::Ln(x2)]]
        float_eq(x1, x2) && finite(t.values[SpecQuery::Ln(x1)]) ==> float_eq(t.values[SpecQuery::Ln(x2)], t.values[SpecQuery::Ln(x1)])
    &&& forall|x1: u64, x2: u64| #![trigger t.values[SpecQuery::Sin(x1)], t.values[SpecQuery::Sin(x2)]]
        float_eq(x1, x2) && finite(t.values[SpecQuery::Sin(x1)]) ==> float_eq(t.values[SpecQuery::Sin(x2)], t.values[SpecQuery::Sin(x1)])
    &&& forall|x1: u64, x2: u64| #![trigger t.values[SpecQuery::Cos(x1)], t.values[SpecQuery::Cos(x2)]]
        float_eq(x1, x2) && finite(t.values[SpecQuery::Cos(x1)]) ==> float_eq(t.values[SpecQuery::Cos(x2)], t.values[SpecQuery::Cos(x1)])
}

/// The identities behind the neutral-element and annihilation rules, as
/// IEEE-754 gives them: for finite `x` and a zero `z`, `x + z` and `z + x` equal
/// `x`, `x * 1` and `1 * x` are `x`, `x * z` and `z * x` are zeros, `x ^ 1` is
/// `x`; for any `x`, `x ^ z` and `1 ^ x` are `1`; `ln(1)` is a zero.
pub open spec fn obeys_identities(t: SpecTable) -> bool {
    &&& forall|x: u64, z: u64| #[trigger] t.values[SpecQuery::Add(x, z)] == t.values[SpecQuery::Add(x, z)]
        && finite(x) && is_zero(z) ==> float_eq(t.values[SpecQuery::Add(x, z)], x)
    &&& forall|z: u64, x: u64| #[trigger] t.values[SpecQuery::Add(z, x)] == t.values[SpecQuery::Add(z, x)]
        && finite(x) && is_zero(z) ==> float_eq(t.values[SpecQuery::Add(z, x)], x)
    &&& forall|x: u64| finite(x) ==> #[trigger] t.values[SpecQuery::Mul(x, ONE)] == x
    &&& forall|x: u64| finite(x) ==> #[trigger] t.values[SpecQuery::Mul(ONE, x)] == x
    &&& forall|x: u64, z: u64| finite(x) && is_zero(z) ==> is_zero(#[trigger] t.values[SpecQuery::Mul(x, z)])
    &&& forall|z: u64, x: u64| finite(x) && is_zero(z) ==> is_zero(#[trigger] t.values[SpecQuery::Mul(z, x)])
    &&& forall|x: u64| finite(x) ==> #[trigger] t.values[SpecQuery::Pow(x, ONE)] == x
    &&& forall|x: u64, z: u64| is_zero(z) ==> #[trigger] t.values[SpecQuery::Pow(x, z)] == ONE
    &&& forall|x: u64| #[trigger] t.values[SpecQuery::Pow(ONE, x)] == ONE
    &&& is_zero(t.values[SpecQuery::Ln(ONE)])
}

/// The cancellation rule applies to `a * b`, the simplified operands of a product:
/// `a` is `p * q` and `b` is `q^(-1)`.
pub open spec fn cancellation_applies(a: SpecExpr, b: SpecExpr) -> bool {
    a is Mul && b == SpecExpr::power(*a->Mul_1, SpecExpr::Num(NEG_ONE))
}

/// Every cancellation that a pass of `e` performs is exact on these values: where
/// a product `l * r` of `e` simplifies to `(p * q) * q^(-1)` and the pass keeps
/// `p`, the value of `l * r` is the value of `p`, up to the sign of a zero.
/// (Binary64 arithmetic does not always give this: `(y * x) / x` with `y = 1`
/// and `x = 49` is `0.9999999999999999`, where `y` is `1`.)
pub open spec fn pass_cancels_exactly(e: SpecExpr, env: Map<Seq<char>, u64>, t: SpecTable) -> bool
    decreases e,
{
    match e {
        SpecExpr::Mul(l, r) => {
            &&& pass_cancels_exactly(*l, env, t)
            &&& pass_cancels_exactly(*r, env, t)
            &&& (l.simplify_once(t) is Ok && r.simplify_once(t) is Ok && cancellation_applies(
                l.simplify_once(t)->Ok_0,
                r.simplify_once(t)->Ok_0,
            )) ==> float_eq(value_of(e, env, t), value_of(*l.simplify_once(t)->Ok_0->Mul_0, env, t))
        },
        SpecExpr::Add(l, r) | SpecExpr::Pow(l, r) => pass_cancels_exactly(*l, env, t) && pass_cancels_exactly(*r, env, t),
        SpecExpr::Ln(x) | SpecExpr::Neg(x) | SpecExpr::Sin(x) | SpecExpr::Cos(x) => pass_cancels_exactly(*x, env, t),
        _ => true,
    }
}

/// Every pass on the way from `e` to its fixed point cancels exactly.
pub open spec fn passes_cancel_exactly(e: SpecExpr, env: Map<Seq<char>, u64>, t: SpecTable) -> bool
    decreases e.size(),
{
    &&& pass_cancels_exactly(e, env, t)
    &&& match e.simplify_once(t) {
        Err(_) => true,
        Ok(n) => if n == e {
            true
        } else {
            proof {
                lemma_simplify_once_shrinks(e, t);
            }
            passes_cancel_exactly(n, env, t)
        },
    }
}

/// A table that answers every arithmetic query and whose answers obey the
/// identities that the rewrite rules other than cancellation rely on. A table
/// of the answers that `f64` gives meets all three.
pub open spec fn sound_for_rewriting(t: SpecTable) -> bool {
    &&& answers_arithmetic(t)
    &&& zero_sign_blind(t)
    &&& obeys_identities(t)
}

proof fn lemma_bits(a: u64)
    ensures
        negated(negated(a)) == a,
        is_zero(a) ==> finite(a) && is_zero(negated(a)),
        finite(a) ==> !is_nan(a) && finite(negated(a)),
        is_nan(a) == is_nan(negated(a)),
        finite(ONE) && finite(ZERO) && !is_zero(ONE) && is_zero(ZERO),
{
    assert((a ^ 0x8000_0000_0000_0000u64) ^ 0x8000_0000_0000_0000u64 == a) by (bit_vector);
    assert((a == 0u64 || a == 0x8000_0000_0000_0000u64) ==> (a & 0x7FF0_0000_0000_0000u64
        != 0x7FF0_0000_0000_0000u64) && ((a ^ 0x8000_0000_0000_0000u64) == 0u64 || (a
        ^ 0x8000_0000_0000_0000u64) == 0x8000_0000_0000_0000u64)) by (bit_vector);
    assert((a & 0x7FF0_0000_0000_0000u64 != 0x7FF0_0000_0000_0000u64) ==> ((a ^ 0x8000_0000_0000_0000u64)
        & 0x7FF0_0000_0000_0000u64 != 0x7FF0_0000_0000_0000u64)) by (bit_vector);
    assert(((a ^ 0x8000_0000_0000_0000u64) & 0x7FF0_0000_0000_0000u64 == 0x7FF0_0000_0000_0000u64 && (a
        ^ 0x8000_0000_0000_0000u64) & 0x000F_FFFF_FFFF_FFFFu64 != 0u64) == (a & 0x7FF0_0000_0000_0000u64
        == 0x7FF0_0000_0000_0000u64 && a & 0x000F_FFFF_FFFF_FFFFu64 != 0u64)) by (bit_vector);
    assert(0x3FF0_0000_0000_0000u64 & 0x7FF0_0000_0000_0000u64 != 0x7FF0_0000_0000_0000u64) by (bit_vector);
    assert(0u64 & 0x7FF0_0000_0000_0000u64 != 0x7FF0_0000_0000_0000u64) by (bit_vector);
}

/// A pass of `e` succeeds and gives a tree that is finite throughout, with the
/// value of `e` up to the sign of a zero.
pub open spec fn pass_keeps_value(e: SpecExpr, env: Map<Seq<char>, u64>, t: SpecTable) -> bool {
    &&& e.simplify_once(t) is Ok
    &&& finite_throughout(e.simplify_once(t)->Ok_0, env, t)
    &&& float_eq(value_of(e.simplify_once(t)->Ok_0, env, t), value_of(e, env, t))
}

proof fn lemma_close(a: u64, b: u64, c: u64)
    ensures
        finite(a) ==> float_eq(a, a),
        float_eq(a, b) ==> float_eq(b, a),
        float_eq(a, b) && float_eq(b, c) ==> float_eq(a, c),
        float_eq(a, b) && finite(a) ==> finite(b),
        float_eq(a, b) && is_zero(a) ==> is_zero(b),
        float_eq(a, b) ==> float_eq(negated(a), negated(b)),
{
    lemma_bits(a);
    lemma_bits(b);
    lemma_bits(c);
}

proof fn lemma_add_case(l: SpecExpr, r: SpecExpr, env: Map<Seq<char>, u64>, t: SpecTable)
    requires
        sound_for_rewriting(t),
        finite_throughout(SpecExpr::plus(l, r), env, t),
        pass_keeps_value(l, env, t),
        pass_keeps_value(r, env, t),
    ensures
        pass_keeps_value(SpecExpr::plus(l, r), env, t),
{
    let e = SpecExpr::plus(l, r);
    let a = l.simplify_once(t)->Ok_0;
    let b = r.simplify_once(t)->Ok_0;
    let (vl, vr, va, vb) = (value_of(l, env, t), value_of(r, env, t), value_of(a, env, t), value_of(b, env, t));
    let v = value_of(e, env, t);
    assert(v == t.values[SpecQuery::Add(vl, vr)]);
    lemma_close(va, vl, v);
    lemma_close(vb, vr, v);
    let n = reduce_add(a, b, t)->Ok_0;
    if a is Num && b is Num {
        let c = t.values[SpecQuery::Add(va, vb)];
        assert(n == SpecExpr::Num(c));
        lemma_close(c, v, v);
        lemma_close(v, c, v);
    } else if b is Num && is_zero(vb) {
        assert(n == a);
        assert(float_eq(t.values[SpecQuery::Add(vl, vr)], vl));
        lemma_close(va, vl, v);
    } else if a is Num && is_zero(va) {
        assert(n == b);
        assert(float_eq(t.values[SpecQuery::Add(vl, vr)], vr));
        lemma_close(vb, vr, v);
    } else {
        assert(n == SpecExpr::plus(a, b));
        let w = t.values[SpecQuery::Add(va, vb)];
        assert(value_of(n, env, t) == w);
        lemma_close(w, v, v);
        lemma_close(v, w, v);
    }
}

proof fn lemma_mul_case(l: SpecExpr, r: SpecExpr, env: Map<Seq<char>, u64>, t: SpecTable)
    requires
        sound_for_rewriting(t),
        finite_throughout(SpecExpr::times(l, r), env, t),
        pass_cancels_exactly(SpecExpr::times(l, r), env, t),
        pass_keeps_value(l, env, t),
        pass_keeps_value(r, env, t),
    ensures
        pass_keeps_value(SpecExpr::times(l, r), env, t),
{
    let e = SpecExpr::times(l, r);
    let a = l.simplify_once(t)->Ok_0;
    let b = r.simplify_once(t)->Ok_0;
    let (vl, vr, va, vb) = (value_of(l, env, t), value_of(r, env, t), value_of(a, env, t), value_of(b, env, t));
    let v = value_of(e, env, t);
    assert(v == t.values[SpecQuery::Mul(vl, vr)]);
    lemma_close(va, vl, v);
    lemma_close(vb, vr, v);
    lemma_bits(v);
    let n = reduce_mul(a, b, t)->Ok_0;
    if a is Num && b is Num {
        let c = t.values[SpecQuery::Mul(va, vb)];
        assert(n == SpecExpr::Num(c));
        lemma_close(c, v, v);
        lemma_close(v, c, v);
    } else if (b is Num && is_zero(vb)) || (a is Num && is_zero(va)) {
        assert(n == SpecExpr::Num(ZERO));
        assert(is_zero(v));
    } else if b is Num && vb == ONE {
        assert(n == a);
        assert(t.values[SpecQuery::Mul(vl, ONE)] == vl);
    } else if a is Num && va == ONE {
        assert(n == b);
        assert(t.values[SpecQuery::Mul(ONE, vr)] == vr);
    } else if a is Mul && b == SpecExpr::power(*a->Mul_1, SpecExpr::Num(NEG_ONE)) {
        let p = *a->Mul_0;
        let q = *a->Mul_1;
        assert(n == p);
        let (vp, vq) = (value_of(p, env, t), value_of(q, env, t));
        assert(finite_throughout(p, env, t) && finite_throughout(q, env, t));
        assert(va == t.values[SpecQuery::Mul(vp, vq)]);
        assert(t.values.contains_key(SpecQuery::Pow(vq, NEG_ONE)));
        assert(SpecExpr::Num(NEG_ONE).evaluated(env, t) == Ok::<Result<u64, SpecEvalError>, SpecQuery>(Ok(NEG_ONE)));
        assert(b.evaluated(env, t) == Ok::<Result<u64, SpecEvalError>, SpecQuery>(Ok(t.values[SpecQuery::Pow(vq, NEG_ONE)])));
        assert(vb == t.values[SpecQuery::Pow(vq, NEG_ONE)]);
        assert(cancellation_applies(a, b));
        assert(float_eq(v, vp));
        lemma_close(v, vp, v);
    } else {
        assert(n == SpecExpr::times(a, b));
        let w = t.values[SpecQuery::Mul(va, vb)];
        assert(value_of(n, env, t) == w);
        lemma_close(w, v, v);
        lemma_close(v, w, v);
    }
}

proof fn lemma_pow_case(l: SpecExpr, r: SpecExpr, env: Map<Seq<char>, u64>, t: SpecTable)
    requires
        sound_for_rewriting(t),
        finite_throughout(SpecExpr::power(l, r), env, t),
        pass_keeps_value(l, env, t),
        pass_keeps_value(r, env, t),
    ensures
        pass_keeps_value(SpecExpr::power(l, r), env, t),
{
    let e = SpecExpr::power(l, r);
    let a = l.simplify_once(t)->Ok_0;
    let b = r.simplify_once(t)->Ok_0;
    let (vl, vr, va, vb) = (value_of(l, env, t), value_of(r, env, t), value_of(a, env, t), value_of(b, env, t));
    let v = value_of(e, env, t);
    assert(v == t.values[SpecQuery::Pow(vl, vr)]);
    lemma_close(va, vl, v);
    lemma_close(vb, vr, v);
    lemma_bits(v);
    let n = reduce_pow(a, b, t)->Ok_0;
    if b is Num && is_zero(vb) {
        assert(n == SpecExpr::Num(ONE));
        assert(v == ONE);
    } else if b is Num && vb == ONE {
        assert(n == a);
        assert(t.values[SpecQuery::Pow(vl, ONE)] == vl);
    } else if a is Num && va == ONE {
        assert(n == SpecExpr::Num(ONE));
        assert(t.values[SpecQuery::Pow(ONE, vr)] == ONE);
    } else if a is Num && b is Num {
        let c = t.values[SpecQuery::Pow(va, vb)];
        assert(n == SpecExpr::Num(c));
        lemma_close(c, v, v);
        lemma_close(v, c, v);
    } else {
        assert(n == SpecExpr::power(a, b));
        let w = t.values[SpecQuery::Pow(va, vb)];
        assert(value_of(n, env, t) == w);
        lemma_close(w, v, v);
        lemma_close(v, w, v);
    }
}

proof fn lemma_unary_case(e: SpecExpr, x: SpecExpr, env: Map<Seq<char>, u64>, t: SpecTable)
    requires
        sound_for_rewriting(t),
        e == SpecExpr::log(x) || e == SpecExpr::sine(x) || e == SpecExpr::cosine(x) || e == SpecExpr::negate(x),
        finite_throughout(e, env, t),
        pass_keeps_value(x, env, t),
    ensures
        pass_keeps_value(e, env, t),
{
    let a = x.simplify_once(t)->Ok_0;
    let (vx, va) = (value_of(x, env, t), value_of(a, env, t));
    let v = value_of(e, env, t);
    lemma_close(va, vx, v);
    lemma_bits(v);
    lemma_bits(vx);
    lemma_bits(va);
    if e == SpecExpr::log(x) {
        assert(v == t.values[SpecQuery::Ln(vx)]);
        if a is Num && va == ONE {
            assert(e.simplify_once(t)->Ok_0 == SpecExpr::Num(ZERO));
            assert(is_zero(t.values[SpecQuery::Ln(ONE)]));
        } else {
            let w = t.values[SpecQuery::Ln(va)];
            assert(value_of(SpecExpr::log(a), env, t) == w);
            lemma_close(w, v, v);
            lemma_close(v, w, v);
        }
    } else if e == SpecExpr::sine(x) {
        assert(v == t.values[SpecQuery::Sin(vx)]);
        let w = t.values[SpecQuery::Sin(va)];
        assert(value_of(SpecExpr::sine(a), env, t) == w);
        lemma_close(w, v, v);
        lemma_close(v, w, v);
    } else if e == SpecExpr::cosine(x) {
        assert(v == t.values[SpecQuery::Cos(vx)]);
        let w = t.values[SpecQuery::Cos(va)];
        assert(value_of(SpecExpr::cosine(a), env, t) == w);
        lemma_close(w, v, v);
        lemma_close(v, w, v);
    } else {
        assert(v == negated(vx));
        let n = reduce_neg(a);
        match a {
            SpecExpr::Neg(inner) => {
                assert(n == *inner);
                assert(finite_throughout(*inner, env, t));
                let vi = value_of(*inner, env, t);
                assert(va == negated(vi));
                lemma_bits(vi);
                lemma_close(negated(va), v, v);
            },
            SpecExpr::Num(m) => {
                lemma_bits(m);
                if is_zero(m) {
                    assert(n == SpecExpr::Num(ZERO));
                } else {
                    assert(n == SpecExpr::Num(negated(m)));
                    lemma_close(negated(m), v, v);
                    lemma_close(negated(va), negated(vx), v);
                }
            },
            _ => {
                assert(n == SpecExpr::negate(a));
                lemma_close(negated(va), negated(vx), v);
            },
        }
    }
}

/// A pass of simplification keeps the value: where every subexpression of `e`
/// evaluates to a finite value, the table answers as `f64` does in the ways the
/// rewrite rules rely on, and each cancellation the pass performs is exact, the
/// pass succeeds and its result evaluates, finite throughout, to the value of
/// `e`, up to the sign of a zero.
pub proof fn law_simplify_once_keeps_value(e: SpecExpr, env: Map<Seq<char>, u64>, t: SpecTable)
    requires
        sound_for_rewriting(t),
        finite_throughout(e, env, t),
        pass_cancels_exactly(e, env, t),
    ensures
        pass_keeps_value(e, env, t),
    decreases e,
{
    lemma_bits(value_of(e, env, t));
    match e {
        SpecExpr::Add(l, r) => {
            law_simplify_once_keeps_value(*l, env, t);
            law_simplify_once_keeps_value(*r, env, t);
            lemma_add_case(*l, *r, env, t);
        },
        SpecExpr::Mul(l, r) => {
            assert(pass_cancels_exactly(*l, env, t) && pass_cancels_exactly(*r, env, t));
            law_simplify_once_keeps_value(*l, env, t);
            law_simplify_once_keeps_value(*r, env, t);
            lemma_mul_case(*l, *r, env, t);
        },
        SpecExpr::Pow(l, r) => {
            law_simplify_once_keeps_value(*l, env, t);
            law_simplify_once_keeps_value(*r, env, t);
            lemma_pow_case(*l, *r, env, t);
        },
        SpecExpr::Ln(x) | SpecExpr::Neg(x) | SpecExpr::Sin(x) | SpecExpr::Cos(x) => {
            law_simplify_once_keeps_value(*x, env, t);
            lemma_unary_case(e, *x, env, t);
        },
        _ => {},
    }
}

/// Simplification keeps the value: where every subexpression of `e` evaluates
/// to a finite value, the table answers as `f64` does in the ways the rewrite
/// rules rely on, and each cancellation on the way is exact, simplification
/// succeeds and its result evaluates to the value of `e`, up to the sign of a
/// zero. Where no pass cancels, the last condition holds of itself.
pub proof fn law_simplify_keeps_value(e: SpecExpr, env: Map<Seq<char>, u64>, t: SpecTable)
    requires
        sound_for_rewriting(t),
        finite_throughout(e, env, t),
        passes_cancel_exactly(e, env, t),
    ensures
        e.simplified(t) is Ok,
        e.simplified(t)->Ok_0.evaluated(env, t) is Ok,
        e.simplified(t)->Ok_0.evaluated(env, t)->Ok_0 is Ok,
        float_eq(value_of(e.simplified(t)->Ok_0, env, t), value_of(e, env, t)),
    decreases e.size(),
{
    law_simplify_once_keeps_value(e, env, t);
    let n = e.simplify_once(t)->Ok_0;
    lemma_bits(value_of(e, env, t));
    if n != e {
        lemma_simplify_once_shrinks(e, t);
        law_simplify_keeps_value(n, env, t);
        lemma_close(value_of(e.simplified(t)->Ok_0, env, t), value_of(n, env, t), value_of(e, env, t));
    }
}

/// A pass of `l` that gives a number `c` leaves `c^(-1)` finite in the table.
pub open spec fn reciprocal_finite(l: SpecExpr, t: SpecTable) -> bool {
    l.simplify_once(t) matches Ok(SpecExpr::Num(c)) ==> finite(t.values[SpecQuery::Pow(c, NEG_ONE)])
}

/// Every number that a pass of a subexpression of `e` folds to is finite, and so
/// is the reciprocal of every base of a power and argument of a logarithm that
/// a pass folds to a number.
pub open spec fn folds_stay_finite(e: SpecExpr, t: SpecTable) -> bool
    decreases e,
{
    &&& (e.simplify_once(t) matches Ok(SpecExpr::Num(c)) ==> finite(c))
    &&& match e {
        SpecExpr::Pow(l, r) => reciprocal_finite(*l, t) && folds_stay_finite(*l, t) && folds_stay_finite(*r, t),
        SpecExpr::Ln(x) => reciprocal_finite(*x, t) && folds_stay_finite(*x, t),
        SpecExpr::Add(l, r) | SpecExpr::Mul(l, r) => folds_stay_finite(*l, t) && folds_stay_finite(*r, t),
        SpecExpr::Neg(x) | SpecExpr::Sin(x) | SpecExpr::Cos(x) => folds_stay_finite(*x, t),
        _ => true,
    }
}

/// The pass result is a zero number.
pub open spec fn pass_gives_zero(d: SpecExpr, t: SpecTable) -> bool {
    d.simplify_once(t) matches Ok(n) ==> (n is Num && is_zero(n->Num_0))
}

proof fn lemma_zero_times(z: SpecExpr, x: SpecExpr, t: SpecTable)
    requires
        obeys_identities(t),
        pass_gives_zero(z, t),
        x.simplify_once(t) matches Ok(SpecExpr::Num(c)) ==> finite(c),
    ensures
        pass_gives_zero(SpecExpr::times(z, x), t),
        pass_gives_zero(SpecExpr::times(x, z), t),
{
    if let Ok(a) = z.simplify_once(t) {
        if let Ok(b) = x.simplify_once(t) {
            lemma_bits(a->Num_0);
            if let SpecExpr::Num(c) = b {
                assert(is_zero(t.values[SpecQuery::Mul(a->Num_0, c)]));
                assert(is_zero(t.values[SpecQuery::Mul(c, a->Num_0)]));
            }
        }
    }
}

proof fn lemma_zero_plus(z1: SpecExpr, z2: SpecExpr, t: SpecTable)
    requires
        obeys_identities(t),
        pass_gives_zero(z1, t),
        pass_gives_zero(z2, t),
    ensures
        pass_gives_zero(SpecExpr::plus(z1, z2), t),
{
    if let Ok(a) = z1.simplify_once(t) {
        if let Ok(b) = z2.simplify_once(t) {
            lemma_bits(a->Num_0);
            assert(float_eq(t.values[SpecQuery::Add(a->Num_0, b->Num_0)], a->Num_0));
            lemma_close(t.values[SpecQuery::Add(a->Num_0, b->Num_0)], a->Num_0, a->Num_0);
        }
    }
}

proof fn lemma_reciprocal_pass(l: SpecExpr, t: SpecTable)
    requires
        reciprocal_finite(l, t),
    ensures
        SpecExpr::power(l, SpecExpr::Num(NEG_ONE)).simplify_once(t) matches Ok(SpecExpr::Num(c)) ==> finite(c),
{
    lemma_bits(NEG_ONE);
    assert(!is_zero(NEG_ONE) && !is_one(NEG_ONE));
    if let Ok(a) = l.simplify_once(t) {
        assert(SpecExpr::Num(NEG_ONE).simplify_once(t) == Ok::<SpecExpr, SpecQuery>(SpecExpr::Num(NEG_ONE)));
        if a is Num && a->Num_0 == ONE {
        } else if let SpecExpr::Num(c) = a {
            assert(finite(t.values[SpecQuery::Pow(c, NEG_ONE)]));
        }
    }
}

/// The derivative in a variable that the expression does not hold simplifies in
/// one pass to a zero, and so does simplification: wherever the table answers
/// `+`, `*` and `^` as `f64` does (the identities of [`obeys_identities`]) and
/// every number that a pass folds to, and every reciprocal of a base or of the
/// argument of a logarithm, is finite. (Where a base folds to zero, as in the
/// derivative of `0^y` in `x`, the reciprocal is infinite and the result is not
/// a number.)
pub proof fn law_derivative_of_absent_variable(e: SpecExpr, v: Seq<char>, t: SpecTable)
    requires
        !e.mentions(v),
        obeys_identities(t),
        folds_stay_finite(e, t),
    ensures
        pass_gives_zero(e.derivative(v), t),
        e.derivative(v).simplified(t) matches Ok(n) ==> (n is Num && is_zero(n->Num_0)),
    decreases e,
{
    lemma_bits(ZERO);
    match e {
        SpecExpr::Add(l, r) => {
            law_derivative_of_absent_variable(*l, v, t);
            law_derivative_of_absent_variable(*r, v, t);
            lemma_zero_plus(l.derivative(v), r.derivative(v), t);
        },
        SpecExpr::Mul(l, r) => {
            assert(folds_stay_finite(*l, t) && folds_stay_finite(*r, t));
            law_derivative_of_absent_variable(*l, v, t);
            law_derivative_of_absent_variable(*r, v, t);
            lemma_zero_times(l.derivative(v), *r, t);
            lemma_zero_times(r.derivative(v), *l, t);
            lemma_zero_plus(SpecExpr::times(l.derivative(v), *r), SpecExpr::times(*l, r.derivative(v)), t);
        },
        SpecExpr::Pow(l, r) => {
            assert(folds_stay_finite(*l, t) && folds_stay_finite(*r, t) && reciprocal_finite(*l, t));
            law_derivative_of_absent_variable(*l, v, t);
            law_derivative_of_absent_variable(*r, v, t);
            let lg = SpecExpr::log(*l);
            assert(lg.simplify_once(t) matches Ok(SpecExpr::Num(c)) ==> finite(c)) by {
                lemma_bits(ZERO);
            }
            lemma_zero_times(r.derivative(v), lg, t);
            lemma_zero_times(l.derivative(v), *r, t);
            let rl = SpecExpr::times(*r, l.derivative(v));
            let rec = SpecExpr::power(*l, SpecExpr::Num(NEG_ONE));
            lemma_reciprocal_pass(*l, t);
            lemma_zero_times(rl, rec, t);
            let inner = SpecExpr::plus(SpecExpr::times(r.derivative(v), lg), SpecExpr::times(rl, rec));
            lemma_zero_plus(SpecExpr::times(r.derivative(v), lg), SpecExpr::times(rl, rec), t);
            lemma_zero_times(inner, SpecExpr::power(*l, *r), t);
        },
        SpecExpr::Ln(x) => {
            assert(folds_stay_finite(*x, t) && reciprocal_finite(*x, t));
            law_derivative_of_absent_variable(*x, v, t);
            lemma_reciprocal_pass(*x, t);
            lemma_zero_times(x.derivative(v), SpecExpr::power(*x, SpecExpr::Num(NEG_ONE)), t);
        },
        SpecExpr::Neg(x) => {
            law_derivative_of_absent_variable(*x, v, t);
        },
        SpecExpr::Sin(x) => {
            law_derivative_of_absent_variable(*x, v, t);
            lemma_zero_times(x.derivative(v), SpecExpr::cosine(*x), t);
        },
        SpecExpr::Cos(x) => {
            law_derivative_of_absent_variable(*x, v, t);
            lemma_zero_times(x.derivative(v), SpecExpr::sine(*x), t);
        },
        _ => {},
    }
    let d = e.derivative(v);
    if let Ok(n) = d.simplify_once(t) {
        if n != d {
            lemma_simplify_once_shrinks(d, t);
            assert(n.simplify_once(t) == Ok::<SpecExpr, SpecQuery>(n));
            assert(n.simplified(t) == Ok::<SpecExpr, SpecQuery>(n));
        }
    }
}

} // verus!
