//! Numerical evaluation of an expression, with values bound to its variables.

use vstd::prelude::*;
use crate::assoc::{assoc_map, lemma_assoc_last_of_prefix, lemma_assoc_push, lemma_assoc_suffix_irrelevant};
use crate::ast::{Expr, SpecExpr};
use crate::floats::{FloatQuery, FloatTable, SpecQuery, SpecTable, ask_value, negated, bits_negated, outcome, table_extends};
use crate::text::push_chars;

verus! {

/// Why an expression has no value.
#[derive(Debug)]
pub enum EvalError {
    /// The expression holds a variable that has no value bound.
    UndefinedVariable(String),
    /// A mathematical error; kept for errors such as domain errors, and never
    /// produced by [`Expr::eval`].
    MathError(String),
}

/// The model of an [`EvalError`].
pub enum SpecEvalError {
    UndefinedVariable(Seq<char>),
    MathError(Seq<char>),
}

impl View for EvalError {
    type V = SpecEvalError;

    open spec fn view(&self) -> SpecEvalError {
        match self {
            EvalError::UndefinedVariable(v) => SpecEvalError::UndefinedVariable(v@),
            EvalError::MathError(m) => SpecEvalError::MathError(m@),
        }
    }
}

impl DeepView for EvalError {
    type V = SpecEvalError;

    open spec fn deep_view(&self) -> SpecEvalError {
        self@
    }
}

/// The text of an evaluation error.
pub open spec fn eval_error_message(e: SpecEvalError) -> Seq<char> {
    match e {
        SpecEvalError::UndefinedVariable(v) => "Variable '"@ + v + "' not found"@,
        SpecEvalError::MathError(m) => "Math Error: "@ + m,
    }
}

impl EvalError {
    /// The error's message: `Variable 'v' not found` or `Math Error: ..`.
    pub fn message(&self) -> (r: String)
        ensures
            r@ == eval_error_message(self@),
    {
        match self {
            EvalError::UndefinedVariable(v) => {
                let mut m = "Variable '".to_owned();
                push_chars(&mut m, v);
                push_chars(&mut m, &"' not found".to_owned());
                m
            },
            EvalError::MathError(text) => {
                let mut m = "Math Error: ".to_owned();
                push_chars(&mut m, text);
                m
            },
        }
    }
}

/// Values bound to variable names; binding a name again replaces its value.
pub struct Bindings {
    entries: Vec<(String, u64)>,
}

impl View for Bindings {
    type V = Map<Seq<char>, u64>;

    closed spec fn view(&self) -> Map<Seq<char>, u64> {
        assoc_map(self.entries@)
    }
}

impl Bindings {
    /// No variable bound.
    pub fn new() -> (b: Bindings)
        ensures
            b@ == Map::<Seq<char>, u64>::empty(),
    {
        let b = Bindings { entries: Vec::new() };
        assert(b@ =~= Map::<Seq<char>, u64>::empty());
        b
    }

    /// Binds `name` to the number with bit pattern `bits`.
    pub fn insert(&mut self, name: &str, bits: u64)
        ensures
            final(self)@ == old(self)@.insert(name@, bits),
    {
        let key = name.to_owned();
        proof {
            lemma_assoc_push(self.entries@, key, bits);
        }
        self.entries.push((key, bits));
    }

    /// The value bound to `name`, if any.
    pub fn get(&self, name: &String) -> (r: Option<u64>)
        ensures
            r == (if self@.contains_key(name@) { Some(self@[name@]) } else { None::<u64> }),
    {
        let n = self.entries.len();
        let mut i = n;
        while i > 0
            invariant
                i <= n,
                n == self.entries@.len(),
                forall|j: int| i <= j < n ==> #[trigger] self.entries@[j].0@ != name@,
            decreases i,
        {
            if self.entries[i - 1].0 == *name {
                proof {
                    lemma_assoc_suffix_irrelevant(self.entries@, i as int, name@);
                    lemma_assoc_last_of_prefix(self.entries@, i as int);
                }
                return Some(self.entries[i - 1].1);
            }
            i = i - 1;
        }
        proof {
            lemma_assoc_suffix_irrelevant(self.entries@, 0, name@);
        }
        None
    }
}

/// The result of evaluating: a value or an error, unless an answer is missing.
pub type SpecEval = Result<Result<u64, SpecEvalError>, SpecQuery>;

/// `q(a, b)` answered by the table, once both operands have values; the first
/// operand's error or missing answer comes first.
pub open spec fn eval_binary(a: SpecEval, b: SpecEval, q: spec_fn(u64, u64) -> SpecQuery, t: SpecTable) -> SpecEval {
    match a {
        Err(x) => Err(x),
        Ok(Err(e)) => Ok(Err(e)),
        Ok(Ok(x)) => match b {
            Err(y) => Err(y),
            Ok(Err(e)) => Ok(Err(e)),
            Ok(Ok(y)) => match ask_value(t, q(x, y)) {
                Err(z) => Err(z),
                Ok(v) => Ok(Ok(v)),
            },
        },
    }
}

/// `q(a)` answered by the table, once the operand has a value.
pub open spec fn eval_unary(a: SpecEval, q: spec_fn(u64) -> SpecQuery, t: SpecTable) -> SpecEval {
    match a {
        Ok(Ok(x)) => match ask_value(t, q(x)) {
            Err(z) => Err(z),
            Ok(v) => Ok(Ok(v)),
        },
        other => other,
    }
}

impl SpecExpr {
    /// The value of the expression when variables take their values from `env`
    /// and operations their results from `t`. Children are evaluated left to right;
    /// the first variable without a value is the error. Negation flips the sign bit.
    pub open spec fn evaluated(self, env: Map<Seq<char>, u64>, t: SpecTable) -> SpecEval
        decreases self,
    {
        match self {
            SpecExpr::Num(n) => Ok(Ok(n)),
            SpecExpr::Var(s) => if env.contains_key(s) {
                Ok(Ok(env[s]))
            } else {
                Ok(Err(SpecEvalError::UndefinedVariable(s)))
            },
            SpecExpr::Add(l, r) => eval_binary(l.evaluated(env, t), r.evaluated(env, t), |a: u64, b: u64| SpecQuery::Add(a, b), t),
            SpecExpr::Mul(l, r) => eval_binary(l.evaluated(env, t), r.evaluated(env, t), |a: u64, b: u64| SpecQuery::Mul(a, b), t),
            SpecExpr::Pow(l, r) => eval_binary(l.evaluated(env, t), r.evaluated(env, t), |a: u64, b: u64| SpecQuery::Pow(a, b), t),
            SpecExpr::Ln(x) => eval_unary(x.evaluated(env, t), |a: u64| SpecQuery::Ln(a), t),
            SpecExpr::Sin(x) => eval_unary(x.evaluated(env, t), |a: u64| SpecQuery::Sin(a), t),
            SpecExpr::Cos(x) => eval_unary(x.evaluated(env, t), |a: u64| SpecQuery::Cos(a), t),
            SpecExpr::Neg(x) => match x.evaluated(env, t) {
                Ok(Ok(a)) => Ok(Ok(negated(a))),
                other => other,
            },
        }
    }
}

/// An evaluation error names a variable of the expression that has no value;
/// evaluation never reports a math error.
pub proof fn law_eval_error_is_unbound_variable(e: SpecExpr, env: Map<Seq<char>, u64>, t: SpecTable)
    ensures
        e.evaluated(env, t) matches Ok(Err(err)) ==> (err matches SpecEvalError::UndefinedVariable(v)
            && e.mentions(v) && !env.contains_key(v)),
    decreases e,
{
    match e {
        SpecExpr::Add(l, r) | SpecExpr::Mul(l, r) | SpecExpr::Pow(l, r) => {
            law_eval_error_is_unbound_variable(*l, env, t);
            law_eval_error_is_unbound_variable(*r, env, t);
        },
        SpecExpr::Ln(x) | SpecExpr::Neg(x) | SpecExpr::Sin(x) | SpecExpr::Cos(x) => {
            law_eval_error_is_unbound_variable(*x, env, t);
        },
        _ => {},
    }
}

/// A variable of the expression without a value means no value for the expression.
pub proof fn law_eval_unbound_variable_gives_no_value(e: SpecExpr, env: Map<Seq<char>, u64>, t: SpecTable, v: Seq<char>)
    requires
        e.mentions(v),
        !env.contains_key(v),
    ensures
        !(e.evaluated(env, t) is Ok && e.evaluated(env, t)->Ok_0 is Ok),
    decreases e,
{
    match e {
        SpecExpr::Add(l, r) | SpecExpr::Mul(l, r) | SpecExpr::Pow(l, r) => {
            if l.mentions(v) {
                law_eval_unbound_variable_gives_no_value(*l, env, t, v);
            } else {
                law_eval_unbound_variable_gives_no_value(*r, env, t, v);
            }
        },
        SpecExpr::Ln(x) | SpecExpr::Neg(x) | SpecExpr::Sin(x) | SpecExpr::Cos(x) => {
            law_eval_unbound_variable_gives_no_value(*x, env, t, v);
        },
        _ => {},
    }
}

/// With every variable of the expression bound, evaluation gives a value or
/// names a missing answer; it never fails.
pub proof fn law_eval_all_bound_no_error(e: SpecExpr, env: Map<Seq<char>, u64>, t: SpecTable)
    requires
        forall|w: Seq<char>| e.mentions(w) ==> env.contains_key(w),
    ensures
        !(e.evaluated(env, t) is Ok && e.evaluated(env, t)->Ok_0 is Err),
{
    law_eval_error_is_unbound_variable(e, env, t);
}

/// An evaluation that gives a result gives the same one under any table that
/// holds every answer of the first; one that stops names a query the table lacks.
pub proof fn law_eval_table_answers(e: SpecExpr, env: Map<Seq<char>, u64>, t1: SpecTable, t2: SpecTable)
    ensures
        table_extends(t1, t2) && e.evaluated(env, t1) is Ok ==> e.evaluated(env, t2) == e.evaluated(env, t1),
        e.evaluated(env, t1) matches Err(q) ==> !t1.values.contains_key(q),
    decreases e,
{
    match e {
        SpecExpr::Add(l, r) | SpecExpr::Mul(l, r) | SpecExpr::Pow(l, r) => {
            law_eval_table_answers(*l, env, t1, t2);
            law_eval_table_answers(*r, env, t1, t2);
        },
        SpecExpr::Ln(x) | SpecExpr::Neg(x) | SpecExpr::Sin(x) | SpecExpr::Cos(x) => {
            law_eval_table_answers(*x, env, t1, t2);
        },
        _ => {},
    }
}

/// Substituting `r` for `v` and evaluating is evaluating with `v` bound to the
/// value of `r`: the same value, the same error, or the same missing answer.
pub proof fn law_eval_substituted(e: SpecExpr, v: Seq<char>, r: SpecExpr, env: Map<Seq<char>, u64>, t: SpecTable, a: u64)
    requires
        r.evaluated(env, t) == Ok::<Result<u64, SpecEvalError>, SpecQuery>(Ok(a)),
    ensures
        e.substituted(v, r).evaluated(env, t) == e.evaluated(env.insert(v, a), t),
    decreases e,
{
    match e {
        SpecExpr::Add(l, x) | SpecExpr::Mul(l, x) | SpecExpr::Pow(l, x) => {
            law_eval_substituted(*l, v, r, env, t, a);
            law_eval_substituted(*x, v, r, env, t, a);
        },
        SpecExpr::Ln(x) | SpecExpr::Neg(x) | SpecExpr::Sin(x) | SpecExpr::Cos(x) => {
            law_eval_substituted(*x, v, r, env, t, a);
        },
        _ => {},
    }
}

/// Evaluation reads only the variables that occur: two bindings that agree on
/// them give the same result.
pub proof fn law_eval_reads_only_occurring_variables(e: SpecExpr, env1: Map<Seq<char>, u64>, env2: Map<Seq<char>, u64>, t: SpecTable)
    requires
        forall|w: Seq<char>| #[trigger] e.mentions(w) ==> (env1.contains_key(w) == env2.contains_key(w)
            && (env1.contains_key(w) ==> env1[w] == env2[w])),
    ensures
        e.evaluated(env1, t) == e.evaluated(env2, t),
    decreases e,
{
    match e {
        SpecExpr::Add(l, x) | SpecExpr::Mul(l, x) | SpecExpr::Pow(l, x) => {
            assert forall|w: Seq<char>| #[trigger] l.mentions(w) implies (env1.contains_key(w) == env2.contains_key(w)
                && (env1.contains_key(w) ==> env1[w] == env2[w])) by {
                assert(e.mentions(w));
            }
            assert forall|w: Seq<char>| #[trigger] x.mentions(w) implies (env1.contains_key(w) == env2.contains_key(w)
                && (env1.contains_key(w) ==> env1[w] == env2[w])) by {
                assert(e.mentions(w));
            }
            law_eval_reads_only_occurring_variables(*l, env1, env2, t);
            law_eval_reads_only_occurring_variables(*x, env1, env2, t);
        },
        SpecExpr::Ln(x) | SpecExpr::Neg(x) | SpecExpr::Sin(x) | SpecExpr::Cos(x) => {
            assert forall|w: Seq<char>| #[trigger] x.mentions(w) implies (env1.contains_key(w) == env2.contains_key(w)
                && (env1.contains_key(w) ==> env1[w] == env2[w])) by {
                assert(e.mentions(w));
            }
            law_eval_reads_only_occurring_variables(*x, env1, env2, t);
        },
        SpecExpr::Var(s) => {
            assert(e.mentions(s));
        },
        _ => {},
    }
}

fn ask_number(table: &FloatTable, q: FloatQuery) -> (r: Result<Result<u64, EvalError>, FloatQuery>)
    ensures
        outcome(r) == match ask_value(table@, q@) {
            Err(z) => Err(z),
            Ok(v) => Ok(Ok::<u64, SpecEvalError>(v)),
        },
{
    match table.value(q) {
        Ok(v) => Ok(Ok(v)),
        Err(z) => Err(z),
    }
}

impl Expr {
    /// Evaluates the expression with the variables' values from `vars`. Stops at
    /// the first operation result that `table` lacks and returns its query.
    ///
    /// # Errors
    /// [`EvalError::UndefinedVariable`] for the first variable, left to right,
    /// that `vars` does not bind.
    pub fn eval(&self, vars: &Bindings, table: &FloatTable) -> (r: Result<Result<u64, EvalError>, FloatQuery>)
        ensures
            outcome(r) == self@.evaluated(vars@, table@),
        decreases self,
    {
        match self {
            Expr::Num(n) => Ok(Ok(*n)),
            Expr::Var(s) => match vars.get(s) {
                Some(v) => Ok(Ok(v)),
                None => Ok(Err(EvalError::UndefinedVariable(s.clone()))),
            },
            Expr::Add(l, r) => {
                let a = match l.eval(vars, table)? {
                    Ok(a) => a,
                    Err(e) => return Ok(Err(e)),
                };
                let b = match r.eval(vars, table)? {
                    Ok(b) => b,
                    Err(e) => return Ok(Err(e)),
                };
                ask_number(table, FloatQuery::Add(a, b))
            },
            Expr::Mul(l, r) => {
                let a = match l.eval(vars, table)? {
                    Ok(a) => a,
                    Err(e) => return Ok(Err(e)),
                };
                let b = match r.eval(vars, table)? {
                    Ok(b) => b,
                    Err(e) => return Ok(Err(e)),
                };
                ask_number(table, FloatQuery::Mul(a, b))
            },
            Expr::Pow(l, r) => {
                let a = match l.eval(vars, table)? {
                    Ok(a) => a,
                    Err(e) => return Ok(Err(e)),
                };
                let b = match r.eval(vars, table)? {
                    Ok(b) => b,
                    Err(e) => return Ok(Err(e)),
                };
                ask_number(table, FloatQuery::Pow(a, b))
            },
            Expr::Ln(x) => {
                let a = match x.eval(vars, table)? {
                    Ok(a) => a,
                    Err(e) => return Ok(Err(e)),
                };
                ask_number(table, FloatQuery::Ln(a))
            },
            Expr::Sin(x) => {
                let a = match x.eval(vars, table)? {
                    Ok(a) => a,
                    Err(e) => return Ok(Err(e)),
                };
                ask_number(table, FloatQuery::Sin(a))
            },
            Expr::Cos(x) => {
                let a = match x.eval(vars, table)? {
                    Ok(a) => a,
                    Err(e) => return Ok(Err(e)),
                };
                ask_number(table, FloatQuery::Cos(a))
            },
            Expr::Neg(x) => {
                let a = match x.eval(vars, table)? {
                    Ok(a) => a,
                    Err(e) => return Ok(Err(e)),
                };
                Ok(Ok(bits_negated(a)))
            },
        }
    }
}

} // verus!
