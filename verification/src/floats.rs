//! IEEE-754 binary64 numbers held as their bit patterns, and the table of
//! floating-point results that the library consults.
//!
//! The library never performs floating-point arithmetic itself. Every number is
//! an IEEE-754 binary64 bit pattern (`u64`). What can be decided on the bit
//! pattern alone (is it zero, is it one, its negation) is computed here exactly.
//! What needs real floating-point work (reading a decimal literal, `+`, `*`,
//! `powf`, `ln`, `sin`, `cos`, and printing a number) is looked up in a
//! [`FloatTable`]. When the table lacks an answer, an operation stops and hands
//! back the [`FloatQuery`] it needed; the caller computes that answer, records it
//! and runs the operation again.

use vstd::prelude::*;
use crate::assoc::{assoc_map, lemma_assoc_last_of_prefix, lemma_assoc_push, lemma_assoc_suffix_irrelevant};

verus! {

/// Bit pattern of `0.0`.
pub const ZERO: u64 = 0u64;
/// Bit pattern of `1.0`.
pub const ONE: u64 = 0x3FF0_0000_0000_0000u64;
/// Bit pattern of `-1.0`.
pub const NEG_ONE: u64 = 0xBFF0_0000_0000_0000u64;
/// The sign bit of a binary64 number.
pub const SIGN_BIT: u64 = 0x8000_0000_0000_0000u64;
/// The exponent field of a binary64 number.
pub const EXPONENT_BITS: u64 = 0x7FF0_0000_0000_0000u64;
/// The fraction field of a binary64 number.
pub const FRACTION_BITS: u64 = 0x000F_FFFF_FFFF_FFFFu64;

/// The number compares equal to `0.0` (it is `+0.0` or `-0.0`).
pub open spec fn is_zero(b: u64) -> bool {
    b == ZERO || b == SIGN_BIT
}

/// The number compares equal to `1.0`.
pub open spec fn is_one(b: u64) -> bool {
    b == ONE
}

/// The number is a NaN: all exponent bits set and a nonzero fraction.
pub open spec fn is_nan(b: u64) -> bool {
    b & EXPONENT_BITS == EXPONENT_BITS && b & FRACTION_BITS != 0
}

/// Floating-point equality of two numbers: NaN equals nothing, and the two zeros
/// are equal.
pub open spec fn float_eq(a: u64, b: u64) -> bool {
    (is_zero(a) && is_zero(b)) || (a == b && !is_nan(a))
}

/// The negation of a number: its sign bit flipped.
pub open spec fn negated(b: u64) -> u64 {
    b ^ SIGN_BIT
}

pub fn bits_is_zero(b: u64) -> (r: bool)
    ensures
        r == is_zero(b),
{
    b == ZERO || b == SIGN_BIT
}

pub fn bits_is_one(b: u64) -> (r: bool)
    ensures
        r == is_one(b),
{
    b == ONE
}

pub fn bits_negated(b: u64) -> (r: u64)
    ensures
        r == negated(b),
{
    b ^ SIGN_BIT
}

pub fn bits_float_eq(a: u64, b: u64) -> (r: bool)
    ensures
        r == float_eq(a, b),
{
    let nan = a & EXPONENT_BITS == EXPONENT_BITS && a & FRACTION_BITS != 0;
    (bits_is_zero(a) && bits_is_zero(b)) || (a == b && !nan)
}

/// A floating-point result that the library needs and cannot compute itself.
pub enum FloatQuery {
    /// The number that a decimal literal denotes (`str::parse::<f64>`).
    Parse(String),
    /// `a + b`
    Add(u64, u64),
    /// `a * b`
    Mul(u64, u64),
    /// `a.powf(b)`
    Pow(u64, u64),
    /// `a.ln()`
    Ln(u64),
    /// `a.sin()`
    Sin(u64),
    /// `a.cos()`
    Cos(u64),
    /// The text that `{}` prints for the number.
    Display(u64),
    /// The text that `{:?}` prints for the number.
    Debug(u64),
}

/// The mathematical model of a [`FloatQuery`].
pub enum SpecQuery {
    Parse(Seq<char>),
    Add(u64, u64),
    Mul(u64, u64),
    Pow(u64, u64),
    Ln(u64),
    Sin(u64),
    Cos(u64),
    Display(u64),
    Debug(u64),
}

impl View for FloatQuery {
    type V = SpecQuery;

    open spec fn view(&self) -> SpecQuery {
        match self {
            FloatQuery::Parse(s) => SpecQuery::Parse(s@),
            FloatQuery::Add(a, b) => SpecQuery::Add(*a, *b),
            FloatQuery::Mul(a, b) => SpecQuery::Mul(*a, *b),
            FloatQuery::Pow(a, b) => SpecQuery::Pow(*a, *b),
            FloatQuery::Ln(a) => SpecQuery::Ln(*a),
            FloatQuery::Sin(a) => SpecQuery::Sin(*a),
            FloatQuery::Cos(a) => SpecQuery::Cos(*a),
            FloatQuery::Display(a) => SpecQuery::Display(*a),
            FloatQuery::Debug(a) => SpecQuery::Debug(*a),
        }
    }
}

impl DeepView for FloatQuery {
    type V = SpecQuery;

    open spec fn deep_view(&self) -> SpecQuery {
        self@
    }
}

impl FloatQuery {
    /// Whether two queries ask for the same thing.
    pub fn same(&self, other: &FloatQuery) -> (r: bool)
        ensures
            r == (self@ == other@),
    {
        match (self, other) {
            (FloatQuery::Parse(a), FloatQuery::Parse(b)) => *a == *b,
            (FloatQuery::Add(a1, b1), FloatQuery::Add(a2, b2)) => *a1 == *a2 && *b1 == *b2,
            (FloatQuery::Mul(a1, b1), FloatQuery::Mul(a2, b2)) => *a1 == *a2 && *b1 == *b2,
            (FloatQuery::Pow(a1, b1), FloatQuery::Pow(a2, b2)) => *a1 == *a2 && *b1 == *b2,
            (FloatQuery::Ln(a), FloatQuery::Ln(b)) => *a == *b,
            (FloatQuery::Sin(a), FloatQuery::Sin(b)) => *a == *b,
            (FloatQuery::Cos(a), FloatQuery::Cos(b)) => *a == *b,
            (FloatQuery::Display(a), FloatQuery::Display(b)) => *a == *b,
            (FloatQuery::Debug(a), FloatQuery::Debug(b)) => *a == *b,
            _ => false,
        }
    }
}

/// The model of a [`FloatTable`]: the numeric answers and the textual answers it holds.
pub struct SpecTable {
    pub values: Map<SpecQuery, u64>,
    pub texts: Map<SpecQuery, Seq<char>>,
}

/// The answer of a table to a query with a numeric result: the number, or the
/// query itself when the table lacks it.
pub open spec fn ask_value(t: SpecTable, q: SpecQuery) -> Result<u64, SpecQuery> {
    if t.values.contains_key(q) {
        Ok(t.values[q])
    } else {
        Err(q)
    }
}

/// The answer of a table to a query with a textual result.
pub open spec fn ask_text(t: SpecTable, q: SpecQuery) -> Result<Seq<char>, SpecQuery> {
    if t.texts.contains_key(q) {
        Ok(t.texts[q])
    } else {
        Err(q)
    }
}

/// Every answer of `t1` is an answer of `t2`.
pub open spec fn table_extends(t1: SpecTable, t2: SpecTable) -> bool {
    t1.values.submap_of(t2.values) && t1.texts.submap_of(t2.texts)
}

/// A record of floating-point results: for each query it has been told about,
/// the answer. A later record for the same query overrides an earlier one.
pub struct FloatTable {
    values: Vec<(FloatQuery, u64)>,
    texts: Vec<(FloatQuery, String)>,
}

impl View for FloatTable {
    type V = SpecTable;

    closed spec fn view(&self) -> SpecTable {
        SpecTable { values: assoc_map(self.values@), texts: assoc_map(self.texts@) }
    }
}

/// The model of a result that may stop at a missing answer.
pub open spec fn answered<T: DeepView>(r: Result<T, FloatQuery>) -> Result<T::V, SpecQuery> {
    match r {
        Ok(v) => Ok(v.deep_view()),
        Err(q) => Err(q@),
    }
}

/// The model of a result that may fail, and may stop at a missing answer.
pub open spec fn outcome<T: DeepView, E: DeepView>(r: Result<Result<T, E>, FloatQuery>) -> Result<Result<T::V, E::V>, SpecQuery> {
    match r {
        Ok(Ok(v)) => Ok(Ok(v.deep_view())),
        Ok(Err(e)) => Ok(Err(e.deep_view())),
        Err(q) => Err(q@),
    }
}

impl FloatTable {
    /// An empty table.
    pub fn new() -> (t: FloatTable)
        ensures
            t@.values == Map::<SpecQuery, u64>::empty(),
            t@.texts == Map::<SpecQuery, Seq<char>>::empty(),
    {
        let t = FloatTable { values: Vec::new(), texts: Vec::new() };
        assert(t@.values =~= Map::<SpecQuery, u64>::empty());
        assert(t@.texts =~= Map::<SpecQuery, Seq<char>>::empty());
        t
    }

    /// Records the numeric answer to a query.
    pub fn record_value(&mut self, q: FloatQuery, bits: u64)
        ensures
            final(self)@.values == old(self)@.values.insert(q@, bits),
            final(self)@.texts == old(self)@.texts,
    {
        proof {
            lemma_assoc_push(self.values@, q, bits);
        }
        self.values.push((q, bits));
    }

    /// Records the textual answer to a query.
    pub fn record_text(&mut self, q: FloatQuery, text: String)
        ensures
            final(self)@.texts == old(self)@.texts.insert(q@, text@),
            final(self)@.values == old(self)@.values,
    {
        proof {
            lemma_assoc_push(self.texts@, q, text);
        }
        self.texts.push((q, text));
    }

    /// The numeric answer to `q`, or `q` itself when the table has none.
    pub fn value(&self, q: FloatQuery) -> (r: Result<u64, FloatQuery>)
        ensures
            answered(r) == ask_value(self@, q@),
    {
        let n = self.values.len();
        let mut i = n;
        while i > 0
            invariant
                i <= n,
                n == self.values@.len(),
                forall|j: int| i <= j < n ==> #[trigger] self.values@[j].0@ != q@,
            decreases i,
        {
            if self.values[i - 1].0.same(&q) {
                proof {
                    lemma_assoc_suffix_irrelevant(self.values@, i as int, q@);
                    lemma_assoc_last_of_prefix(self.values@, i as int);
                }
                return Ok(self.values[i - 1].1);
            }
            i = i - 1;
        }
        proof {
            lemma_assoc_suffix_irrelevant(self.values@, 0, q@);
        }
        Err(q)
    }

    /// The textual answer to `q`, or `q` itself when the table has none.
    pub fn text(&self, q: FloatQuery) -> (r: Result<String, FloatQuery>)
        ensures
            answered(r) == ask_text(self@, q@),
    {
        let n = self.texts.len();
        let mut i = n;
        while i > 0
            invariant
                i <= n,
                n == self.texts@.len(),
                forall|j: int| i <= j < n ==> #[trigger] self.texts@[j].0@ != q@,
            decreases i,
        {
            if self.texts[i - 1].0.same(&q) {
                proof {
                    lemma_assoc_suffix_irrelevant(self.texts@, i as int, q@);
                    lemma_assoc_last_of_prefix(self.texts@, i as int);
                }
                return Ok(self.texts[i - 1].1.clone());
            }
            i = i - 1;
        }
        proof {
            lemma_assoc_suffix_irrelevant(self.texts@, 0, q@);
        }
        Err(q)
    }
}

} // verus!
