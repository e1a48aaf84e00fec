//! A symbolic math engine: text is parsed into expression trees, which are
//! differentiated symbolically, simplified to a fixed point, substituted into
//! one another, rendered back as text and evaluated.
//!
//! Numbers are IEEE-754 binary64 values held as their bit patterns. The library
//! does no floating-point arithmetic of its own: an operation that needs a
//! floating-point result (the value of a literal, a folded constant, the value
//! of `sin(x)`, the printed form of a number) reads it from a
//! [`floats::FloatTable`], and stops with the [`floats::FloatQuery`] it needed
//! when the table has no answer. The caller computes that answer with `f64`,
//! records it, and runs the operation again; the laws `law_*_table_answers`
//! show that a result, once reached, does not change as the table grows, and
//! that each stop names a query the table lacks.
//!
//! * [`parser`] turns text into tokens and tokens into an [`ast::Expr`];
//! * [`diff`] differentiates, [`simplify`] simplifies, [`ast`] substitutes;
//! * [`format`] renders, [`eval`] evaluates;
//! * [`ops`] builds trees with `+ - * /` and unary `-`;
//! * [`roundtrip`] shows that rendered text parses back to the tree;
//! * [`value`] shows that simplification keeps an expression's value under a
//!   table of `f64` answers, wherever the cancellations it performs are exact,
//!   and that a derivative in an absent variable simplifies to zero.

pub mod assoc;
pub mod ast;
pub mod diff;
pub mod eval;
pub mod floats;
pub mod format;
pub mod ops;
pub mod parser;
pub mod roundtrip;
pub mod simplify;
pub mod text;
pub mod value;
