# usme

A symbolic math engine, verified with Verus: a tokenizer and recursive-descent
parser, symbolic differentiation (sum, product, chain and general power
rules), fixed-point simplification, substitution, rendering with minimal
parentheses, and evaluation.

Layout:

* `src/` — the library. Every function has a contract over a mathematical model
  (`SpecExpr`, `SpecToken`, `SpecTable`); the laws of the engine are the
  `law_*` proof functions beside the code they speak of.
* `tests/` — golden derivatives, gradient checks against finite differences,
  algebraic properties, and scenarios for each rule and error.
* `app/` — a command-line program, and the loop that answers the library's
  floating-point queries with `f64`.

Numbers are IEEE-754 binary64 bit patterns. Floating-point results come from a
`FloatTable`; when it lacks one, an operation returns the `FloatQuery` it
needs, and the caller records the answer and runs the operation again.
