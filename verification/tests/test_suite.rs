// Golden derivatives, gradient checks and algebraic properties of the engine,
// with the floating-point results that the library asks for computed in f64.

use std::collections::HashMap;
use usme::ast::Expr;
use usme::eval::{Bindings, EvalError};
use usme::floats::{FloatQuery, FloatTable};

// ── Floating-point answers ───────────────────────────────────────────────────

/// Computes the answer to `q` with `f64` and records it.
fn answer(table: &mut FloatTable, q: FloatQuery) {
    match &q {
        FloatQuery::Parse(s) => {
            let v: f64 = s.parse().expect("the library asks only for valid literals");
            table.record_value(q, v.to_bits());
        }
        FloatQuery::Add(a, b) => {
            let v = f64::from_bits(*a) + f64::from_bits(*b);
            table.record_value(q, v.to_bits());
        }
        FloatQuery::Mul(a, b) => {
            let v = f64::from_bits(*a) * f64::from_bits(*b);
            table.record_value(q, v.to_bits());
        }
        FloatQuery::Pow(a, b) => {
            let v = f64::from_bits(*a).powf(f64::from_bits(*b));
            table.record_value(q, v.to_bits());
        }
        FloatQuery::Ln(a) => {
            let v = f64::from_bits(*a).ln();
            table.record_value(q, v.to_bits());
        }
        FloatQuery::Sin(a) => {
            let v = f64::from_bits(*a).sin();
            table.record_value(q, v.to_bits());
        }
        FloatQuery::Cos(a) => {
            let v = f64::from_bits(*a).cos();
            table.record_value(q, v.to_bits());
        }
        FloatQuery::Display(a) => {
            let t = format!("{}", f64::from_bits(*a));
            table.record_text(q, t);
        }
        FloatQuery::Debug(a) => {
            let t = format!("{:?}", f64::from_bits(*a));
            table.record_text(q, t);
        }
    }
}

fn settle<T>(table: &mut FloatTable, run: impl Fn(&FloatTable) -> Result<T, FloatQuery>) -> T {
    loop {
        match run(table) {
            Ok(v) => return v,
            Err(q) => answer(table, q),
        }
    }
}

fn parse(input: &str) -> Result<Expr, String> {
    let mut table = FloatTable::new();
    settle(&mut table, |t| usme::parser::parse(input, t))
}

fn tokenize(input: &str) -> Result<Vec<usme::parser::tokenizer::Token>, String> {
    let mut table = FloatTable::new();
    settle(&mut table, |t| usme::parser::tokenizer::tokenize(input, t))
}

fn simplify(e: &Expr) -> Expr {
    let mut table = FloatTable::new();
    settle(&mut table, |t| e.simplify(t))
}

fn render(e: &Expr) -> String {
    let mut table = FloatTable::new();
    settle(&mut table, |t| e.render(t))
}

fn eval(e: &Expr, vars: &HashMap<String, f64>) -> Result<f64, EvalError> {
    let mut b = Bindings::new();
    for (k, v) in vars {
        b.insert(k, v.to_bits());
    }
    let mut table = FloatTable::new();
    settle(&mut table, |t| e.eval(&b, t)).map(f64::from_bits)
}

fn num(v: f64) -> Expr {
    Expr::num(v.to_bits())
}

// ── Numerical helpers ────────────────────────────────────────────────────────

/// Step size for central finite difference.
const H: f64 = 1e-5;

/// Relative tolerance for gradient checks.
const TOL: f64 = 1e-4;

/// Evaluate an expression at a single point x.
fn eval_at(expr: &Expr, x: f64) -> Option<f64> {
    let mut vars = HashMap::new();
    vars.insert("x".to_string(), x);
    eval(expr, &vars).ok()
}

/// Central finite difference approximation of d/dx at point x.
fn finite_diff(expr: &Expr, x: f64) -> Option<f64> {
    let f_plus = eval_at(expr, x + H)?;
    let f_minus = eval_at(expr, x - H)?;
    Some((f_plus - f_minus) / (2.0 * H))
}

/// The simplified symbolic derivative evaluated at x agrees with the finite
/// difference of the expression at x.
fn gradient_check(input: &str, x: f64) -> bool {
    let expr = parse(input).expect("parse failed");
    let deriv = simplify(&expr.diff("x"));

    let symbolic = match eval_at(&deriv, x) {
        Some(v) if v.is_finite() => v,
        _ => return false,
    };
    let numerical = match finite_diff(&expr, x) {
        Some(v) if v.is_finite() => v,
        _ => return false,
    };

    let scale = numerical.abs().max(1.0);
    let error = (symbolic - numerical).abs() / scale;

    if error >= TOL {
        println!(
            "[GRADIENT FAIL] expr='{}' at x={}\n  symbolic={:.8}  numerical={:.8}  error={:.2e}",
            input, x, symbolic, numerical, error
        );
    }

    error < TOL
}

// ── 1. Golden tests ──────────────────────────────────────────────────────────

/// Check that diff(input) ≈ expected at several x values.
fn check_derivative_matches(input: &str, expected: &str, xs: &[f64]) {
    let expr = parse(input).expect("parse failed");
    let expected = parse(expected).expect("expected parse failed");
    let deriv = simplify(&expr.diff("x"));

    for &x in xs {
        let got = eval_at(&deriv, x);
        let exp = eval_at(&expected, x);
        match (got, exp) {
            (Some(g), Some(e)) if g.is_finite() && e.is_finite() => {
                let scale = e.abs().max(1.0);
                let error = (g - e).abs() / scale;
                assert!(
                    error < 1e-6,
                    "d/dx[{}] at x={}: got {:.8}, expected {:.8} (error {:.2e})",
                    input,
                    x,
                    g,
                    e,
                    error
                );
            }
            _ => {}
        }
    }
}

const GOLDEN_XS: &[f64] = &[-2.0, -0.5, 0.1, 0.5, 1.0, 1.5, 2.0, 3.0];

#[test]
fn d_constant_is_zero() {
    let expr = parse("5").unwrap();
    let deriv = simplify(&expr.diff("x"));
    for &x in GOLDEN_XS {
        let v = eval_at(&deriv, x).unwrap_or(f64::NAN);
        assert!(v.abs() < 1e-10, "d/dx[5] should be 0 at x={}, got {}", x, v);
    }
}

#[test]
fn d_x_is_one() {
    let expr = parse("x").unwrap();
    let deriv = simplify(&expr.diff("x"));
    for &x in GOLDEN_XS {
        let v = eval_at(&deriv, x).unwrap_or(f64::NAN);
        assert!((v - 1.0).abs() < 1e-10, "d/dx[x] should be 1 at x={}, got {}", x, v);
    }
}

#[test]
fn d_x_squared() {
    check_derivative_matches("x^2", "2*x", GOLDEN_XS);
}

#[test]
fn d_x_cubed() {
    check_derivative_matches("x^3", "3*x^2", GOLDEN_XS);
}

#[test]
fn d_polynomial() {
    check_derivative_matches("x^3 + 2*x^2 + x + 1", "3*x^2 + 4*x + 1", GOLDEN_XS);
}

#[test]
fn d_sin_x() {
    check_derivative_matches("sin(x)", "cos(x)", GOLDEN_XS);
}

#[test]
fn d_cos_x() {
    check_derivative_matches("cos(x)", "-1*sin(x)", GOLDEN_XS);
}

#[test]
fn d_sin_x_squared() {
    check_derivative_matches("sin(x^2)", "2*x*cos(x^2)", GOLDEN_XS);
}

#[test]
fn d_ln_x() {
    let xs_pos = &[0.1f64, 0.5, 1.0, 1.5, 2.0, 3.0];
    check_derivative_matches("ln(x)", "1/x", xs_pos);
}

#[test]
fn d_ln_x_squared() {
    let xs_pos = &[0.1f64, 0.5, 1.0, 1.5, 2.0, 3.0];
    check_derivative_matches("ln(x^2)", "2/x", xs_pos);
}

#[test]
fn d_x_sin_x() {
    check_derivative_matches("x*sin(x)", "sin(x) + x*cos(x)", GOLDEN_XS);
}

#[test]
fn d_x_squared_cos_x() {
    check_derivative_matches("x^2*cos(x)", "2*x*cos(x) - x^2*sin(x)", GOLDEN_XS);
}

#[test]
fn d_sin_over_x() {
    let xs_nonzero = &[-2.0f64, -0.5, 0.5, 1.0, 1.5, 2.0];
    check_derivative_matches("sin(x)/x", "(x*cos(x) - sin(x)) / (x^2)", xs_nonzero);
}

#[test]
fn d_x_to_the_x() {
    let xs_pos = &[0.5f64, 1.0, 1.5, 2.0, 3.0];
    check_derivative_matches("x^x", "x^x * (ln(x) + 1)", xs_pos);
}

#[test]
fn d_x_squared_plus_1_to_sin_x() {
    let xs_pos = &[0.5f64, 1.0, 1.5, 2.0];
    for &x in xs_pos {
        assert!(
            gradient_check("(x^2 + 1)^sin(x)", x),
            "gradient check failed for (x^2+1)^sin(x) at x={}",
            x
        );
    }
}

// ── 2. Gradient checks ───────────────────────────────────────────────────────

/// Run gradient check at several representative x values, skipping points where
/// the function is not defined.
fn check_at_standard_points(input: &str) {
    let xs = [-2.0_f64, -1.0, -0.3, 0.3, 0.7, 1.0, 1.5, 2.5];
    let mut passed = 0;
    let mut skipped = 0;

    for &x in &xs {
        if gradient_check(input, x) {
            passed += 1;
        } else {
            let expr = parse(input).unwrap();
            let f_val = eval_at(&expr, x);
            if f_val.map(|v| v.is_finite()).unwrap_or(false) {
                panic!(
                    "gradient_check failed for '{}' at x={} (function IS defined here)",
                    input, x
                );
            } else {
                skipped += 1;
            }
        }
    }

    assert!(
        passed >= 3,
        "gradient_check for '{}' passed at only {}/{} valid points (skipped {})",
        input,
        passed,
        xs.len(),
        skipped
    );
}

#[test]
fn gc_x() {
    check_at_standard_points("x");
}

#[test]
fn gc_x2() {
    check_at_standard_points("x^2");
}

#[test]
fn gc_x3() {
    check_at_standard_points("x^3");
}

#[test]
fn gc_sin() {
    check_at_standard_points("sin(x)");
}

#[test]
fn gc_cos() {
    check_at_standard_points("cos(x)");
}

#[test]
fn gc_ln() {
    check_at_standard_points("ln(x)");
}

#[test]
fn gc_sin_x2() {
    check_at_standard_points("sin(x^2)");
}

#[test]
fn gc_cos_sin_x() {
    check_at_standard_points("cos(sin(x))");
}

#[test]
fn gc_ln_x2_plus_1() {
    check_at_standard_points("ln(x^2 + 1)");
}

#[test]
fn gc_sin_ln_abs() {
    check_at_standard_points("sin(ln(x^2 + 1))");
}

#[test]
fn gc_x_sin_x() {
    check_at_standard_points("x*sin(x)");
}

#[test]
fn gc_x2_cos_x() {
    check_at_standard_points("x^2*cos(x)");
}

#[test]
fn gc_sin_x_cos_x() {
    check_at_standard_points("sin(x)*cos(x)");
}

#[test]
fn gc_sin_over_cos() {
    check_at_standard_points("sin(x)/cos(x)");
}

#[test]
fn gc_x_over_x2_plus1() {
    check_at_standard_points("x / (x^2 + 1)");
}

#[test]
fn gc_1_over_x2() {
    check_at_standard_points("1 / (x^2 + 1)");
}

#[test]
fn gc_x_to_x() {
    let xs_pos = [0.5f64, 1.0, 1.5, 2.0, 2.5];
    for &x in &xs_pos {
        assert!(gradient_check("x^x", x), "gc_x_to_x failed at x={}", x);
    }
}

#[test]
fn gc_sin_x_to_cos_x() {
    check_at_standard_points("sin(x^2+1)^cos(x)");
}

#[test]
fn gc_readme_example() {
    let xs = [0.5_f64, 1.0, 1.5, 2.0, 2.5];
    for &x in &xs {
        assert!(
            gradient_check("sin(x^2) / (x + cos(x))", x),
            "README example gradient check failed at x={}",
            x
        );
    }
}

// ── 3. Property tests ────────────────────────────────────────────────────────

const EXPRS: &[&str] = &[
    "x",
    "x^2",
    "x^3 + 2*x",
    "sin(x)",
    "cos(x)",
    "ln(x^2 + 1)",
    "x*sin(x)",
    "x^2*cos(x)",
    "sin(x)*cos(x)",
    "sin(x^2) / (x^2 + 1)",
    "x / (x^2 + 1)",
    "cos(sin(x))",
    "sin(ln(x^2 + 1))",
];

const PROPERTY_XS: &[f64] = &[-1.5, -0.5, 0.5, 1.0, 1.5, 2.0];

#[test]
fn simplify_is_idempotent() {
    for &input in EXPRS {
        let expr = parse(input).unwrap();
        let once = simplify(&expr);
        let twice = simplify(&once);

        for &x in PROPERTY_XS {
            let v1 = eval_at(&once, x);
            let v2 = eval_at(&twice, x);
            match (v1, v2) {
                (Some(a), Some(b)) if a.is_finite() && b.is_finite() => {
                    let scale = a.abs().max(1.0);
                    let err = (a - b).abs() / scale;
                    assert!(
                        err < 1e-10,
                        "idempotency failed for '{}' at x={}: once={:.8}, twice={:.8}",
                        input,
                        x,
                        a,
                        b
                    );
                }
                _ => {}
            }
        }
    }
}

#[test]
fn simplify_preserves_value() {
    for &input in EXPRS {
        let expr = parse(input).unwrap();
        let simplified = simplify(&expr);

        for &x in PROPERTY_XS {
            let original = eval_at(&expr, x);
            let simplified_v = eval_at(&simplified, x);

            match (original, simplified_v) {
                (Some(a), Some(b)) if a.is_finite() && b.is_finite() => {
                    let scale = a.abs().max(1.0);
                    let err = (a - b).abs() / scale;
                    assert!(
                        err < 1e-10,
                        "simplify changed value of '{}' at x={}: before={:.8}, after={:.8}",
                        input,
                        x,
                        a,
                        b
                    );
                }
                _ => {}
            }
        }
    }
}

#[test]
fn differentiation_is_additive() {
    let pairs = [("sin(x)", "cos(x)"), ("x^2", "x^3"), ("ln(x^2 + 1)", "x*sin(x)")];

    let xs = [0.5_f64, 1.0, 1.5, 2.0];

    for (f_str, g_str) in &pairs {
        let f = parse(f_str).unwrap();
        let g = parse(g_str).unwrap();

        let sum_str = format!("({}) + ({})", f_str, g_str);
        let sum = parse(&sum_str).unwrap();

        let df = simplify(&f.diff("x"));
        let dg = simplify(&g.diff("x"));
        let dsum = simplify(&sum.diff("x"));

        for &x in &xs {
            let lhs = eval_at(&dsum, x);
            let rhs = eval_at(&df, x).zip(eval_at(&dg, x)).map(|(a, b)| a + b);

            match (lhs, rhs) {
                (Some(l), Some(r)) if l.is_finite() && r.is_finite() => {
                    let err = (l - r).abs() / r.abs().max(1.0);
                    assert!(
                        err < 1e-6,
                        "linearity failed: d/dx[{} + {}] at x={}: lhs={:.8}, rhs={:.8}",
                        f_str,
                        g_str,
                        x,
                        l,
                        r
                    );
                }
                _ => {}
            }
        }
    }
}

#[test]
fn differentiation_is_homogeneous() {
    let fs = ["sin(x)", "x^2", "x*cos(x)", "ln(x^2 + 1)"];
    let c = 3.0_f64;
    let xs = [0.5_f64, 1.0, 1.5, 2.0];

    for f_str in &fs {
        let scaled_str = format!("3 * ({})", f_str);
        let scaled = parse(&scaled_str).unwrap();
        let f = parse(f_str).unwrap();

        let d_scaled = simplify(&scaled.diff("x"));
        let c_df = simplify(&f.diff("x"));

        for &x in &xs {
            let lhs = eval_at(&d_scaled, x);
            let rhs = eval_at(&c_df, x).map(|v| c * v);

            match (lhs, rhs) {
                (Some(l), Some(r)) if l.is_finite() && r.is_finite() => {
                    let err = (l - r).abs() / r.abs().max(1.0);
                    assert!(
                        err < 1e-6,
                        "homogeneity failed: d/dx[3*{}] at x={}: got {:.8}, expected {:.8}",
                        f_str,
                        x,
                        l,
                        r
                    );
                }
                _ => {}
            }
        }
    }
}

#[test]
fn chain_rule_nested_compositions() {
    let nested = ["sin(cos(x))", "cos(sin(x))", "ln(sin(x^2) + 2)", "sin(x^2 + cos(x))"];
    for &expr in &nested {
        for &x in PROPERTY_XS {
            assert!(
                gradient_check(expr, x),
                "chain rule gradient check failed for '{}' at x={}",
                expr,
                x
            );
        }
    }
}

#[test]
fn derivative_of_constants_is_zero() {
    let constants = ["1", "0", "3.14", "100", "-7"];
    for &c in &constants {
        let expr = parse(c).unwrap();
        let deriv = simplify(&expr.diff("x"));
        for &x in PROPERTY_XS {
            if let Some(v) = eval_at(&deriv, x) {
                assert!(v.abs() < 1e-10, "d/dx[{}] should be 0 at x={}, got {}", c, x, v);
            }
        }
    }
}
