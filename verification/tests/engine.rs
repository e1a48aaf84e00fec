// Scenarios from the documentation, every simplification rule, the error
// messages, and the tables and bindings the library works with.

use std::collections::HashMap;
use usme::ast::Expr;
use usme::eval::{Bindings, EvalError};
use usme::floats::{FloatQuery, FloatTable};
use usme::parser::tokenizer::Token;
use usme::parser::ParseError;

// ── Floating-point answers ───────────────────────────────────────────────────

/// Computes the answer to `q` with `f64` and records it.
fn answer(table: &mut FloatTable, q: FloatQuery) {
    match &q {
        FloatQuery::Parse(s) => {
            let v: f64 = s.parse().expect("the library asks only for valid literals");
            table.record_value(q, v.to_bits());
        }
        FloatQuery::Add(a, b) => {
            let v = f64::from_bits(*a) + f64::from_bits(*b);
            table.record_value(q, v.to_bits());
        }
        FloatQuery::Mul(a, b) => {
            let v = f64::from_bits(*a) * f64::from_bits(*b);
            table.record_value(q, v.to_bits());
        }
        FloatQuery::Pow(a, b) => {
            let v = f64::from_bits(*a).powf(f64::from_bits(*b));
            table.record_value(q, v.to_bits());
        }
        FloatQuery::Ln(a) => {
            let v = f64::from_bits(*a).ln();
            table.record_value(q, v.to_bits());
        }
        FloatQuery::Sin(a) => {
            let v = f64::from_bits(*a).sin();
            table.record_value(q, v.to_bits());
        }
        FloatQuery::Cos(a) => {
            let v = f64::from_bits(*a).cos();
            table.record_value(q, v.to_bits());
        }
        FloatQuery::Display(a) => {
            let t = format!("{}", f64::from_bits(*a));
            table.record_text(q, t);
        }
        FloatQuery::Debug(a) => {
            let t = format!("{:?}", f64::from_bits(*a));
            table.record_text(q, t);
        }
    }
}

fn settle<T>(table: &mut FloatTable, run: impl Fn(&FloatTable) -> Result<T, FloatQuery>) -> T {
    loop {
        match run(table) {
            Ok(v) => return v,
            Err(q) => answer(table, q),
        }
    }
}

fn parse(input: &str) -> Result<Expr, String> {
    let mut table = FloatTable::new();
    settle(&mut table, |t| usme::parser::parse(input, t))
}

fn tokenize(input: &str) -> Result<Vec<usme::parser::tokenizer::Token>, String> {
    let mut table = FloatTable::new();
    settle(&mut table, |t| usme::parser::tokenizer::tokenize(input, t))
}

fn simplify(e: &Expr) -> Expr {
    let mut table = FloatTable::new();
    settle(&mut table, |t| e.simplify(t))
}

fn render(e: &Expr) -> String {
    let mut table = FloatTable::new();
    settle(&mut table, |t| e.render(t))
}

fn eval(e: &Expr, vars: &HashMap<String, f64>) -> Result<f64, EvalError> {
    let mut b = Bindings::new();
    for (k, v) in vars {
        b.insert(k, v.to_bits());
    }
    let mut table = FloatTable::new();
    settle(&mut table, |t| e.eval(&b, t)).map(f64::from_bits)
}

fn num(v: f64) -> Expr {
    Expr::num(v.to_bits())
}


fn error_of<T>(r: Result<T, String>) -> String {
    match r {
        Ok(_) => panic!("expected an error"),
        Err(e) => e,
    }
}

fn x() -> Expr {
    Expr::var("x")
}

fn shown(input: &str) -> String {
    render(&parse(input).unwrap())
}

fn simplified_text(input: &str) -> String {
    render(&simplify(&parse(input).unwrap()))
}

// ── Documented scenarios ─────────────────────────────────────────────────────

#[test]
fn tokenize_doc_example() {
    let tokens = tokenize("x + 1").unwrap();
    assert!(tokens == vec![Token::Var("x".to_string()), Token::Plus, Token::Num(1.0f64.to_bits())]);
}

#[test]
fn parse_doc_example_renders_back() {
    assert_eq!(shown("x^2 + 3 * y"), "x^2 + 3 * y");
}

#[test]
fn num_and_var_render() {
    assert_eq!(render(&num(3.14)), "3.14");
    assert_eq!(render(&x()), "x");
    assert_eq!(render(&x().pow(num(2.0))), "x^2");
}

#[test]
fn substitute_doc_example() {
    let f = x().pow(num(2.0));
    let replacement = Expr::var("y").sin();
    let composed = f.substitute("x", &replacement);
    assert_eq!(render(&composed), "sin(y)^2");
}

#[test]
fn composition_readme_example() {
    let f = parse("x^2 + 1").unwrap();
    let g = parse("sin(x)").unwrap();
    assert_eq!(render(&f.substitute("x", &g)), "sin(x)^2 + 1");
}

#[test]
fn substitute_leaves_other_variables() {
    let e = parse("x * y + z").unwrap();
    assert_eq!(render(&e.substitute("w", &num(5.0))), "x * y + z");
    assert_eq!(render(&e.substitute("y", &parse("a + b").unwrap())), "x * (a + b) + z");
}

#[test]
fn simplify_doc_example() {
    assert_eq!(simplified_text("(x * 1) + (y * 0)"), "x");
}

#[test]
fn simplify_readme_rules() {
    assert_eq!(simplified_text("x * 1"), "x");
    assert_eq!(simplified_text("x + 0"), "x");
    assert!(simplify(&parse("(x * x) / x").unwrap()).identical(&x()));
    assert_eq!(simplified_text("(sin(y) * (x + 1)) / (x + 1)"), "sin(y)");
    // Only the same tree cancels.
    assert_eq!(simplified_text("(x * y) / x"), "x * y/x");
    assert_eq!(simplified_text("(x * y) / (y * 1) + 2"), "x + 2");
}

#[test]
fn division_renders_with_a_slash() {
    assert_eq!(shown("sin(x^2) / (x + cos(x))"), "sin(x^2)/(x + cos(x))");
    assert_eq!(shown("a / b / c"), "a/b/c");
    assert_eq!(shown("a / (b * c)"), "a/(b * c)");
    assert_eq!(shown("a / b^2"), "a/b^2");
    assert_eq!(shown("(a / b)^2"), "(a/b)^2");
    assert_eq!(shown("a * b^(-2)"), "a * b^-2");
    assert_eq!(shown("x^-1"), "x^-1");
    assert!(parse("a/b").unwrap() == parse("a / b").unwrap());
}

#[test]
fn eval_doc_example() {
    let expr = parse("x^2 + y").unwrap();
    let mut vars = HashMap::new();
    vars.insert("x".to_string(), 3.0);
    vars.insert("y".to_string(), 10.0);
    assert_eq!(eval(&expr, &vars).unwrap(), 19.0);
}

#[test]
fn diff_doc_example() {
    let deriv = simplify(&parse("3 * x").unwrap().diff("x"));
    assert_eq!(render(&deriv), "3");
}

#[test]
fn readme_quick_start_evaluates() {
    let expr = parse("x^2 * sin(x)").unwrap();
    let clean = simplify(&expr.diff("x"));
    let mut vars = HashMap::new();
    vars.insert("x".to_string(), std::f64::consts::PI / 2.0);
    let v = eval(&clean, &vars).unwrap();
    assert!((v - std::f64::consts::PI).abs() < 1e-12);
}

// ── Parsing ──────────────────────────────────────────────────────────────────

#[test]
fn power_is_right_associative() {
    let e = parse("2^3^2").unwrap();
    assert!(e == num(2.0).pow(num(3.0).pow(num(2.0))));
    assert_eq!(eval(&e, &HashMap::new()).unwrap(), 512.0);
}

#[test]
fn subtraction_and_division_are_composed() {
    let e = parse("a - b").unwrap();
    assert!(e == Expr::Add(Box::new(Expr::var("a")), Box::new(Expr::Neg(Box::new(Expr::var("b"))))));
    let d = parse("a / b").unwrap();
    assert!(d == Expr::var("a") * Expr::var("b").pow(num(-1.0)));
}

#[test]
fn precedence_and_grouping() {
    assert_eq!(shown("1 + 2 * 3"), "1 + 2 * 3");
    assert_eq!(shown("(1 + 2) * 3"), "(1 + 2) * 3");
    assert_eq!(shown("-(x + 1)"), "-(x + 1)");
    assert_eq!(shown("(x^y)^z"), "(x^y)^z");
    assert_eq!(shown("x^y^z"), "x^y^z");
    assert_eq!(shown("a - b - c"), "a + -b + -c");
    assert_eq!(shown("sin(x + 1) * ln(y)"), "sin(x + 1) * ln(y)");
    assert_eq!(shown("--x"), "--x");
}

#[test]
fn parse_errors() {
    assert_eq!(error_of(parse("(x")), "Expected RParen, found end of input");
    assert_eq!(error_of(parse("x )")), "Trailing tokens after expression");
    assert_eq!(error_of(parse("+")), "Unexpected token: Plus");
    assert_eq!(error_of(parse("")), "Unexpected end of input");
    assert_eq!(error_of(parse("sin x")), "Expected LParen, found Var(\"x\")");
    assert_eq!(error_of(parse("sin 2")), "Expected LParen, found Num(2.0)");
    assert_eq!(error_of(parse("(x 2)")), "Expected RParen, found Num(2.0)");
    assert_eq!(error_of(parse("x * )")), "Unexpected token: RParen");
}

#[test]
fn tokenize_errors() {
    assert_eq!(error_of(tokenize("1.2.3")), "Invalid number");
    assert_eq!(error_of(tokenize(".")), "Invalid number");
    assert_eq!(error_of(tokenize("x % 2")), "Unexpected character: %");
    assert_eq!(error_of(parse("2 $")), "Unexpected character: $");
}

#[test]
fn tokenize_literals_and_names() {
    let t = tokenize(" .5\t1.\n2 ").unwrap();
    assert!(t == vec![Token::Num(0.5f64.to_bits()), Token::Num(1.0f64.to_bits()), Token::Num(2.0f64.to_bits())]);
    let n = tokenize("theta2 sin cos ln sine").unwrap();
    assert!(n == vec![
        Token::Var("theta2".to_string()),
        Token::Sin,
        Token::Cos,
        Token::Ln,
        Token::Var("sine".to_string()),
    ]);
    let u = tokenize("xé").unwrap();
    assert!(u == vec![Token::Var("xé".to_string())]);
    assert!(tokenize("2x").unwrap() == vec![Token::Num(2.0f64.to_bits()), Token::Var("x".to_string())]);
}

#[test]
fn token_describe_and_equality() {
    let mut table = FloatTable::new();
    let d = settle(&mut table, |t| Token::Num(2.5f64.to_bits()).describe(t));
    assert_eq!(d, "Num(2.5)");
    let v = settle(&mut table, |t| Token::Var("ab".to_string()).describe(t));
    assert_eq!(v, "Var(\"ab\")");
    assert!(Token::Num(0.0f64.to_bits()) == Token::Num((-0.0f64).to_bits()));
    assert!(Token::Num(f64::NAN.to_bits()) != Token::Num(f64::NAN.to_bits()));
    assert!(Token::Plus.clone() == Token::Plus);
}

#[test]
fn parse_tokens_errors_are_structured() {
    let tokens = tokenize("(x").unwrap();
    match usme::parser::parse_tokens(&tokens) {
        Err(ParseError::Expected(Token::RParen, None)) => {}
        _ => panic!("expected a missing RParen"),
    }
}

// ── Simplification rules ─────────────────────────────────────────────────────

#[test]
fn simplify_constant_folding() {
    assert_eq!(simplified_text("2 + 3"), "5");
    assert_eq!(simplified_text("2 * 3"), "6");
    assert_eq!(simplified_text("2^3"), "8");
    assert_eq!(simplified_text("(1 + 2) * (3 + 4)"), "21");
    assert_eq!(simplified_text("-(2)"), "-2");
}

#[test]
fn simplify_identities() {
    assert_eq!(simplified_text("x + 0"), "x");
    assert_eq!(simplified_text("0 + x"), "x");
    assert_eq!(simplified_text("x * 1"), "x");
    assert_eq!(simplified_text("1 * x"), "x");
    assert_eq!(simplified_text("x^1"), "x");
}

#[test]
fn simplify_annihilation() {
    assert_eq!(simplified_text("x * 0"), "0");
    assert_eq!(simplified_text("0 * x"), "0");
    assert_eq!(simplified_text("x^0"), "1");
    assert_eq!(simplified_text("1^x"), "1");
    assert_eq!(simplified_text("ln(1)"), "0");
}

#[test]
fn simplify_negations() {
    assert_eq!(simplified_text("--x"), "x");
    assert_eq!(simplified_text("-0"), "0");
    assert!(simplify(&parse("-0").unwrap()) == num(0.0));
    assert_eq!(simplified_text("-(x * 0)"), "0");
}

#[test]
fn simplify_nested_reaches_fixed_point() {
    let e = parse("((x * 1) + 0) * (y^1 + 0 * z)").unwrap();
    let s = simplify(&e);
    assert_eq!(render(&s), "x * y");
    let mut table = FloatTable::new();
    let again = settle(&mut table, |t| s.simplify_once(t));
    assert!(again.identical(&s));
}

#[test]
fn simplify_keeps_unsimplifiable_terms() {
    assert_eq!(simplified_text("x + x"), "x + x");
    assert_eq!(simplified_text("sin(x)^2 + cos(x)^2"), "sin(x)^2 + cos(x)^2");
}

#[test]
fn simplify_is_idempotent_on_derivatives() {
    for input in ["x^x", "sin(x^2) / (x + cos(x))", "(x^2 + 1)^sin(x)", "ln(x) * 3"] {
        let d = simplify(&parse(input).unwrap().diff("x"));
        let dd = simplify(&d);
        assert!(d.identical(&dd), "not idempotent for {}", input);
    }
}

#[test]
fn simplify_stops_on_nan_constant() {
    let e = simplify(&parse("(0 - 1)^0.5").unwrap());
    match e {
        Expr::Num(b) => assert!(f64::from_bits(b).is_nan()),
        _ => panic!("expected a number"),
    }
}

#[test]
fn simplify_asks_for_missing_fold() {
    let table = FloatTable::new();
    let e = parse("2 + 3").unwrap();
    match e.simplify(&table) {
        Err(FloatQuery::Add(a, b)) => {
            assert_eq!(f64::from_bits(a), 2.0);
            assert_eq!(f64::from_bits(b), 3.0);
        }
        _ => panic!("expected a request for 2 + 3"),
    }
}

// ── Differentiation ──────────────────────────────────────────────────────────

#[test]
fn diff_structure_of_rules() {
    assert!(parse("5").unwrap().diff("x") == num(0.0));
    assert!(parse("y").unwrap().diff("x") == num(0.0));
    assert!(x().diff("x") == num(1.0));
    assert_eq!(render(&parse("x * y").unwrap().diff("x")), "1 * y + x * 0");
    assert_eq!(render(&parse("sin(x)").unwrap().diff("x")), "cos(x) * 1");
    assert_eq!(render(&parse("cos(x)").unwrap().diff("x")), "-(sin(x) * 1)");
    assert_eq!(render(&parse("ln(x)").unwrap().diff("x")), "1/x");
    assert_eq!(render(&parse("-x").unwrap().diff("x")), "-1");
    assert_eq!(
        render(&parse("x^y").unwrap().diff("x")),
        "x^y * (0 * ln(x) + y * 1/x)"
    );
}

#[test]
fn diff_readme_derivative() {
    let d = simplify(&parse("sin(x^2) / (x + cos(x))").unwrap().diff("x"));
    let mut vars = HashMap::new();
    vars.insert("x".to_string(), 1.5);
    let got = eval(&d, &vars).unwrap();
    let expected = parse("(2*x*cos(x^2)*(x + cos(x)) - sin(x^2)*(1 - sin(x))) / (x + cos(x))^2").unwrap();
    let want = eval(&expected, &vars).unwrap();
    assert!((got - want).abs() < 1e-9);
}

#[test]
fn diff_with_respect_to_other_variable() {
    let d = simplify(&parse("x * y^2").unwrap().diff("y"));
    let mut vars = HashMap::new();
    vars.insert("x".to_string(), 3.0);
    vars.insert("y".to_string(), 2.0);
    assert!((eval(&d, &vars).unwrap() - 12.0).abs() < 1e-12);
}

// ── Evaluation ───────────────────────────────────────────────────────────────

#[test]
fn eval_undefined_variable() {
    let e = parse("x + y").unwrap();
    let mut vars = HashMap::new();
    vars.insert("x".to_string(), 1.0);
    match eval(&e, &vars) {
        Err(EvalError::UndefinedVariable(v)) => assert_eq!(v, "y"),
        _ => panic!("expected an undefined variable"),
    }
    assert_eq!(EvalError::UndefinedVariable("y".to_string()).message(), "Variable 'y' not found");
    assert_eq!(EvalError::MathError("domain".to_string()).message(), "Math Error: domain");
}

#[test]
fn eval_reports_first_undefined_variable() {
    let e = parse("a * b + c").unwrap();
    match eval(&e, &HashMap::new()) {
        Err(EvalError::UndefinedVariable(v)) => assert_eq!(v, "a"),
        _ => panic!("expected an undefined variable"),
    }
}

#[test]
fn eval_functions() {
    let mut vars = HashMap::new();
    vars.insert("x".to_string(), 0.5);
    let v = eval(&parse("sin(x) + cos(x) * ln(x) - -x").unwrap(), &vars).unwrap();
    let want = 0.5f64.sin() + 0.5f64.cos() * 0.5f64.ln() + 0.5;
    assert_eq!(v, want);
    assert_eq!(eval(&parse("-x").unwrap(), &vars).unwrap(), -0.5);
}

#[test]
fn bindings_replace_values() {
    let mut b = Bindings::new();
    b.insert("x", 1.0f64.to_bits());
    b.insert("x", 2.0f64.to_bits());
    assert_eq!(b.get(&"x".to_string()), Some(2.0f64.to_bits()));
    assert_eq!(b.get(&"y".to_string()), None);
}

// ── Tables, operators, equality ──────────────────────────────────────────────

#[test]
fn float_table_records_and_overrides() {
    let mut t = FloatTable::new();
    assert!(t.value(FloatQuery::Ln(1)).is_err());
    t.record_value(FloatQuery::Ln(1), 7);
    t.record_value(FloatQuery::Ln(1), 9);
    t.record_text(FloatQuery::Display(1), "one".to_string());
    assert_eq!(t.value(FloatQuery::Ln(1)).ok(), Some(9));
    assert_eq!(t.text(FloatQuery::Display(1)).ok(), Some("one".to_string()));
    assert!(t.text(FloatQuery::Ln(1)).is_err());
    assert!(t.value(FloatQuery::Parse("1".to_string())).is_err());
    assert!(FloatQuery::Parse("1".to_string()).same(&FloatQuery::Parse("1".to_string())));
    assert!(!FloatQuery::Add(1, 2).same(&FloatQuery::Add(2, 1)));
}

#[test]
fn operators_build_trees() {
    let a = Expr::var("a");
    let b = Expr::var("b");
    assert_eq!(render(&(&a + &b)), "a + b");
    assert_eq!(render(&(&a - &b)), "a + -b");
    assert_eq!(render(&(&a * &b)), "a * b");
    assert_eq!(render(&(&a / &b)), "a/b");
    assert_eq!(render(&(-&a)), "-a");
    assert_eq!(render(&(a.clone() + b.clone() * a.clone())), "a + b * a");
    assert_eq!(render(&-(a.clone() - b.clone())), "-(a + -b)");
    assert_eq!(render(&(a.clone().ln().cos().sin())), "sin(cos(ln(a)))");
}

#[test]
fn expression_equality_follows_floats() {
    assert!(num(0.0) == num(-0.0));
    assert!(num(f64::NAN) != num(f64::NAN));
    assert!(!num(f64::NAN).identical(&num(-1.0)));
    assert!(num(f64::NAN).identical(&num(f64::NAN)));
    assert!(!num(0.0).identical(&num(-0.0)));
    assert!(x().deep_copy() == x());
    assert!(parse("x + 1").unwrap() != parse("1 + x").unwrap());
}

// ── Laws on concrete values ──────────────────────────────────────────────────

fn unbound(r: Result<f64, EvalError>) -> String {
    match r {
        Err(EvalError::UndefinedVariable(v)) => v,
        _ => panic!("expected an undefined variable"),
    }
}

fn nodes(e: &Expr) -> usize {
    match e {
        Expr::Num(_) | Expr::Var(_) => 1,
        Expr::Add(l, r) | Expr::Mul(l, r) | Expr::Pow(l, r) => 1 + nodes(l) + nodes(r),
        Expr::Ln(x) | Expr::Neg(x) | Expr::Sin(x) | Expr::Cos(x) => 1 + nodes(x),
    }
}

fn names(e: &Expr, out: &mut Vec<String>) {
    match e {
        Expr::Num(_) => {}
        Expr::Var(s) => {
            if !out.contains(s) {
                out.push(s.clone());
            }
        }
        Expr::Add(l, r) | Expr::Mul(l, r) | Expr::Pow(l, r) => {
            names(l, out);
            names(r, out);
        }
        Expr::Ln(x) | Expr::Neg(x) | Expr::Sin(x) | Expr::Cos(x) => names(x, out),
    }
}

fn variables(e: &Expr) -> Vec<String> {
    let mut v = Vec::new();
    names(e, &mut v);
    v.sort();
    v
}

#[test]
fn simplify_never_grows_and_adds_no_variable() {
    for input in ["x * 0 + y", "(a + 0) * (b * 1)", "sin(x)^1 + 2 * 3", "x^0 * z"] {
        let e = parse(input).unwrap();
        let s = simplify(&e);
        assert!(nodes(&s) <= nodes(&e));
        let before = variables(&e);
        for v in variables(&s) {
            assert!(before.contains(&v));
        }
    }
    assert_eq!(variables(&simplify(&parse("x * 0 + y").unwrap())), vec!["y".to_string()]);
}

#[test]
fn derivative_adds_no_variable() {
    for input in ["x^y * sin(z)", "ln(a * x) + b", "cos(x^x)"] {
        let e = parse(input).unwrap();
        let before = variables(&e);
        for v in variables(&e.diff("x")) {
            assert!(before.contains(&v));
        }
    }
    assert!(variables(&parse("y + 2").unwrap().diff("x")).is_empty());
}

#[test]
fn substitute_variable_by_itself_and_variables_after() {
    let e = parse("x * sin(y) + x^2").unwrap();
    assert!(e.substitute("x", &x()).identical(&e));
    let r = e.substitute("x", &parse("a + b").unwrap());
    assert_eq!(variables(&r), vec!["a".to_string(), "b".to_string(), "y".to_string()]);
    let unchanged = e.substitute("q", &parse("a").unwrap());
    assert!(unchanged.identical(&e));
}

#[test]
fn eval_all_bound_gives_value() {
    let e = parse("x * y + ln(x)").unwrap();
    let mut vars = HashMap::new();
    vars.insert("x".to_string(), 2.0);
    vars.insert("y".to_string(), 4.0);
    assert_eq!(eval(&e, &vars).unwrap(), 8.0 + 2.0f64.ln());
}

#[test]
fn results_do_not_change_as_the_table_grows() {
    let e = parse("(2 + 3) * x + 4^0.5").unwrap();
    let mut table = FloatTable::new();
    let first = settle(&mut table, |t| e.simplify(t));
    // Answers for unrelated queries change nothing.
    table.record_value(FloatQuery::Add(1, 2), 3);
    table.record_text(FloatQuery::Display(7), "seven".to_string());
    let again = match e.simplify(&table) {
        Ok(v) => v,
        Err(_) => panic!("a complete table must answer"),
    };
    assert!(again.identical(&first));
    assert_eq!(render(&first), "5 * x + 2");
    // A stop names a query that the table lacks.
    let empty = FloatTable::new();
    match parse("2 + 3").unwrap().simplify(&empty) {
        Err(q) => assert!(empty.value(q).is_err()),
        Ok(_) => panic!("an empty table cannot fold"),
    }
}


#[test]
fn blanks_only_separate_tokens() {
    let left = tokenize("x*2").unwrap();
    let right = tokenize("sin(y)").unwrap();
    for blanks in [" ", "\t", "\n", "\r", " \t\r\n "] {
        let joined = tokenize(&format!("x*2{}sin(y)", blanks)).unwrap();
        let mut expected = left.clone();
        expected.extend(right.clone());
        assert!(joined == expected);
    }
    assert!(tokenize("  x + 1\n").unwrap() == tokenize("x + 1").unwrap());
    // Without the blank the two runs would merge into one name.
    assert!(tokenize("ab").unwrap() == vec![Token::Var("ab".to_string())]);
    assert!(tokenize("a b").unwrap() == vec![Token::Var("a".to_string()), Token::Var("b".to_string())]);
}

#[test]
fn substitution_then_evaluation_binds_the_variable() {
    let e = parse("x * x + y").unwrap();
    let r = parse("y + 2").unwrap();
    let mut vars = HashMap::new();
    vars.insert("y".to_string(), 3.0);
    let a = eval(&r, &vars).unwrap();
    assert_eq!(a, 5.0);
    let through = eval(&e.substitute("x", &r), &vars).unwrap();
    let mut bound = vars.clone();
    bound.insert("x".to_string(), a);
    let direct = eval(&e, &bound).unwrap();
    assert_eq!(through.to_bits(), direct.to_bits());
    assert_eq!(through, 28.0);
    // An unbound variable of `e` other than `x` is reported either way.
    let g = parse("x + z").unwrap();
    assert_eq!(unbound(eval(&g.substitute("x", &r), &vars)), "z");
    assert_eq!(unbound(eval(&g, &bound)), "z");
}

#[test]
fn substituting_twice_composes_replacements() {
    let e = parse("x^2 + sin(x) * y").unwrap();
    let r1 = parse("x + 1").unwrap();
    let r2 = parse("ln(t)").unwrap();
    let twice = e.substitute("x", &r1).substitute("x", &r2);
    let composed = e.substitute("x", &r1.substitute("x", &r2));
    assert!(twice.identical(&composed));
    assert_eq!(render(&twice), "(ln(t) + 1)^2 + sin(ln(t) + 1) * y");
}

#[test]
fn evaluation_reads_only_occurring_variables() {
    let e = parse("x^2 + sin(x)").unwrap();
    let mut small = HashMap::new();
    small.insert("x".to_string(), 0.5);
    let mut large = small.clone();
    large.insert("y".to_string(), 10.0);
    large.insert("z".to_string(), -4.0);
    assert_eq!(eval(&e, &small).unwrap().to_bits(), eval(&e, &large).unwrap().to_bits());
    let g = parse("x + w").unwrap();
    assert_eq!(unbound(eval(&g, &small)), "w");
    assert_eq!(unbound(eval(&g, &large)), "w");
}

#[test]
fn printing_then_parsing_gives_the_tree_back() {
    let trees = vec![
        x().pow(Expr::var("y").pow(Expr::var("z"))),
        x().pow(Expr::var("y")).pow(Expr::var("z")),
        -(x() + num(1.0)),
        (x() + num(2.5)) * Expr::var("y").sin(),
        x() * Expr::var("y") * num(3.0) + num(0.25).ln(),
        (-x()).pow(num(2.0)),
        Expr::var("abc1").cos().pow(num(10.0)) + num(1e21),
    ];
    for e in trees {
        let text = render(&e);
        let back = parse(&text).unwrap();
        assert!(back.identical(&e), "{} did not read back", text);
    }
    assert_eq!(render(&x().pow(Expr::var("y")).pow(Expr::var("z"))), "(x^y)^z");
    assert_eq!(render(&x().pow(Expr::var("y").pow(Expr::var("z")))), "x^y^z");
}

#[test]
fn simplification_keeps_the_value() {
    let mut vars = HashMap::new();
    vars.insert("x".to_string(), 1.5);
    vars.insert("y".to_string(), -2.25);
    for input in [
        "x * 1 + 0",
        "(x + 0) * y^1",
        "ln(1) + x^0 * y",
        "-(-x) * 1^y",
        "(2 + 3) * x + 0 * y",
        "(x * y) / y",
        "sin(x * 1) / (cos(y) + 0)",
    ] {
        let e = parse(input).unwrap();
        let before = eval(&e, &vars).unwrap();
        let after = eval(&simplify(&e), &vars).unwrap();
        assert_eq!(before, after, "{}", input);
    }
    // Cancellation is exact only where the rounding of `(a * b) * b^(-1)` is.
    let mut one = HashMap::new();
    one.insert("x".to_string(), 49.0);
    one.insert("y".to_string(), 1.0);
    let e = parse("(y * x) / x").unwrap();
    assert_eq!(eval(&e, &one).unwrap(), 0.9999999999999999);
    assert_eq!(eval(&simplify(&e), &one).unwrap(), 1.0);
}

#[test]
fn rendering_under_a_parent_precedence_brackets_only_looser_nodes() {
    let table = FloatTable::new();
    let sum = parse("x + y").unwrap();
    let power = parse("x^y").unwrap();
    for (e, parent, want) in [
        (&sum, 0u8, "x + y"),
        (&sum, 1, "x + y"),
        (&sum, 2, "(x + y)"),
        (&power, 3, "x^y"),
        (&power, 4, "(x^y)"),
    ] {
        let mut out = String::from(">");
        assert!(e.format_with_precedence(parent, &table, &mut out).is_ok());
        assert_eq!(out, format!(">{}", want));
    }
    let mut out = String::new();
    let q = num(2.5).format_with_precedence(0, &table, &mut out);
    assert!(q.is_err());
}

#[test]
fn derivative_in_an_absent_variable_simplifies_to_zero() {
    for input in ["5", "-7", "y", "y^2 * sin(z) + ln(3)", "cos(y * z) + (2 + 3)^y", "-(y / z)"] {
        let d = simplify(&parse(input).unwrap().diff("x"));
        assert_eq!(render(&d), "0", "{}", input);
    }
    // A base that folds to zero has an infinite reciprocal, and the result is no number.
    assert_eq!(render(&simplify(&parse("0^y").unwrap().diff("x"))), "0^y * NaN");
}

#[test]
fn printed_numbers_are_literals_that_read_back() {
    // The premise of the print-then-parse law on numbers, for `f64` answers:
    // a finite number that is not negative prints as digits with at most one dot,
    // and that literal reads back as the same number.
    for v in [0.0, 1.0, 2.5, 0.1, 3.14, 100.0, 1e21, 1e-7, 5e-324, f64::MAX, f64::MIN_POSITIVE, 123456.789] {
        let text = render(&num(v));
        assert!(text.chars().all(|c| c.is_ascii_digit() || c == '.'), "{}", text);
        assert!(text.chars().filter(|c| *c == '.').count() <= 1);
        assert!(parse(&text).unwrap().identical(&num(v)), "{}", text);
        match tokenize(&text).unwrap().as_slice() {
            [Token::Num(bits)] => {
                let read = f64::from_bits(*bits);
                assert!(read >= 0.0 && !read.is_nan());
            }
            _ => panic!("one number token expected"),
        }
    }
}
