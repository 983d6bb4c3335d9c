use std::collections::BTreeMap;

use arris_debug::expr::{parse, Expr, ExprError, Func};

fn params() -> BTreeMap<String, f64> {
    [("R", 35.0), ("r", 3.0), ("t", 10.0)]
        .into_iter()
        .map(|(k, v)| (k.to_string(), v))
        .collect()
}

fn eval(text: &str, p: &BTreeMap<String, f64>) -> Result<f64, ExprError> {
    let names: Vec<String> = p.keys().cloned().collect();
    Ok(value(&parse(text, &names)?, p))
}

fn value(e: &Expr, p: &BTreeMap<String, f64>) -> f64 {
    match e {
        Expr::Number(s) => s.parse().unwrap(),
        Expr::Param(n) => p[n],
        Expr::Pi => std::f64::consts::PI,
        Expr::Neg(a) => -value(a, p),
        Expr::Add(a, b) => value(a, p) + value(b, p),
        Expr::Sub(a, b) => value(a, p) - value(b, p),
        Expr::Mul(a, b) => value(a, p) * value(b, p),
        Expr::Div(a, b) => value(a, p) / value(b, p),
        Expr::Pow(a, b) => value(a, p).powf(value(b, p)),
        Expr::Call(f, a) => {
            let x = value(a, p);
            match f {
                Func::Sin => x.sin(),
                Func::Cos => x.cos(),
                Func::Tan => x.tan(),
                Func::Sqrt => x.sqrt(),
                Func::Radians => x.to_radians(),
                Func::Degrees => x.to_degrees(),
                Func::Abs => x.abs(),
            }
        }
    }
}

#[test]
fn evaluates_the_recipe_expressions() {
    let p = params();
    assert_eq!(eval("50 + R * cos(radians(0))", &p), Ok(85.0));
    assert!((eval("50 + R * cos(radians(45))", &p).unwrap() - (50.0 + 35.0 * 0.5_f64.sqrt())).abs() < 1e-12);
    assert_eq!(
        eval("100 * 100 * t - 8 * pi * r * r * t", &p),
        Ok(100000.0 - 8.0 * std::f64::consts::PI * 90.0)
    );
    assert_eq!(eval("-t + 2", &p), Ok(-8.0));
    assert_eq!(eval("2 ^ 3 ^ 1", &p), Ok(8.0));
    assert_eq!(eval("(1 + 2) * 3", &p), Ok(9.0));
    assert_eq!(eval("1e-3 * 1000", &p), Ok(1.0));
    assert_eq!(eval("sqrt(16) / 2", &p), Ok(2.0));
}

#[test]
fn errors_name_the_problem() {
    let p = params();
    assert!(matches!(eval("x + 1", &p), Err(ExprError::UnknownName { name, .. }) if name == "x"));
    assert!(matches!(eval("foo(1)", &p), Err(ExprError::UnknownFunction { name, arity: 1, .. }) if name == "foo"));
    assert!(matches!(eval("1 +", &p), Err(ExprError::Unexpected { .. })));
    assert!(matches!(eval("(1", &p), Err(ExprError::Unexpected { .. })));
    assert!(matches!(eval("1 2", &p), Err(ExprError::Unexpected { at: 2, .. })));
}

#[test]
fn an_error_is_placed_and_quoted() {
    let names = vec!["R".to_string()];
    let e = parse("1 + ", &names).unwrap_err();
    assert_eq!(e, ExprError::Unexpected { text: "1 + ".into(), at: 4, found: "end".into() });
    assert_eq!(e.message(), "unexpected \"end\" at 4 in \"1 + \"");
    let e = parse("1.2.3", &names).unwrap_err();
    assert_eq!(e, ExprError::Unexpected { text: "1.2.3".into(), at: 0, found: "1.2.3".into() });
    let e = parse("é", &names).unwrap_err();
    assert_eq!(e, ExprError::Unexpected { text: "é".into(), at: 0, found: "é".into() });
    let e = parse("sin(1, 2)", &names).unwrap_err();
    assert_eq!(e.message(), "unknown function \"sin\"/2 in \"sin(1, 2)\"");
    assert_eq!(parse("f()", &names).unwrap_err(), ExprError::UnknownFunction { text: "f()".into(), name: "f".into(), arity: 0 });
}

#[test]
fn a_tree_keeps_its_numbers_as_written() {
    let names = vec!["pi".to_string()];
    assert_eq!(parse(" 2.5e+3 ", &names), Ok(Expr::Number("2.5e+3".into())));
    assert_eq!(parse("1e", &names).unwrap_err(), ExprError::Unexpected { text: "1e".into(), at: 1, found: "e".into() });
    assert_eq!(parse("pi", &names), Ok(Expr::Param("pi".into())));
    assert_eq!(parse("pi", &[]), Ok(Expr::Pi));
    assert_eq!(parse("+-1", &[]), Ok(Expr::Neg(Box::new(Expr::Number("1".into())))));
}
