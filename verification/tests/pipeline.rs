use elworthy::diff::diff;
use elworthy::expr::{Expr, Fun, Var};
use std::collections::HashMap;

/// Floating-point value of `e` under `env`; unknown variables read zero.
fn value(e: &Expr, env: &HashMap<Var, f64>) -> f64 {
    match e {
        Expr::Const(x) => f64::from_bits(*x),
        Expr::Var(v) => env.get(v).copied().unwrap_or(0.0),
        Expr::Add(a, b) => value(a, env) + value(b, env),
        Expr::Mul(a, b) => value(a, env) * value(b, env),
        Expr::Pow(a, n) => value(a, env).powi(*n),
        Expr::Fun(f, a) => {
            let x = value(a, env);
            match f {
                Fun::Exp => x.exp(),
                Fun::Log => x.ln(),
                Fun::Sin => x.sin(),
                Fun::Cos => x.cos(),
                Fun::Sqrt => x.sqrt(),
            }
        }
    }
}

#[test]
fn diff_then_eval_matches_hand_derivative() {
    let f = Expr::state(0).pow(2);
    let df = diff(&f, &Var::State(0));
    let mut env = HashMap::new();
    env.insert(Var::State(0), 3.0);
    // 2 * x^1 * 1 == 6 at x = 3.
    assert!((value(&df, &env) - 6.0).abs() < 1e-10);
}

#[test]
fn derivative_of_heston_drift_by_variance_is_minus_kappa() {
    // d/dv [kappa * (theta - v)] = -kappa
    let kappa = Expr::param(0);
    let theta = Expr::param(1);
    let v = Expr::state(1);
    let drift = kappa * (theta - v);
    let d = diff(&drift, &Var::State(1));
    let mut env = HashMap::new();
    env.insert(Var::Param(0), 2.0);
    env.insert(Var::Param(1), 0.04);
    env.insert(Var::State(1), 0.09);
    assert!((value(&d, &env) + 2.0).abs() < 1e-12);
}

#[test]
fn derivative_of_exp_sqrt_chain() {
    // d/dx exp(sqrt(x)) = exp(sqrt(x)) / (2 sqrt(x))
    let e = Expr::state(0).apply(Fun::Sqrt).apply(Fun::Exp);
    let d = diff(&e, &Var::State(0));
    let mut env = HashMap::new();
    env.insert(Var::State(0), 4.0);
    let expected = 2.0f64.exp() / 4.0;
    assert!((value(&d, &env) - expected).abs() < 1e-12);
}
