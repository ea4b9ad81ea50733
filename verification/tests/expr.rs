use elworthy::diff::diff;
use elworthy::expr::{Expr, Fun, Var};
use elworthy::float_bits::f64_bits_from_i32;
use elworthy::text::push_decimal;

fn c(x: f64) -> Expr {
    Expr::c(x.to_bits())
}

/// The text of an expression, constants written as `{}` writes an `f64`.
fn text(e: &Expr) -> String {
    let consts: Vec<String> = e
        .constants()
        .iter()
        .map(|b| format!("{}", f64::from_bits(*b)))
        .collect();
    e.render(&consts)
}

#[test]
fn gbm_drift_prints() {
    let mu = Expr::param(0);
    let x = Expr::state(0);
    let drift = mu * x;
    assert_eq!(text(&drift), "(theta0 * x0)");
}

#[test]
fn heston_volofvol_term_prints() {
    let v = Expr::state(1);
    let xi = Expr::param(2);
    let term = xi * v.apply(Fun::Sqrt);
    assert_eq!(text(&term), "(theta2 * sqrt(x1))");
}

#[test]
fn d_gbm_drift_dx() {
    let drift = Expr::param(0) * Expr::state(0);
    let d = diff(&drift, &Var::State(0));
    assert_eq!(text(&d), "((0 * x0) + (theta0 * 1))");
}

#[test]
fn sub_and_neg_are_written_with_minus_one() {
    let e = Expr::state(0) - Expr::param(1);
    assert_eq!(text(&e), "(x0 + (-1 * theta1))");
    let n = -Expr::time();
    assert_eq!(text(&n), "(-1 * t)");
}

#[test]
fn var_names() {
    assert_eq!(Var::State(12).name(), "x12");
    assert_eq!(Var::Time.name(), "t");
    assert_eq!(Var::Param(0).name(), "theta0");
    assert_eq!(Var::DW(7).name(), "dW7");
    assert_eq!(Var::Weight.name(), "pi");
}

#[test]
fn renders_powers_and_every_function() {
    let x = Expr::state(0);
    assert_eq!(text(&x.clone().pow(-3)), "(x0^-3)");
    assert_eq!(text(&x.clone().apply(Fun::Exp)), "exp(x0)");
    assert_eq!(text(&x.clone().apply(Fun::Log)), "log(x0)");
    assert_eq!(text(&x.clone().apply(Fun::Sin)), "sin(x0)");
    assert_eq!(text(&x.clone().apply(Fun::Cos)), "cos(x0)");
    assert_eq!(text(&(c(2.5) + Expr::dw(1)).pow(2)), "((2.5 + dW1)^2)");
}

#[test]
fn constants_are_listed_left_to_right() {
    let e = (c(1.0) + Expr::state(0)) * (c(-0.0) + c(3.0));
    assert_eq!(
        e.constants(),
        vec![1.0f64.to_bits(), (-0.0f64).to_bits(), 3.0f64.to_bits()]
    );
}

#[test]
fn integer_coefficients_are_exact_doubles() {
    for n in [0i32, 1, -1, 2, 3, -7, 1000, 123_456_789, i32::MAX, i32::MIN, i32::MIN + 1] {
        assert_eq!(f64_bits_from_i32(n), (n as f64).to_bits(), "n = {}", n);
    }
}

#[test]
fn power_rule_coefficient_is_the_exponent() {
    let e = Expr::state(0).pow(3);
    let d = diff(&e, &Var::State(0));
    assert_eq!(text(&d), "((3 * (x0^2)) * 1)");
    let e = Expr::state(0).pow(-2);
    let d = diff(&e, &Var::Param(0));
    assert_eq!(text(&d), "((-2 * (x0^-3)) * 0)");
}

#[test]
fn chain_rule_for_each_function() {
    let x = Expr::state(0);
    let wrt = Var::State(0);
    assert_eq!(text(&diff(&x.clone().apply(Fun::Exp), &wrt)), "(exp(x0) * 1)");
    assert_eq!(text(&diff(&x.clone().apply(Fun::Log), &wrt)), "((1 * (x0^-1)) * 1)");
    assert_eq!(text(&diff(&x.clone().apply(Fun::Sin), &wrt)), "(cos(x0) * 1)");
    assert_eq!(text(&diff(&x.clone().apply(Fun::Cos), &wrt)), "((-1 * sin(x0)) * 1)");
    assert_eq!(
        text(&diff(&x.clone().apply(Fun::Sqrt), &wrt)),
        "((0.5 * (sqrt(x0)^-1)) * 1)"
    );
}

#[test]
fn derivative_of_a_sum_and_of_other_variables() {
    let e = Expr::state(0) + Expr::time();
    assert_eq!(text(&diff(&e, &Var::Time)), "(0 + 1)");
    assert_eq!(text(&diff(&c(4.0), &Var::Time)), "0");
}

#[test]
fn decimal_digits() {
    let mut s = String::new();
    push_decimal(&mut s, 0);
    push_decimal(&mut s, 18_446_744_073_709_551_615);
    assert_eq!(s, "018446744073709551615");
}
