use elworthy::expr::{Expr, Var};
use elworthy::weight::{bind_initial_state, synthesise_scalar, synthesise_scalar_delta, Greek, SynthesisError, GENERAL_DELTA_NOTE, PARAMETER_NOTE};

fn c(x: f64) -> Expr {
    Expr::c(x.to_bits())
}

fn text(e: &Expr) -> String {
    let consts: Vec<String> = e
        .constants()
        .iter()
        .map(|b| format!("{}", f64::from_bits(*b)))
        .collect();
    e.render(&consts)
}

#[test]
fn bind_initial_replaces_state_for_gbm_sigma() {
    // sigma(X) = s * X bound at x0 = 100: param1 * 100, which is 20 at s = 0.2.
    let e = Expr::param(1) * Expr::state(0);
    let bound = bind_initial_state(&e, &[100.0f64.to_bits()]);
    assert_eq!(text(&bound), "(theta1 * 100)");
    let v = 0.2 * f64::from_bits(bound.constants()[0]);
    assert!((v - 20.0).abs() < 1e-12);
}

#[test]
fn delta_weight_coeff_dw_is_inverse_of_sigma_t() {
    let sigma0 = c(0.2) * c(100.0);
    let w = synthesise_scalar_delta(sigma0, c(1.0));
    assert_eq!(text(&w.coeff_dw), "((1^-1) * ((0.2 * 100)^-1))");
    assert_eq!(text(&w.coeff_dt), "0");
    let k = w.coeff_dw.constants();
    let v = (1.0 / f64::from_bits(k[0])) * (1.0 / (f64::from_bits(k[1]) * f64::from_bits(k[2])));
    assert!((v - 0.05).abs() < 1e-12, "coeff_dw folded to {v}");
}

#[test]
fn bind_keeps_other_variables_and_binds_every_state() {
    let e = (Expr::state(1) + Expr::time()) * Expr::state(0).pow(2) + Expr::dw(0);
    let bound = bind_initial_state(&e, &[3.0f64.to_bits(), 4.0f64.to_bits()]);
    assert_eq!(text(&bound), "(((4 + t) * (3^2)) + dW0)");
    let again = bind_initial_state(&bound, &[]);
    assert_eq!(text(&again), text(&bound));
}

#[test]
fn general_synthesis_is_not_implemented() {
    let s = Expr::state(0);
    let m = Expr::state(0);
    let r = synthesise_scalar(&s, &m, Greek::Delta { state_index: 0 }, c(1.0));
    assert_eq!(r.err(), Some(SynthesisError::NotYetImplemented(GENERAL_DELTA_NOTE)));
    let r = synthesise_scalar(&s, &m, Greek::Parameter { param_index: 1 }, c(1.0));
    assert_eq!(r.err(), Some(SynthesisError::NotYetImplemented(PARAMETER_NOTE)));
    assert_eq!(PARAMETER_NOTE, "parameter Greeks require tangent-flow synthesis");
    let _ = Var::Weight;
}
