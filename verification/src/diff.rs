//! Symbolic differentiation of expression trees.
//!
//! The derivative is not simplified: constant folding and identity rules
//! are left to later stages.
use crate::expr::{
    add_of, fun_of, mul_of, node, occurs, pow_of, Expr, Fun, Var, F64_HALF, F64_NEG_ONE, F64_ONE,
    F64_ZERO,
};
use crate::float_bits::{
    denoted_int, f64_bits_from_i32, f64_denotes_int, lemma_denoted_int, lemma_f64_int_encoding_unique,
    lemma_i32_has_f64_encoding, lemma_zero_and_one,
};
use std::sync::Arc;
use vstd::prelude::*;

verus! {

/// Every `Pow` exponent of `e` is above `i32::MIN`, so that the exponent
/// `n - 1` of its derivative exists.
pub open spec fn pow_exponents_ok(e: Expr) -> bool
    decreases e,
{
    match e {
        Expr::Const(_) => true,
        Expr::Var(_) => true,
        Expr::Add(a, b) => pow_exponents_ok(*a) && pow_exponents_ok(*b),
        Expr::Mul(a, b) => pow_exponents_ok(*a) && pow_exponents_ok(*b),
        Expr::Pow(a, n) => n > i32::MIN && pow_exponents_ok(*a),
        Expr::Fun(_, a) => pow_exponents_ok(*a),
    }
}

/// The outer derivative `f'(a)` of a function application.
pub open spec fn outer_derivative(f: Fun, a: Expr) -> Expr {
    match f {
        Fun::Exp => fun_of(Fun::Exp, a),
        Fun::Log => mul_of(Expr::Const(F64_ONE), pow_of(a, -1i32)),
        Fun::Sin => fun_of(Fun::Cos, a),
        Fun::Cos => mul_of(Expr::Const(F64_NEG_ONE), fun_of(Fun::Sin, a)),
        Fun::Sqrt => mul_of(Expr::Const(F64_HALF), pow_of(fun_of(Fun::Sqrt, a), -1i32)),
    }
}

/// The derivative of `e` with respect to `wrt`, rule by rule: constants
/// give 0, a variable gives 1 or 0, sums and products follow the sum and
/// product rules, `a^n` gives `n * a^(n-1) * a'`, and `f(a)` gives
/// `f'(a) * a'`. `coef(n)` is the constant that stands for `n`.
pub open spec fn spec_diff(e: Expr, wrt: Var, coef: spec_fn(i32) -> u64) -> Expr
    decreases e,
{
    match e {
        Expr::Const(_) => Expr::Const(F64_ZERO),
        Expr::Var(v) => if v == wrt {
            Expr::Const(F64_ONE)
        } else {
            Expr::Const(F64_ZERO)
        },
        Expr::Add(a, b) => add_of(spec_diff(*a, wrt, coef), spec_diff(*b, wrt, coef)),
        Expr::Mul(a, b) => add_of(
            mul_of(spec_diff(*a, wrt, coef), *b),
            mul_of(*a, spec_diff(*b, wrt, coef)),
        ),
        Expr::Pow(a, n) => mul_of(
            mul_of(Expr::Const(coef(n)), pow_of(*a, (n - 1) as i32)),
            spec_diff(*a, wrt, coef),
        ),
        Expr::Fun(f, a) => mul_of(outer_derivative(f, *a), spec_diff(*a, wrt, coef)),
    }
}

/// The coefficients that `diff` writes: `n` as an `f64`.
pub open spec fn i32_coefficient() -> spec_fn(i32) -> u64 {
    |n: i32| choose|b: u64| f64_denotes_int(b, n as int)
}

/// The derivative of `e` with respect to `wrt`, with each power-rule
/// coefficient `n` written as the exact `f64` value `n`.
pub open spec fn derivative(e: Expr, wrt: Var) -> Expr {
    spec_diff(e, wrt, i32_coefficient())
}

proof fn lemma_spec_diff_vars(e: Expr, wrt: Var, coef: spec_fn(i32) -> u64, v: Var)
    ensures
        occurs(v, spec_diff(e, wrt, coef)) ==> occurs(v, e),
    decreases e,
{
    reveal_with_fuel(occurs, 4);
    match e {
        Expr::Const(_) => {},
        Expr::Var(_) => {},
        Expr::Add(a, b) => {
            lemma_spec_diff_vars(node(a), wrt, coef, v);
            lemma_spec_diff_vars(node(b), wrt, coef, v);
        },
        Expr::Mul(a, b) => {
            lemma_spec_diff_vars(node(a), wrt, coef, v);
            lemma_spec_diff_vars(node(b), wrt, coef, v);
        },
        Expr::Pow(a, _) => {
            lemma_spec_diff_vars(node(a), wrt, coef, v);
        },
        Expr::Fun(_, a) => {
            lemma_spec_diff_vars(node(a), wrt, coef, v);
        },
    }
}

/// Differentiation introduces no variable: every variable that occurs in
/// the derivative of `e` already occurs in `e`.
pub proof fn lemma_derivative_introduces_no_variable(e: Expr, wrt: Var, v: Var)
    ensures
        occurs(v, derivative(e, wrt)) ==> occurs(v, e),
{
    lemma_spec_diff_vars(e, wrt, i32_coefficient(), v);
}

/// Whether every `Pow` exponent of `e` is above `i32::MIN`, so that `e`
/// can be differentiated.
pub fn pow_exponents_in_range(e: &Expr) -> (r: bool)
    ensures
        r == pow_exponents_ok(*e),
    decreases e,
{
    match e {
        Expr::Const(_) => true,
        Expr::Var(_) => true,
        Expr::Add(a, b) => pow_exponents_in_range(a) && pow_exponents_in_range(b),
        Expr::Mul(a, b) => pow_exponents_in_range(a) && pow_exponents_in_range(b),
        Expr::Pow(a, n) => *n > i32::MIN && pow_exponents_in_range(a),
        Expr::Fun(_, a) => pow_exponents_in_range(a),
    }
}

/// The bit pattern of `n as f64`, the coefficient of the power rule.
fn coefficient(n: i32) -> (r: u64)
    ensures
        r == (i32_coefficient())(n),
{
    let r = f64_bits_from_i32(n);
    proof {
        let b = choose|b: u64| f64_denotes_int(b, n as int);
        assert(f64_denotes_int(b, n as int));
        lemma_f64_int_encoding_unique(r, b, n as int);
    }
    r
}

/// Differentiate `expr` with respect to the variable `wrt`.
pub fn diff(expr: &Expr, wrt: &Var) -> (r: Expr)
    requires
        pow_exponents_ok(*expr),
    ensures
        r == derivative(*expr, *wrt),
    decreases expr,
{
    match expr {
        Expr::Const(_) => Expr::c(F64_ZERO),
        Expr::Var(v) => {
            if *v == *wrt {
                Expr::c(F64_ONE)
            } else {
                Expr::c(F64_ZERO)
            }
        },
        Expr::Add(a, b) => diff(a, wrt) + diff(b, wrt),
        Expr::Mul(a, b) => {
            let da = diff(a, wrt);
            let db = diff(b, wrt);
            da * (**b).duplicate() + (**a).duplicate() * db
        },
        Expr::Pow(a, n) => {
            let coef = Expr::c(coefficient(*n));
            coef * (**a).duplicate().pow(*n - 1) * diff(a, wrt)
        },
        Expr::Fun(f, a) => {
            let da = diff(a, wrt);
            let inner = (**a).duplicate();
            let outer = match f {
                Fun::Exp => Expr::Fun(Fun::Exp, Arc::new(inner)),
                Fun::Log => Expr::c(F64_ONE) * inner.pow(-1),
                Fun::Sin => Expr::Fun(Fun::Cos, Arc::new(inner)),
                Fun::Cos => Expr::c(F64_NEG_ONE) * Expr::Fun(Fun::Sin, Arc::new(inner)),
                Fun::Sqrt => Expr::c(F64_HALF) * Expr::Fun(Fun::Sqrt, Arc::new(inner)).pow(-1),
            };
            outer * da
        },
    }
}

/// `x` to the power `n`, by repeated multiplication.
pub open spec fn int_pow(x: int, n: nat) -> int
    decreases n,
{
    if n == 0 {
        1
    } else {
        int_pow(x, (n - 1) as nat) * x
    }
}

/// `e` is a polynomial: it applies no function and raises only to
/// exponents of at least 0.
pub open spec fn is_polynomial(e: Expr) -> bool
    decreases e,
{
    match e {
        Expr::Const(_) => true,
        Expr::Var(_) => true,
        Expr::Add(a, b) => is_polynomial(*a) && is_polynomial(*b),
        Expr::Mul(a, b) => is_polynomial(*a) && is_polynomial(*b),
        Expr::Pow(a, n) => n >= 0 && is_polynomial(*a),
        Expr::Fun(_, _) => false,
    }
}

/// The value of `e` over the integers: each variable takes its value from
/// `env`, each constant is the integer its bit pattern denotes, and a
/// power is repeated multiplication (a negative power, which no polynomial
/// has, is read as 0).
pub open spec fn int_value(e: Expr, env: spec_fn(Var) -> int) -> int
    decreases e,
{
    match e {
        Expr::Const(b) => denoted_int(b),
        Expr::Var(v) => env(v),
        Expr::Add(a, b) => int_value(*a, env) + int_value(*b, env),
        Expr::Mul(a, b) => int_value(*a, env) * int_value(*b, env),
        Expr::Pow(a, n) => if n >= 0 {
            int_pow(int_value(*a, env), n as nat)
        } else {
            0
        },
        Expr::Fun(_, _) => 0,
    }
}

/// `env` with the variable `wrt` moved by `h`.
pub open spec fn shifted(env: spec_fn(Var) -> int, wrt: Var, h: int) -> spec_fn(Var) -> int {
    |v: Var| if v == wrt { env(v) + h } else { env(v) }
}

/// `(x + h u)^n` is `x^n + h u n x^(n-1)` plus a multiple of `h^2`.
proof fn lemma_pow_first_order(x: int, u: int, h: int, n: nat) -> (r: int)
    ensures
        int_pow(x + h * u, n) == int_pow(x, n) + h * u * (if n == 0 { 0 } else { n * int_pow(x, (n - 1) as nat) })
            + h * h * r,
    decreases n,
{
    if n == 0 {
        0
    } else {
        let m = (n - 1) as nat;
        let r0 = lemma_pow_first_order(x, u, h, m);
        let p = int_pow(x, m);
        let c0: int = if m == 0 { 0 } else { m * int_pow(x, (m - 1) as nat) };
        assert(c0 * x + p == n * p) by {
            assert(m * p + p == n * p) by (nonlinear_arith)
                requires
                    n == m + 1,
            ;
            if m > 0 {
                assert(int_pow(x, m) == int_pow(x, (m - 1) as nat) * x);
                assert(c0 * x == m * p) by (nonlinear_arith)
                    requires
                        c0 == m * int_pow(x, (m - 1) as nat),
                        p == int_pow(x, (m - 1) as nat) * x,
                ;
            }
        }
        let y = x + h * u;
        assert(int_pow(y, n) == int_pow(y, m) * y);
        assert(int_pow(x, n) == p * x);
        let hu = h * u;
        let k = h * h * r0;
        let s1 = p + hu * c0;
        vstd::arithmetic::mul::lemma_mul_is_distributive_add_other_way(x + hu, s1, k);
        vstd::arithmetic::mul::lemma_mul_is_distributive_add_other_way(x + hu, p, hu * c0);
        vstd::arithmetic::mul::lemma_mul_is_distributive_add(p, x, hu);
        vstd::arithmetic::mul::lemma_mul_is_distributive_add(hu * c0, x, hu);
        vstd::arithmetic::mul::lemma_mul_is_distributive_add(k, x, hu);
        assert((hu * c0) * x + p * hu == hu * (n * p)) by (nonlinear_arith)
            requires
                c0 * x + p == n * p,
        ;
        assert((hu * c0) * hu == h * h * (u * u * c0)) by (nonlinear_arith)
            requires
                hu == h * u,
        ;
        assert(k * x == h * h * (r0 * x)) by (nonlinear_arith)
            requires
                k == h * h * r0,
        ;
        assert(k * hu == h * h * (h * r0 * u)) by (nonlinear_arith)
            requires
                k == h * h * r0,
                hu == h * u,
        ;
        let r = u * u * c0 + r0 * x + h * r0 * u;
        assert(h * h * (u * u * c0) + h * h * (r0 * x) + h * h * (h * r0 * u) == h * h * r) by (nonlinear_arith)
            requires
                r == u * u * c0 + r0 * x + h * r0 * u,
        ;
        assert(int_pow(y, m) == s1 + k);
        r
    }
}

/// The derivative is the first-order term of a polynomial: moving `wrt`
/// by any integer `h` changes the value of `e` by `h` times the value of
/// its derivative, plus a multiple of `h^2` (the `q` returned). Since this
/// holds for every `h`, it fixes the value of the derivative at every
/// point; the chain rule through sums, products and powers of any base is
/// part of it.
pub proof fn lemma_derivative_is_first_order_term(e: Expr, wrt: Var, env: spec_fn(Var) -> int, h: int) -> (q: int)
    requires
        is_polynomial(e),
    ensures
        int_value(e, shifted(env, wrt, h)) == int_value(e, env) + h * int_value(derivative(e, wrt), env)
            + h * h * q,
    decreases e,
{
    lemma_zero_and_one();
    let env1 = shifted(env, wrt, h);
    match e {
        Expr::Const(_) => {
            assert(int_value(derivative(e, wrt), env) == 0);
            assert(h * 0 + h * h * 0 == 0) by (nonlinear_arith);
            0
        },
        Expr::Var(v) => {
            if v == wrt {
                assert(int_value(derivative(e, wrt), env) == 1);
            } else {
                assert(int_value(derivative(e, wrt), env) == 0);
            }
            assert(h * 0 + h * h * 0 == 0) by (nonlinear_arith);
            assert(h * 1 + h * h * 0 == h) by (nonlinear_arith);
            0
        },
        Expr::Add(a, b) => {
            let qa = lemma_derivative_is_first_order_term(node(a), wrt, env, h);
            let qb = lemma_derivative_is_first_order_term(node(b), wrt, env, h);
            assert(h * h * qa + h * h * qb == h * h * (qa + qb)) by (nonlinear_arith);
            assert(h * int_value(derivative(node(a), wrt), env) + h * int_value(derivative(node(b), wrt), env)
                == h * (int_value(derivative(node(a), wrt), env) + int_value(derivative(node(b), wrt), env)))
                by (nonlinear_arith);
            qa + qb
        },
        Expr::Mul(a, b) => {
            let qa = lemma_derivative_is_first_order_term(node(a), wrt, env, h);
            let qb = lemma_derivative_is_first_order_term(node(b), wrt, env, h);
            let aa = int_value(node(a), env);
            let bb = int_value(node(b), env);
            let da = int_value(derivative(node(a), wrt), env);
            let db = int_value(derivative(node(b), wrt), env);
            let a1 = int_value(node(a), env1);
            let b1 = int_value(node(b), env1);
            reveal_with_fuel(int_value, 3);
            let xa = h * da + h * h * qa;
            let yb = h * db + h * h * qb;
            vstd::arithmetic::mul::lemma_mul_is_distributive_add_other_way(bb + yb, aa, xa);
            vstd::arithmetic::mul::lemma_mul_is_distributive_add(aa, bb, yb);
            vstd::arithmetic::mul::lemma_mul_is_distributive_add(xa, bb, yb);
            assert(aa * yb == h * (aa * db) + h * h * (aa * qb)) by (nonlinear_arith)
                requires
                    yb == h * db + h * h * qb,
            ;
            assert(xa * bb == h * (da * bb) + h * h * (qa * bb)) by (nonlinear_arith)
                requires
                    xa == h * da + h * h * qa,
            ;
            vstd::arithmetic::mul::lemma_mul_is_distributive_add_other_way(yb, h * da, h * h * qa);
            assert((h * da) * yb == h * h * (da * db) + h * h * (h * (da * qb))) by (nonlinear_arith)
                requires
                    yb == h * db + h * h * qb,
            ;
            assert((h * h * qa) * yb == h * h * (h * (qa * db)) + h * h * (h * h * (qa * qb))) by (nonlinear_arith)
                requires
                    yb == h * db + h * h * qb,
            ;
            let q = da * db + h * (da * qb) + h * (qa * db) + h * h * (qa * qb) + aa * qb + qa * bb;
            assert(h * h * (da * db) + h * h * (h * (da * qb)) + h * h * (h * (qa * db)) + h * h * (h * h * (qa
                * qb)) + h * h * (aa * qb) + h * h * (qa * bb) == h * h * q) by (nonlinear_arith)
                requires
                    q == da * db + h * (da * qb) + h * (qa * db) + h * h * (qa * qb) + aa * qb + qa * bb,
            ;
            assert(h * (da * bb) + h * (aa * db) == h * (da * bb + aa * db)) by (nonlinear_arith);
            assert(int_value(e, env1) == a1 * b1);
            assert(int_value(derivative(e, wrt), env) == da * bb + aa * db);
            q
        },
        Expr::Pow(a, n) => {
            let qa = lemma_derivative_is_first_order_term(node(a), wrt, env, h);
            let aa = int_value(node(a), env);
            let da = int_value(derivative(node(a), wrt), env);
            let a1 = int_value(node(a), env1);
            let u = da + h * qa;
            assert(a1 == aa + h * u) by (nonlinear_arith)
                requires
                    a1 == aa + h * da + h * h * qa,
                    u == da + h * qa,
            ;
            let nn = n as nat;
            let r = lemma_pow_first_order(aa, u, h, nn);
            let c: int = if nn == 0 { 0 } else { nn * int_pow(aa, (nn - 1) as nat) };
            lemma_i32_has_f64_encoding(n);
            lemma_denoted_int((i32_coefficient())(n), n as int);
            reveal_with_fuel(int_value, 3);
            let coef_b = (i32_coefficient())(n);
            let lower = pow_of(node(a), (n - 1) as i32);
            assert(derivative(e, wrt) == mul_of(mul_of(Expr::Const(coef_b), lower), derivative(node(a), wrt)));
            let dv = int_value(derivative(e, wrt), env);
            let lv = int_value(lower, env);
            assert(dv == denoted_int(coef_b) * lv * da);
            assert(dv == c * da) by {
                if n == 0 {
                    assert(denoted_int(coef_b) == 0);
                    assert(c == 0);
                    assert(0 * lv * da == 0) by (nonlinear_arith);
                } else {
                    assert(((n - 1) as i32) as nat == nn - 1);
                    assert(lv == int_pow(aa, (nn - 1) as nat));
                    assert(denoted_int(coef_b) == nn);
                }
            }
            assert(int_value(e, env1) == int_pow(a1, nn));
            assert(int_value(e, env) == int_pow(aa, nn));
            let q = qa * c + r;
            assert(h * u * c + h * h * r == h * dv + h * h * q) by (nonlinear_arith)
                requires
                    dv == c * da,
                    u == da + h * qa,
                    q == qa * c + r,
            ;
            q
        },
        Expr::Fun(_, _) => 0,
    }
}

/// `h^2 q`, a multiple of the square of `h`.
pub open spec fn square_multiple(h: int, q: int) -> int {
    h * h * q
}

/// `vals(h)` is `v0` plus `h` times `d` plus a multiple of `h^2`.
pub open spec fn has_first_order_term(vals: spec_fn(int) -> int, v0: int, d: int, h: int) -> bool {
    exists|q: int| vals(h) == v0 + h * d + #[trigger] square_multiple(h, q)
}

/// The first-order term is unique: if, for every `h`, `vals(h)` is `v0`
/// plus `h` times `d` plus a multiple of `h^2`, then `d` is determined.
/// With `lemma_derivative_is_first_order_term` this makes the value of the
/// derivative the only number that can stand there.
pub proof fn lemma_first_order_term_unique(v0: int, vals: spec_fn(int) -> int, d1: int, d2: int)
    requires
        forall|h: int| #[trigger] has_first_order_term(vals, v0, d1, h),
        forall|h: int| #[trigger] has_first_order_term(vals, v0, d2, h),
    ensures
        d1 == d2,
{
    let d = d1 - d2;
    let h: int = if d >= 0 { d + 1 } else { 1 - d };
    assert(has_first_order_term(vals, v0, d1, h));
    assert(has_first_order_term(vals, v0, d2, h));
    let q1 = choose|q: int| vals(h) == v0 + h * d1 + #[trigger] square_multiple(h, q);
    let q2 = choose|q: int| vals(h) == v0 + h * d2 + #[trigger] square_multiple(h, q);
    assert(square_multiple(h, q1) == h * h * q1 && square_multiple(h, q2) == h * h * q2);
    assert(d == h * (q2 - q1)) by (nonlinear_arith)
        requires
            v0 + h * d1 + h * h * q1 == v0 + h * d2 + h * h * q2,
            h > 0,
            d == d1 - d2,
    ;
    assert(d == 0) by (nonlinear_arith)
        requires
            d == h * (q2 - q1),
            h > 0,
            h > d,
            h > -d,
    ;
}

/// The values of `e` as `wrt` is moved by each `k` away from `env`.
pub open spec fn moved_values(e: Expr, wrt: Var, env: spec_fn(Var) -> int) -> spec_fn(int) -> int {
    |k: int| int_value(e, shifted(env, wrt, k))
}

/// The value of the derivative of a polynomial at a point is exactly its
/// first-order term there: a number `d` such that moving `wrt` by any `h`
/// changes the value of `e` by `h d` plus a multiple of `h^2` is the value
/// of `derivative(e, wrt)`, and that value is such a number.
pub proof fn lemma_derivative_is_the_first_order_term(e: Expr, wrt: Var, env: spec_fn(Var) -> int, d: int)
    requires
        is_polynomial(e),
    ensures
        (forall|h: int|
            #[trigger] has_first_order_term(moved_values(e, wrt, env), int_value(e, env), d, h))
            <==> d == int_value(derivative(e, wrt), env),
{
    let vals = moved_values(e, wrt, env);
    let v0 = int_value(e, env);
    let dv = int_value(derivative(e, wrt), env);
    assert forall|h: int| #[trigger] has_first_order_term(vals, v0, dv, h) by {
        let q = lemma_derivative_is_first_order_term(e, wrt, env, h);
        assert(vals(h) == v0 + h * dv + square_multiple(h, q));
    }
    if forall|h: int| #[trigger] has_first_order_term(vals, v0, d, h) {
        lemma_first_order_term_unique(v0, vals, d, dv);
    }
}

} // verus!
