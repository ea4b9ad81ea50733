//! Bismut-Elworthy-Li weight synthesis.
//!
//! For an SDE `dX = mu dt + sigma dW` and a Greek, synthesis produces a
//! symbolic integrand: the driver accumulates
//! `pi_{k+1} = pi_k + coeff_dt * dt + coeff_dw * dW_k` along each path,
//! and `E[f(X_T) * pi_T]` estimates the Greek.
use crate::expr::{mul_of, node, occurs, pow_of, Expr, Var, F64_ZERO};
use std::sync::Arc;
use vstd::prelude::*;

verus! {

/// The note of the general scalar delta, which synthesis does not cover.
pub const GENERAL_DELTA_NOTE: &'static str = "general scalar delta: use synthesise_scalar_delta for constant-flow, or euler_scalar_jit_delta_tangent for general tangent-flow";

/// The note of parameter Greeks, which synthesis does not cover.
pub const PARAMETER_NOTE: &'static str = "parameter Greeks require tangent-flow synthesis";

/// Errors returned by weight synthesis.
#[derive(Debug, PartialEq, Eq)]
pub enum SynthesisError {
    /// A synthesis path exists in theory but is not implemented.
    NotYetImplemented(&'static str),
}

/// Which Greek to synthesise a weight for.
#[derive(Debug, Clone, Copy, PartialEq, Eq, Structural)]
pub enum Greek {
    /// `d/dx_0` of `E[f(X_T) | X_0 = x_0]`.
    Delta { state_index: u32 },
    /// `d/dtheta_i` of `E[f(X_T)]`.
    Parameter { param_index: u32 },
}

/// A symbolic integrand for accumulating a Malliavin weight along a path.
pub struct WeightIntegrand {
    pub coeff_dt: Expr,
    pub coeff_dw: Expr,
}

/// The constant-tangent-flow weight for a scalar delta. With the uniform
/// localisation `1/T` on `[0, T]` the Bismut-Elworthy-Li weight reduces to
/// `pi = W_T / (T * sigma(X_0))`, written per step as `coeff_dt = 0` and
/// `coeff_dw = T^-1 * sigma(X_0)^-1`. `sigma_at_x0` is the diffusion with
/// the initial state already substituted; `horizon` is `T`.
pub fn synthesise_scalar_delta(sigma_at_x0: Expr, horizon: Expr) -> (w: WeightIntegrand)
    ensures
        w.coeff_dt == Expr::Const(F64_ZERO),
        w.coeff_dw == mul_of(pow_of(horizon, -1i32), pow_of(sigma_at_x0, -1i32)),
{
    let inv_t = horizon.pow(-1);
    let inv_sigma0 = sigma_at_x0.pow(-1);
    WeightIntegrand { coeff_dt: Expr::c(F64_ZERO), coeff_dw: inv_t * inv_sigma0 }
}

/// Weight synthesis for the general scalar case, which is not
/// implemented: the constant-flow delta has `synthesise_scalar_delta`, and
/// the runtime's tangent-flow drivers handle the general case numerically.
pub fn synthesise_scalar(_sigma: &Expr, _mu: &Expr, greek: Greek, _horizon: Expr) -> (r: Result<
    WeightIntegrand,
    SynthesisError,
>)
    ensures
        greek is Delta ==> r == Err::<WeightIntegrand, SynthesisError>(
            SynthesisError::NotYetImplemented(GENERAL_DELTA_NOTE),
        ),
        greek is Parameter ==> r == Err::<WeightIntegrand, SynthesisError>(
            SynthesisError::NotYetImplemented(PARAMETER_NOTE),
        ),
{
    match greek {
        Greek::Delta { .. } => Err(SynthesisError::NotYetImplemented(GENERAL_DELTA_NOTE)),
        Greek::Parameter { .. } => Err(SynthesisError::NotYetImplemented(PARAMETER_NOTE)),
    }
}

/// Every state variable of `e` has an index below `n`.
pub open spec fn states_below(e: Expr, n: nat) -> bool {
    forall|i: u32| occurs(Var::State(i), e) ==> (i as nat) < n
}

/// `e` with each `State(i)` replaced by the constant `x0[i]`.
pub open spec fn bound_at(e: Expr, x0: Seq<u64>) -> Expr
    decreases e,
{
    match e {
        Expr::Const(c) => Expr::Const(c),
        Expr::Var(v) => match v {
            Var::State(i) => Expr::Const(x0[i as int]),
            _ => Expr::Var(v),
        },
        Expr::Add(a, b) => Expr::Add(Arc::new(bound_at(*a, x0)), Arc::new(bound_at(*b, x0))),
        Expr::Mul(a, b) => Expr::Mul(Arc::new(bound_at(*a, x0)), Arc::new(bound_at(*b, x0))),
        Expr::Pow(a, n) => Expr::Pow(Arc::new(bound_at(*a, x0)), n),
        Expr::Fun(f, a) => Expr::Fun(f, Arc::new(bound_at(*a, x0))),
    }
}

proof fn lemma_states_below_children(e: Expr, n: nat)
    ensures
        e matches Expr::Add(a, b) ==> (states_below(e, n) ==> states_below(node(a), n) && states_below(node(b), n)),
        e matches Expr::Mul(a, b) ==> (states_below(e, n) ==> states_below(node(a), n) && states_below(node(b), n)),
        e matches Expr::Pow(a, _) ==> (states_below(e, n) ==> states_below(node(a), n)),
        e matches Expr::Fun(_, a) ==> (states_below(e, n) ==> states_below(node(a), n)),
{
    reveal_with_fuel(occurs, 2);
    match e {
        Expr::Add(a, b) => {
            if states_below(e, n) {
                assert forall|i: u32| occurs(Var::State(i), node(a)) implies (i as nat) < n by {
                    assert(occurs(Var::State(i), e));
                }
                assert forall|i: u32| occurs(Var::State(i), node(b)) implies (i as nat) < n by {
                    assert(occurs(Var::State(i), e));
                }
            }
        },
        Expr::Mul(a, b) => {
            if states_below(e, n) {
                assert forall|i: u32| occurs(Var::State(i), node(a)) implies (i as nat) < n by {
                    assert(occurs(Var::State(i), e));
                }
                assert forall|i: u32| occurs(Var::State(i), node(b)) implies (i as nat) < n by {
                    assert(occurs(Var::State(i), e));
                }
            }
        },
        Expr::Pow(a, _) => {
            if states_below(e, n) {
                assert forall|i: u32| occurs(Var::State(i), node(a)) implies (i as nat) < n by {
                    assert(occurs(Var::State(i), e));
                }
            }
        },
        Expr::Fun(_, a) => {
            if states_below(e, n) {
                assert forall|i: u32| occurs(Var::State(i), node(a)) implies (i as nat) < n by {
                    assert(occurs(Var::State(i), e));
                }
            }
        },
        _ => {},
    }
}

/// Whether every state variable of `e` has an index below `n`, so that
/// `e` can be bound to an initial state of length `n`.
pub fn states_in_range(e: &Expr, n: usize) -> (r: bool)
    ensures
        r == states_below(*e, n as nat),
    decreases e,
{
    proof {
        reveal_with_fuel(occurs, 2);
    }
    match e {
        Expr::Const(_) => true,
        Expr::Var(Var::State(i)) => {
            proof {
                if (*i as nat) >= n {
                    assert(occurs(Var::State(*i), *e));
                }
            }
            (*i as usize) < n
        },
        Expr::Var(_) => true,
        Expr::Add(a, b) => {
            proof {
                lemma_states_below_children(*e, n as nat);
                lemma_states_below_join(*e, n as nat);
            }
            states_in_range(a, n) && states_in_range(b, n)
        },
        Expr::Mul(a, b) => {
            proof {
                lemma_states_below_children(*e, n as nat);
                lemma_states_below_join(*e, n as nat);
            }
            states_in_range(a, n) && states_in_range(b, n)
        },
        Expr::Pow(a, _) => {
            proof {
                lemma_states_below_children(*e, n as nat);
                lemma_states_below_join(*e, n as nat);
            }
            states_in_range(a, n)
        },
        Expr::Fun(_, a) => {
            proof {
                lemma_states_below_children(*e, n as nat);
                lemma_states_below_join(*e, n as nat);
            }
            states_in_range(a, n)
        },
    }
}

/// A node's states are in range when its children's are.
proof fn lemma_states_below_join(e: Expr, n: nat)
    ensures
        e matches Expr::Add(a, b) ==> (states_below(node(a), n) && states_below(node(b), n) ==> states_below(e, n)),
        e matches Expr::Mul(a, b) ==> (states_below(node(a), n) && states_below(node(b), n) ==> states_below(e, n)),
        e matches Expr::Pow(a, _) ==> (states_below(node(a), n) ==> states_below(e, n)),
        e matches Expr::Fun(_, a) ==> (states_below(node(a), n) ==> states_below(e, n)),
{
    reveal_with_fuel(occurs, 2);
    match e {
        Expr::Add(a, b) => {
            if states_below(node(a), n) && states_below(node(b), n) {
                assert forall|i: u32| occurs(Var::State(i), e) implies (i as nat) < n by {
                    if occurs(Var::State(i), node(a)) {
                    } else {
                        assert(occurs(Var::State(i), node(b)));
                    }
                }
            }
        },
        Expr::Mul(a, b) => {
            if states_below(node(a), n) && states_below(node(b), n) {
                assert forall|i: u32| occurs(Var::State(i), e) implies (i as nat) < n by {
                    if occurs(Var::State(i), node(a)) {
                    } else {
                        assert(occurs(Var::State(i), node(b)));
                    }
                }
            }
        },
        Expr::Pow(a, _) => {
            if states_below(node(a), n) {
                assert forall|i: u32| occurs(Var::State(i), e) implies (i as nat) < n by {
                    assert(occurs(Var::State(i), node(a)));
                }
            }
        },
        Expr::Fun(_, a) => {
            if states_below(node(a), n) {
                assert forall|i: u32| occurs(Var::State(i), e) implies (i as nat) < n by {
                    assert(occurs(Var::State(i), node(a)));
                }
            }
        },
        _ => {},
    }
}

/// Freeze the state at `t = 0`: replace every `State(i)` of `expr` by the
/// constant whose bit pattern is `x0[i]`. Every state index must be below
/// `x0.len()`; a free state variable left in `sigma(X_0)` would be a bug.
pub fn bind_initial_state(expr: &Expr, x0: &[u64]) -> (r: Expr)
    requires
        states_below(*expr, x0@.len()),
    ensures
        r == bound_at(*expr, x0@),
    decreases expr,
{
    proof {
        lemma_states_below_children(*expr, x0@.len());
    }
    match expr {
        Expr::Const(c) => Expr::Const(*c),
        Expr::Var(Var::State(i)) => {
            proof {
                reveal_with_fuel(occurs, 1);
                assert(occurs(Var::State(*i), *expr));
            }
            Expr::Const(x0[*i as usize])
        },
        Expr::Var(v) => Expr::Var(*v),
        Expr::Add(a, b) => Expr::Add(
            Arc::new(bind_initial_state(a, x0)),
            Arc::new(bind_initial_state(b, x0)),
        ),
        Expr::Mul(a, b) => Expr::Mul(
            Arc::new(bind_initial_state(a, x0)),
            Arc::new(bind_initial_state(b, x0)),
        ),
        Expr::Pow(a, n) => Expr::Pow(Arc::new(bind_initial_state(a, x0)), *n),
        Expr::Fun(f, a) => Expr::Fun(*f, Arc::new(bind_initial_state(a, x0))),
    }
}

/// After binding, no state variable is left, and every other variable
/// occurs exactly where it occurred before.
pub proof fn lemma_bound_vars(e: Expr, x0: Seq<u64>, v: Var)
    ensures
        !(v is State) ==> (occurs(v, bound_at(e, x0)) <==> occurs(v, e)),
        v is State ==> !occurs(v, bound_at(e, x0)),
    decreases e,
{
    reveal_with_fuel(occurs, 2);
    match e {
        Expr::Add(a, b) => {
            lemma_bound_vars(node(a), x0, v);
            lemma_bound_vars(node(b), x0, v);
        },
        Expr::Mul(a, b) => {
            lemma_bound_vars(node(a), x0, v);
            lemma_bound_vars(node(b), x0, v);
        },
        Expr::Pow(a, _) => {
            lemma_bound_vars(node(a), x0, v);
        },
        Expr::Fun(_, a) => {
            lemma_bound_vars(node(a), x0, v);
        },
        _ => {},
    }
}

/// Binding leaves an expression without state variables unchanged; in
/// particular, binding twice is binding once.
pub proof fn lemma_bound_state_free(e: Expr, x0: Seq<u64>)
    requires
        forall|i: u32| !occurs(Var::State(i), e),
    ensures
        bound_at(e, x0) == e,
    decreases e,
{
    reveal_with_fuel(occurs, 2);
    match e {
        Expr::Add(a, b) => {
            assert forall|i: u32| !occurs(Var::State(i), node(a)) by {
                assert(!occurs(Var::State(i), e));
            }
            assert forall|i: u32| !occurs(Var::State(i), node(b)) by {
                assert(!occurs(Var::State(i), e));
            }
            lemma_bound_state_free(node(a), x0);
            lemma_bound_state_free(node(b), x0);
        },
        Expr::Mul(a, b) => {
            assert forall|i: u32| !occurs(Var::State(i), node(a)) by {
                assert(!occurs(Var::State(i), e));
            }
            assert forall|i: u32| !occurs(Var::State(i), node(b)) by {
                assert(!occurs(Var::State(i), e));
            }
            lemma_bound_state_free(node(a), x0);
            lemma_bound_state_free(node(b), x0);
        },
        Expr::Pow(a, _) => {
            assert forall|i: u32| !occurs(Var::State(i), node(a)) by {
                assert(!occurs(Var::State(i), e));
            }
            lemma_bound_state_free(node(a), x0);
        },
        Expr::Fun(_, a) => {
            assert forall|i: u32| !occurs(Var::State(i), node(a)) by {
                assert(!occurs(Var::State(i), e));
            }
            lemma_bound_state_free(node(a), x0);
        },
        Expr::Var(v) => {
            if let Var::State(i) = v {
                assert(occurs(Var::State(i), e));
            }
        },
        _ => {},
    }
}

/// Binding is idempotent: a second binding, with any values, changes
/// nothing.
pub proof fn lemma_bind_idempotent(e: Expr, x0: Seq<u64>, x1: Seq<u64>)
    ensures
        bound_at(bound_at(e, x0), x1) == bound_at(e, x0),
{
    assert forall|i: u32| !occurs(Var::State(i), bound_at(e, x0)) by {
        lemma_bound_vars(e, x0, Var::State(i));
    }
    lemma_bound_state_free(bound_at(e, x0), x1);
}

/// Binding reads only the components of the initial state whose
/// variables occur: two initial states that agree on every state index
/// of `e` bind `e` to the same expression.
pub proof fn lemma_bind_reads_occurring_states(e: Expr, x0: Seq<u64>, y0: Seq<u64>)
    requires
        forall|i: u32| occurs(Var::State(i), e) ==> x0[i as int] == y0[i as int],
    ensures
        bound_at(e, x0) == bound_at(e, y0),
    decreases e,
{
    reveal_with_fuel(occurs, 2);
    match e {
        Expr::Add(a, b) => {
            lemma_bind_reads_occurring_states(node(a), x0, y0);
            lemma_bind_reads_occurring_states(node(b), x0, y0);
        },
        Expr::Mul(a, b) => {
            lemma_bind_reads_occurring_states(node(a), x0, y0);
            lemma_bind_reads_occurring_states(node(b), x0, y0);
        },
        Expr::Pow(a, _) => {
            lemma_bind_reads_occurring_states(node(a), x0, y0);
        },
        Expr::Fun(_, a) => {
            lemma_bind_reads_occurring_states(node(a), x0, y0);
        },
        Expr::Var(v) => {
            if let Var::State(i) = v {
                assert(occurs(Var::State(i), e));
            }
        },
        _ => {},
    }
}

/// Binding uses the value of every state that occurs: where `State(i)`
/// occurs in `e` and two initial states differ at component `i`, the two
/// bindings of `e` differ.
pub proof fn lemma_bind_uses_each_occurring_state(e: Expr, x0: Seq<u64>, y0: Seq<u64>, i: u32)
    requires
        occurs(Var::State(i), e),
        x0[i as int] != y0[i as int],
    ensures
        bound_at(e, x0) != bound_at(e, y0),
    decreases e,
{
    reveal_with_fuel(occurs, 2);
    match e {
        Expr::Add(a, b) => {
            if occurs(Var::State(i), node(a)) {
                lemma_bind_uses_each_occurring_state(node(a), x0, y0, i);
                assert(bound_at(e, x0)->Add_0 != bound_at(e, y0)->Add_0);
            } else {
                lemma_bind_uses_each_occurring_state(node(b), x0, y0, i);
                assert(bound_at(e, x0)->Add_1 != bound_at(e, y0)->Add_1);
            }
        },
        Expr::Mul(a, b) => {
            if occurs(Var::State(i), node(a)) {
                lemma_bind_uses_each_occurring_state(node(a), x0, y0, i);
                assert(bound_at(e, x0)->Mul_0 != bound_at(e, y0)->Mul_0);
            } else {
                lemma_bind_uses_each_occurring_state(node(b), x0, y0, i);
                assert(bound_at(e, x0)->Mul_1 != bound_at(e, y0)->Mul_1);
            }
        },
        Expr::Pow(a, _) => {
            lemma_bind_uses_each_occurring_state(node(a), x0, y0, i);
            assert(bound_at(e, x0)->Pow_0 != bound_at(e, y0)->Pow_0);
        },
        Expr::Fun(_, a) => {
            lemma_bind_uses_each_occurring_state(node(a), x0, y0, i);
            assert(bound_at(e, x0)->Fun_1 != bound_at(e, y0)->Fun_1);
        },
        _ => {},
    }
}

} // verus!
