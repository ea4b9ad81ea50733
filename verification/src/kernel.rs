//! What a JIT backend needs to know before it emits machine code: the
//! shape of a kernel's inputs, the checks that reject an expression, and
//! the lowering of an expression into a straight-line instruction plan.
//!
//! A plan is a sequence of instructions in static single assignment form:
//! instruction `k` defines value `k`, and its operands are earlier values.
//! The backend emits one machine instruction (or, for a vector kernel, one
//! lane-wise instruction) per plan instruction, and returns the last value.
use crate::diff::{derivative, lemma_derivative_introduces_no_variable};
use crate::expr::{node, occurs, Expr, Fun, Var, F64_ONE, F64_ZERO};
use vstd::prelude::*;

verus! {

/// Number of Monte Carlo paths a vector kernel evaluates per call.
pub const LANES: usize = 2usize;

/// Input lengths a kernel is compiled for; `call` checks them.
#[derive(Debug, Clone, Copy, PartialEq, Eq, Structural)]
pub struct KernelShape {
    pub n_state: usize,
    pub n_params: usize,
    pub n_dw: usize,
}

/// The three indexed inputs of a kernel.
#[derive(Debug, Clone, Copy, PartialEq, Eq, Structural)]
pub enum Slot {
    State,
    Param,
    DW,
}

impl Slot {
    /// The lower-case name of the input: `state`, `param` or `dw`.
    pub fn name(&self) -> (r: &'static str)
        ensures
            r@ == slot_name(*self),
    {
        proof {
            reveal_strlit("state");
            reveal_strlit("param");
            reveal_strlit("dw");
        }
        match self {
            Slot::State => "state",
            Slot::Param => "param",
            Slot::DW => "dw",
        }
    }
}

/// The name of an input slot.
pub open spec fn slot_name(s: Slot) -> Seq<char> {
    match s {
        Slot::State => seq!['s', 't', 'a', 't', 'e'],
        Slot::Param => seq!['p', 'a', 'r', 'a', 'm'],
        Slot::DW => seq!['d', 'w'],
    }
}

/// Why an expression could not be compiled.
#[derive(Debug)]
pub enum CodegenError {
    /// The backend refused a setting.
    Settings(String),
    /// The code module refused a declaration or definition.
    Module(String),
    /// No instruction set could be built for the host.
    Isa(String),
    /// The expression reads an input element beyond the declared shape.
    ShapeOverflow { kind: Slot, idx: u32, max: usize },
}

/// An input vector of the wrong length was handed to a kernel.
#[derive(Debug, PartialEq, Eq, Structural)]
pub enum LengthError {
    State { expected: usize, got: usize },
    Params { expected: usize, got: usize },
    DW { expected: usize, got: usize },
}

/// The slot and index a variable reads, if it reads an indexed input.
pub open spec fn var_slot(v: Var) -> Option<(Slot, u32)> {
    match v {
        Var::State(i) => Some((Slot::State, i)),
        Var::Param(i) => Some((Slot::Param, i)),
        Var::DW(i) => Some((Slot::DW, i)),
        Var::Time => None,
        Var::Weight => None,
    }
}

/// The declared length of an input slot.
pub open spec fn slot_len(shape: KernelShape, s: Slot) -> usize {
    match s {
        Slot::State => shape.n_state,
        Slot::Param => shape.n_params,
        Slot::DW => shape.n_dw,
    }
}

/// A variable stays inside the declared shape.
pub open spec fn var_fits(v: Var, shape: KernelShape) -> bool {
    match var_slot(v) {
        Some((s, i)) => (i as int) < slot_len(shape, s),
        None => true,
    }
}

/// Every variable of `e` stays inside the declared shape.
pub open spec fn fits_shape(e: Expr, shape: KernelShape) -> bool {
    forall|v: Var| occurs(v, e) ==> var_fits(v, shape)
}

/// The first variable of `e`, in left-to-right order, that reads beyond
/// the declared shape, as (slot, index, declared length).
pub open spec fn first_overflow(e: Expr, shape: KernelShape) -> Option<(Slot, u32, usize)>
    decreases e,
{
    match e {
        Expr::Const(_) => None,
        Expr::Var(v) => match var_slot(v) {
            Some((s, i)) => if (i as int) < slot_len(shape, s) {
                None
            } else {
                Some((s, i, slot_len(shape, s)))
            },
            None => None,
        },
        Expr::Add(a, b) => match first_overflow(*a, shape) {
            Some(x) => Some(x),
            None => first_overflow(*b, shape),
        },
        Expr::Mul(a, b) => match first_overflow(*a, shape) {
            Some(x) => Some(x),
            None => first_overflow(*b, shape),
        },
        Expr::Pow(a, _) => first_overflow(*a, shape),
        Expr::Fun(_, a) => first_overflow(*a, shape),
    }
}

/// There is an overflow exactly when some variable does not fit.
pub proof fn lemma_first_overflow_iff(e: Expr, shape: KernelShape)
    ensures
        first_overflow(e, shape) is None <==> fits_shape(e, shape),
        first_overflow(e, shape) matches Some((s, i, m)) ==> m == slot_len(shape, s) && !(
        (i as int) < m),
    decreases e,
{
    reveal_with_fuel(occurs, 2);
    match e {
        Expr::Const(_) => {},
        Expr::Var(v) => {
            if first_overflow(e, shape) is None {
                assert forall|w: Var| occurs(w, e) implies var_fits(w, shape) by {}
            } else {
                assert(occurs(v, e));
            }
        },
        Expr::Add(a, b) => {
            lemma_first_overflow_iff(node(a), shape);
            lemma_first_overflow_iff(node(b), shape);
            if !fits_shape(node(a), shape) {
                let w = choose|w: Var| occurs(w, node(a)) && !var_fits(w, shape);
                assert(occurs(w, e));
            }
            if !fits_shape(node(b), shape) {
                let w = choose|w: Var| occurs(w, node(b)) && !var_fits(w, shape);
                assert(occurs(w, e));
            }
        },
        Expr::Mul(a, b) => {
            lemma_first_overflow_iff(node(a), shape);
            lemma_first_overflow_iff(node(b), shape);
            if !fits_shape(node(a), shape) {
                let w = choose|w: Var| occurs(w, node(a)) && !var_fits(w, shape);
                assert(occurs(w, e));
            }
            if !fits_shape(node(b), shape) {
                let w = choose|w: Var| occurs(w, node(b)) && !var_fits(w, shape);
                assert(occurs(w, e));
            }
        },
        Expr::Pow(a, _) => {
            lemma_first_overflow_iff(node(a), shape);
            if !fits_shape(node(a), shape) {
                let w = choose|w: Var| occurs(w, node(a)) && !var_fits(w, shape);
                assert(occurs(w, e));
            }
        },
        Expr::Fun(_, a) => {
            lemma_first_overflow_iff(node(a), shape);
            if !fits_shape(node(a), shape) {
                let w = choose|w: Var| occurs(w, node(a)) && !var_fits(w, shape);
                assert(occurs(w, e));
            }
        },
    }
}

fn check_index(kind: Slot, idx: u32, max: usize) -> (r: Result<(), CodegenError>)
    ensures
        r is Ok <==> (idx as int) < max,
        r matches Err(err) ==> err == (CodegenError::ShapeOverflow { kind, idx, max }),
{
    if (idx as usize) >= max {
        Err(CodegenError::ShapeOverflow { kind, idx, max })
    } else {
        Ok(())
    }
}

/// Reject an expression that reads an input element beyond `shape`: the
/// error names the first such variable in left-to-right order.
pub fn validate_shape(expr: &Expr, shape: &KernelShape) -> (r: Result<(), CodegenError>)
    ensures
        r is Ok <==> fits_shape(*expr, *shape),
        r is Ok <==> first_overflow(*expr, *shape) is None,
        r matches Err(err) ==> (first_overflow(*expr, *shape) matches Some((s, i, m)) && err == (
        CodegenError::ShapeOverflow { kind: s, idx: i, max: m })),
    decreases expr,
{
    proof {
        lemma_first_overflow_iff(*expr, *shape);
    }
    match expr {
        Expr::Const(_) => Ok(()),
        Expr::Var(Var::State(i)) => check_index(Slot::State, *i, shape.n_state),
        Expr::Var(Var::Param(i)) => check_index(Slot::Param, *i, shape.n_params),
        Expr::Var(Var::DW(i)) => check_index(Slot::DW, *i, shape.n_dw),
        Expr::Var(_) => Ok(()),
        Expr::Add(a, b) => {
            validate_shape(a, shape)?;
            validate_shape(b, shape)
        },
        Expr::Mul(a, b) => {
            validate_shape(a, shape)?;
            validate_shape(b, shape)
        },
        Expr::Pow(a, _) => validate_shape(a, shape),
        Expr::Fun(_, a) => validate_shape(a, shape),
    }
}

/// A derivative compiles for every shape its expression compiles for:
/// differentiation never widens the inputs a kernel reads.
pub proof fn lemma_derivative_fits_shape(e: Expr, wrt: Var, shape: KernelShape)
    requires
        fits_shape(e, shape),
    ensures
        fits_shape(derivative(e, wrt), shape),
{
    assert forall|v: Var| occurs(v, derivative(e, wrt)) implies var_fits(v, shape) by {
        lemma_derivative_introduces_no_variable(e, wrt, v);
    }
}

/// Check the lengths of the inputs handed to a kernel of `shape` that
/// evaluates `lanes` paths per call: state and increments hold `lanes`
/// values per component, the parameters are shared. The first mismatch,
/// in the order state, parameters, increments, is reported.
pub fn check_call_lengths(
    shape: &KernelShape,
    lanes: usize,
    state_len: usize,
    params_len: usize,
    dw_len: usize,
) -> (r: Result<(), LengthError>)
    requires
        shape.n_state * lanes <= usize::MAX,
        shape.n_dw * lanes <= usize::MAX,
    ensures
        r == (if state_len != shape.n_state * lanes {
            Err(LengthError::State { expected: (shape.n_state * lanes) as usize, got: state_len })
        } else if params_len != shape.n_params {
            Err(LengthError::Params { expected: shape.n_params, got: params_len })
        } else if dw_len != shape.n_dw * lanes {
            Err(LengthError::DW { expected: (shape.n_dw * lanes) as usize, got: dw_len })
        } else {
            Ok(())
        }),
{
    let n_state = shape.n_state * lanes;
    let n_dw = shape.n_dw * lanes;
    if state_len != n_state {
        return Err(LengthError::State { expected: n_state, got: state_len });
    }
    if params_len != shape.n_params {
        return Err(LengthError::Params { expected: shape.n_params, got: params_len });
    }
    if dw_len != n_dw {
        return Err(LengthError::DW { expected: n_dw, got: dw_len });
    }
    Ok(())
}

} // verus!
