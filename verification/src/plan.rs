//! Lowering of an expression into a straight-line instruction plan.
//!
//! Instruction `k` of a plan defines value `k`; its operands are earlier
//! values. A scalar backend emits each instruction as one machine
//! instruction on `f64`; a vector backend emits it lane-wise, broadcasting
//! constants, time and parameters. The value of the kernel is the last
//! value of the plan.
use crate::expr::{node, Expr, Fun, Var, F64_ONE, F64_ZERO};
use crate::kernel::{
    fits_shape, lemma_first_overflow_iff, slot_len,
    validate_shape, CodegenError, KernelShape, Slot, var_fits,
};
use crate::expr::occurs;
use vstd::prelude::*;

verus! {

/// One plan instruction.
#[derive(Debug, Clone, Copy, PartialEq, Eq, Structural)]
pub enum Inst {
    /// The `f64` constant with this bit pattern.
    Const(u64),
    /// The time argument.
    Time,
    /// Element `index` of an input slot.
    Load(Slot, u32),
    /// Sum of two earlier values.
    Add(usize, usize),
    /// Product of two earlier values.
    Mul(usize, usize),
    /// Quotient of two earlier values.
    Div(usize, usize),
    /// Square root of an earlier value.
    Sqrt(usize),
    /// A call of the library routine for a transcendental function.
    Call(Fun, usize),
}

/// The computation a value of a plan stands for, as a tree.
pub enum Term {
    Const(u64),
    Time,
    Load(Slot, u32),
    Add(Box<Term>, Box<Term>),
    Mul(Box<Term>, Box<Term>),
    Div(Box<Term>, Box<Term>),
    Sqrt(Box<Term>),
    Call(Fun, Box<Term>),
}

/// `x * x * ... * x` with `k` factors, multiplied from the left.
pub open spec fn mul_chain(x: Term, k: nat) -> Term
    decreases k,
{
    if k <= 1 {
        x
    } else {
        Term::Mul(Box::new(mul_chain(x, (k - 1) as nat)), Box::new(x))
    }
}

/// `x ^ n` by repeated multiplication; a negative exponent takes the
/// reciprocal of the product, and `x ^ 0` is the constant 1.
pub open spec fn pow_term(x: Term, n: i32) -> Term {
    if n == 0 {
        Term::Const(F64_ONE)
    } else if n < 0 {
        Term::Div(Box::new(Term::Const(F64_ONE)), Box::new(mul_chain(x, (-(n as int)) as nat)))
    } else {
        mul_chain(x, n as nat)
    }
}

/// The computation an expression lowers to. `Weight` is no input of a
/// kernel and lowers to the constant 0; `Sqrt` is a native instruction and
/// every other function a library call.
pub open spec fn lowered(e: Expr) -> Term
    decreases e,
{
    match e {
        Expr::Const(b) => Term::Const(b),
        Expr::Var(v) => match v {
            Var::State(i) => Term::Load(Slot::State, i),
            Var::Param(i) => Term::Load(Slot::Param, i),
            Var::DW(i) => Term::Load(Slot::DW, i),
            Var::Time => Term::Time,
            Var::Weight => Term::Const(F64_ZERO),
        },
        Expr::Add(a, b) => Term::Add(Box::new(lowered(*a)), Box::new(lowered(*b))),
        Expr::Mul(a, b) => Term::Mul(Box::new(lowered(*a)), Box::new(lowered(*b))),
        Expr::Pow(a, n) => pow_term(lowered(*a), n),
        Expr::Fun(f, a) => if f == Fun::Sqrt {
            Term::Sqrt(Box::new(lowered(*a)))
        } else {
            Term::Call(f, Box::new(lowered(*a)))
        },
    }
}

/// Every operand of instruction `k` is an earlier value.
pub open spec fn inst_wf(i: Inst, k: int) -> bool {
    match i {
        Inst::Add(a, b) => a < k && b < k,
        Inst::Mul(a, b) => a < k && b < k,
        Inst::Div(a, b) => a < k && b < k,
        Inst::Sqrt(a) => a < k,
        Inst::Call(_, a) => a < k,
        _ => true,
    }
}

/// A plan in single assignment form.
pub open spec fn plan_wf(p: Seq<Inst>) -> bool {
    forall|k: int| 0 <= k < p.len() ==> inst_wf(#[trigger] p[k], k)
}

/// The computation value `k` of plan `p` stands for.
pub open spec fn term_at(p: Seq<Inst>, k: int) -> Term
    decreases k,
{
    if k < 0 || k >= p.len() {
        Term::Const(F64_ZERO)
    } else {
        match p[k] {
            Inst::Const(b) => Term::Const(b),
            Inst::Time => Term::Time,
            Inst::Load(s, i) => Term::Load(s, i),
            Inst::Add(a, b) => if a < k && b < k {
                Term::Add(Box::new(term_at(p, a as int)), Box::new(term_at(p, b as int)))
            } else {
                Term::Const(F64_ZERO)
            },
            Inst::Mul(a, b) => if a < k && b < k {
                Term::Mul(Box::new(term_at(p, a as int)), Box::new(term_at(p, b as int)))
            } else {
                Term::Const(F64_ZERO)
            },
            Inst::Div(a, b) => if a < k && b < k {
                Term::Div(Box::new(term_at(p, a as int)), Box::new(term_at(p, b as int)))
            } else {
                Term::Const(F64_ZERO)
            },
            Inst::Sqrt(a) => if a < k {
                Term::Sqrt(Box::new(term_at(p, a as int)))
            } else {
                Term::Const(F64_ZERO)
            },
            Inst::Call(f, a) => if a < k {
                Term::Call(f, Box::new(term_at(p, a as int)))
            } else {
                Term::Const(F64_ZERO)
            },
        }
    }
}

/// `p1` is a prefix of `p2`.
pub open spec fn is_prefix(p1: Seq<Inst>, p2: Seq<Inst>) -> bool {
    p1.len() <= p2.len() && forall|k: int| 0 <= k < p1.len() ==> p2[k] == p1[k]
}

/// Every load of the plan reads inside `shape`.
pub open spec fn loads_fit(p: Seq<Inst>, shape: KernelShape) -> bool {
    forall|k: int|
        0 <= k < p.len() ==> (#[trigger] p[k] matches Inst::Load(s, i) ==> (i as int) < slot_len(
            shape,
            s,
        ))
}

/// Appending instructions does not change what earlier values stand for.
proof fn lemma_prefix_terms(p1: Seq<Inst>, p2: Seq<Inst>, k: int)
    requires
        is_prefix(p1, p2),
        0 <= k < p1.len(),
    ensures
        term_at(p2, k) == term_at(p1, k),
    decreases k,
{
    match p1[k] {
        Inst::Add(a, b) => {
            if a < k && b < k {
                lemma_prefix_terms(p1, p2, a as int);
                lemma_prefix_terms(p1, p2, b as int);
            }
        },
        Inst::Mul(a, b) => {
            if a < k && b < k {
                lemma_prefix_terms(p1, p2, a as int);
                lemma_prefix_terms(p1, p2, b as int);
            }
        },
        Inst::Div(a, b) => {
            if a < k && b < k {
                lemma_prefix_terms(p1, p2, a as int);
                lemma_prefix_terms(p1, p2, b as int);
            }
        },
        Inst::Sqrt(a) => {
            if a < k {
                lemma_prefix_terms(p1, p2, a as int);
            }
        },
        Inst::Call(_, a) => {
            if a < k {
                lemma_prefix_terms(p1, p2, a as int);
            }
        },
        _ => {},
    }
}

/// Append `i` and return the index of the value it defines.
fn emit(plan: &mut Vec<Inst>, i: Inst, Ghost(shape): Ghost<KernelShape>) -> (r: usize)
    requires
        plan_wf(old(plan)@),
        inst_wf(i, old(plan)@.len() as int),
    ensures
        final(plan)@ == old(plan)@.push(i),
        r == old(plan)@.len(),
        plan_wf(final(plan)@),
        is_prefix(old(plan)@, final(plan)@),
        forall|k: int| 0 <= k < old(plan)@.len() ==> term_at(final(plan)@, k) == term_at(old(plan)@, k),
        loads_fit(old(plan)@, shape) && (i matches Inst::Load(s, j) ==> (j as int) < slot_len(shape, s))
            ==> loads_fit(final(plan)@, shape),
{
    let r = plan.len();
    plan.push(i);
    proof {
        assert forall|k: int| 0 <= k < old(plan)@.len() implies term_at(plan@, k) == term_at(old(plan)@, k) by {
            lemma_prefix_terms(old(plan)@, plan@, k);
        }
        assert forall|k: int| 0 <= k < plan@.len() implies inst_wf(#[trigger] plan@[k], k) by {
            if k < old(plan)@.len() {
                assert(plan@[k] == old(plan)@[k]);
            }
        }
    }
    r
}

/// Lower `e` onto the end of `plan`; return the index of its value.
fn lower_into(e: &Expr, plan: &mut Vec<Inst>, Ghost(shape): Ghost<KernelShape>) -> (r: usize)
    requires
        plan_wf(old(plan)@),
    ensures
        plan_wf(final(plan)@),
        is_prefix(old(plan)@, final(plan)@),
        forall|k: int| 0 <= k < old(plan)@.len() ==> term_at(final(plan)@, k) == term_at(old(plan)@, k),
        old(plan)@.len() <= r,
        r + 1 == final(plan)@.len(),
        term_at(final(plan)@, r as int) == lowered(*e),
        loads_fit(old(plan)@, shape) && fits_shape(*e, shape) ==> loads_fit(final(plan)@, shape),
    decreases e,
{
    let ghost p0 = plan@;
    match e {
        Expr::Const(b) => emit(plan, Inst::Const(*b), Ghost(shape)),
        Expr::Var(v) => {
            proof {
                reveal_with_fuel(occurs, 2);
                assert(occurs(*v, *e));
            }
            match v {
                Var::Time => emit(plan, Inst::Time, Ghost(shape)),
                Var::Weight => emit(plan, Inst::Const(F64_ZERO), Ghost(shape)),
                Var::State(i) => emit(plan, Inst::Load(Slot::State, *i), Ghost(shape)),
                Var::Param(i) => emit(plan, Inst::Load(Slot::Param, *i), Ghost(shape)),
                Var::DW(i) => emit(plan, Inst::Load(Slot::DW, *i), Ghost(shape)),
            }
        },
        Expr::Add(a, b) => {
            proof { lemma_fits_children(*e, shape); }
            let x = lower_into(a, plan, Ghost(shape));
            let ghost p1 = plan@;
            let y = lower_into(b, plan, Ghost(shape));
            let ghost p2 = plan@;
            let r = emit(plan, Inst::Add(x, y), Ghost(shape));
            proof {
                assert(term_at(p2, x as int) == term_at(p1, x as int));
                assert(term_at(plan@, r as int) == Term::Add(Box::new(term_at(p2, x as int)), Box::new(term_at(p2, y as int))));
            }
            r
        },
        Expr::Mul(a, b) => {
            proof { lemma_fits_children(*e, shape); }
            let x = lower_into(a, plan, Ghost(shape));
            let ghost p1 = plan@;
            let y = lower_into(b, plan, Ghost(shape));
            let ghost p2 = plan@;
            let r = emit(plan, Inst::Mul(x, y), Ghost(shape));
            proof {
                assert(term_at(p2, x as int) == term_at(p1, x as int));
                assert(term_at(plan@, r as int) == Term::Mul(Box::new(term_at(p2, x as int)), Box::new(term_at(p2, y as int))));
            }
            r
        },
        Expr::Pow(a, n) => {
            proof { lemma_fits_children(*e, shape); }
            let base = lower_into(a, plan, Ghost(shape));
            lower_pow(plan, base, *n, Ghost(lowered(node(*a))), Ghost(shape))
        },
        Expr::Fun(f, a) => {
            proof { lemma_fits_children(*e, shape); }
            let x = lower_into(a, plan, Ghost(shape));
            match f {
                Fun::Sqrt => emit(plan, Inst::Sqrt(x), Ghost(shape)),
                _ => emit(plan, Inst::Call(*f, x), Ghost(shape)),
            }
        },
    }
}

/// The children of a node fit every shape the node fits.
proof fn lemma_fits_children(e: Expr, shape: KernelShape)
    ensures
        e matches Expr::Add(a, b) ==> (fits_shape(e, shape) ==> fits_shape(node(a), shape) && fits_shape(node(b), shape)),
        e matches Expr::Mul(a, b) ==> (fits_shape(e, shape) ==> fits_shape(node(a), shape) && fits_shape(node(b), shape)),
        e matches Expr::Pow(a, _) ==> (fits_shape(e, shape) ==> fits_shape(node(a), shape)),
        e matches Expr::Fun(_, a) ==> (fits_shape(e, shape) ==> fits_shape(node(a), shape)),
{
    reveal_with_fuel(occurs, 2);
}

/// Append the instructions of `x ^ n` where value `base` holds `x`.
fn lower_pow(plan: &mut Vec<Inst>, base: usize, n: i32, Ghost(x): Ghost<Term>, Ghost(shape): Ghost<KernelShape>) -> (r: usize)
    requires
        plan_wf(old(plan)@),
        base + 1 == old(plan)@.len(),
        term_at(old(plan)@, base as int) == x,
    ensures
        plan_wf(final(plan)@),
        is_prefix(old(plan)@, final(plan)@),
        forall|k: int| 0 <= k < old(plan)@.len() ==> term_at(final(plan)@, k) == term_at(old(plan)@, k),
        old(plan)@.len() <= r || r == base,
        r + 1 == final(plan)@.len(),
        term_at(final(plan)@, r as int) == pow_term(x, n),
        loads_fit(old(plan)@, shape) ==> loads_fit(final(plan)@, shape),
{
    let ghost p0 = plan@;
    if n == 0 {
        return emit(plan, Inst::Const(F64_ONE), Ghost(shape));
    }
    let abs: u32 = if n < 0 { (0i64 - (n as i64)) as u32 } else { n as u32 };
    let mut acc: usize = base;
    let mut k: u32 = 1;
    while k < abs
        invariant
            plan_wf(plan@),
            is_prefix(p0, plan@),
            forall|j: int| 0 <= j < p0.len() ==> term_at(plan@, j) == term_at(p0, j),
            base < p0.len(),
            acc + 1 == plan@.len(),
            acc == base || p0.len() <= acc,
            1 <= k <= abs,
            abs as int == (if n < 0 { -(n as int) } else { n as int }),
            term_at(plan@, base as int) == x,
            term_at(plan@, acc as int) == mul_chain(x, k as nat),
            loads_fit(p0, shape) ==> loads_fit(plan@, shape),
        decreases abs - k,
    {
        let ghost before = plan@;
        let next = emit(plan, Inst::Mul(acc, base), Ghost(shape));
        proof {
            assert(is_prefix(p0, plan@));
            assert(term_at(plan@, next as int) == Term::Mul(Box::new(term_at(before, acc as int)), Box::new(term_at(before, base as int))));
        }
        acc = next;
        k = k + 1;
    }
    if n < 0 {
        let ghost before = plan@;
        let one = emit(plan, Inst::Const(F64_ONE), Ghost(shape));
        let ghost mid = plan@;
        let r = emit(plan, Inst::Div(one, acc), Ghost(shape));
        proof {
            assert(term_at(mid, acc as int) == term_at(before, acc as int));
            assert(term_at(plan@, r as int) == Term::Div(Box::new(term_at(mid, one as int)), Box::new(term_at(mid, acc as int))));
        }
        r
    } else {
        acc
    }
}

/// The byte offset of element `index` of a slot, for a kernel that
/// evaluates `lanes` paths per call: state and increments hold `lanes`
/// consecutive `f64` values per element, parameters one. `None` where the
/// offset does not fit an `i32`.
pub fn load_offset(slot: Slot, index: u32, lanes: u32) -> (r: Option<i32>)
    requires
        lanes == 1 || lanes == 2,
    ensures
        ({
            let stride: int = if slot == Slot::Param { 8 } else { 8 * lanes };
            match r {
                Some(o) => o == index * stride,
                None => index * stride > i32::MAX,
            }
        }),
{
    let stride: u64 = if slot == Slot::Param { 8 } else { 8 * (lanes as u64) };
    let off: u64 = (index as u64) * stride;
    if off > 0x7FFF_FFFFu64 {
        None
    } else {
        Some(off as i32)
    }
}

/// A plan is correct for `e` and `shape`: it is in single assignment
/// form, its last value stands for the lowering of `e`, and every load
/// reads inside `shape`.
pub open spec fn plan_computes(p: Seq<Inst>, e: Expr, shape: KernelShape) -> bool {
    &&& p.len() > 0
    &&& plan_wf(p)
    &&& term_at(p, p.len() - 1) == lowered(e)
    &&& loads_fit(p, shape)
}

/// Lower `e` into a fresh plan whose last value is the value of `e`.
fn lower_fresh(e: &Expr, Ghost(shape): Ghost<KernelShape>) -> (p: Vec<Inst>)
    requires
        fits_shape(*e, shape),
    ensures
        plan_computes(p@, *e, shape),
{
    let mut plan: Vec<Inst> = Vec::new();
    let _ = lower_into(e, &mut plan, Ghost(shape));
    plan
}

/// Validate `expr` against `shape` and lower it for the scalar backend.
/// The plan's last value is the kernel's result; every load it makes reads
/// inside the declared shape.
pub fn scalar_plan(expr: &Expr, shape: &KernelShape) -> (r: Result<Vec<Inst>, CodegenError>)
    ensures
        r is Ok <==> fits_shape(*expr, *shape),
        r matches Ok(p) ==> plan_computes(p@, *expr, *shape),
        r matches Err(err) ==> (crate::kernel::first_overflow(*expr, *shape) matches Some((s, i, m))
            && err == (CodegenError::ShapeOverflow { kind: s, idx: i, max: m })),
{
    validate_shape(expr, shape)?;
    Ok(lower_fresh(expr, Ghost(*shape)))
}

/// Validate `expr` against `shape` and lower it for the two-lane vector
/// backend, which emits each instruction lane-wise: constants, time and
/// parameters are broadcast, `Sqrt` is a native vector instruction, and a
/// library call is made on each lane separately. Every function is lowered;
/// the plan's last value is the kernel's result and every load reads inside
/// the declared shape.
pub fn vector_plan(expr: &Expr, shape: &KernelShape) -> (r: Result<Vec<Inst>, CodegenError>)
    ensures
        r is Ok <==> fits_shape(*expr, *shape),
        r matches Ok(p) ==> plan_computes(p@, *expr, *shape),
        r matches Err(err) ==> (crate::kernel::first_overflow(*expr, *shape) matches Some((s, i, m))
            && err == (CodegenError::ShapeOverflow { kind: s, idx: i, max: m })),
{
    validate_shape(expr, shape)?;
    Ok(lower_fresh(expr, Ghost(*shape)))
}

/// `x ^ 0` lowers to the constant 1, `x ^ 1` to `x` itself, and
/// `x ^ (n + 1)` to the product of `x ^ n` and `x`.
pub proof fn lemma_positive_powers(a: Expr, n: i32)
    requires
        1 <= n < i32::MAX,
    ensures
        lowered(crate::expr::pow_of(a, 0)) == Term::Const(F64_ONE),
        lowered(crate::expr::pow_of(a, 1)) == lowered(a),
        lowered(crate::expr::pow_of(a, (n + 1) as i32)) == Term::Mul(
            Box::new(lowered(crate::expr::pow_of(a, n))),
            Box::new(lowered(a)),
        ),
{
    assert(mul_chain(lowered(a), (n + 1) as nat) == Term::Mul(
        Box::new(mul_chain(lowered(a), n as nat)),
        Box::new(lowered(a)),
    ));
}

/// A negative power lowers to the reciprocal of the opposite power:
/// `x ^ n` is `1 / x ^ (-n)` for `n < 0`.
pub proof fn lemma_negative_power_is_reciprocal(a: Expr, n: i32)
    requires
        i32::MIN < n < 0,
    ensures
        lowered(crate::expr::pow_of(a, n)) == Term::Div(
            Box::new(Term::Const(F64_ONE)),
            Box::new(lowered(crate::expr::pow_of(a, (-n) as i32))),
        ),
{
}

/// A variable that names a kernel input lowers to a load of exactly that
/// input: the slot and index the shape check reads it by.
pub proof fn lemma_variable_loads_its_input(v: Var)
    ensures
        crate::kernel::var_slot(v) matches Some((s, i)) ==> lowered(Expr::Var(v)) == Term::Load(s, i),
{
}

/// Different variables lower to different computations, so no two inputs
/// are read from the same place.
pub proof fn lemma_variables_lower_apart(v1: Var, v2: Var)
    requires
        v1 != v2,
    ensures
        lowered(Expr::Var(v1)) != lowered(Expr::Var(v2)),
{
}

} // verus!
