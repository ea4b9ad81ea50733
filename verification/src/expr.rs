//! Symbolic expression trees over typed variables.
//!
//! An expression describes an SDE coefficient, a payoff or a Malliavin
//! weight integrand. Subtrees are shared through `Arc`. A constant is
//! held as the IEEE-754 bit pattern of its `f64` value, so that `+0.0` and
//! `-0.0` are distinct constants.
use std::sync::Arc;
use vstd::prelude::*;

verus! {

/// Bit pattern of `0.0_f64`.
pub const F64_ZERO: u64 = 0x0000_0000_0000_0000u64;

/// Bit pattern of `0.5_f64`.
pub const F64_HALF: u64 = 0x3FE0_0000_0000_0000u64;

/// Bit pattern of `1.0_f64`.
pub const F64_ONE: u64 = 0x3FF0_0000_0000_0000u64;

/// Bit pattern of `-1.0_f64`.
pub const F64_NEG_ONE: u64 = 0xBFF0_0000_0000_0000u64;

/// A typed leaf variable of an expression tree.
#[derive(Debug, Clone, Copy, PartialEq, Eq, Hash, Structural)]
pub enum Var {
    /// SDE state component, indexed by dimension.
    State(u32),
    /// Current time.
    Time,
    /// Model parameter, indexed.
    Param(u32),
    /// Brownian increment of the current step, indexed by noise dimension.
    DW(u32),
    /// Accumulated Malliavin weight (written only by weight synthesis).
    Weight,
}

/// Transcendental functions a backend must support.
#[derive(Debug, Clone, Copy, PartialEq, Eq, Hash, Structural)]
pub enum Fun {
    Exp,
    Log,
    Sin,
    Cos,
    Sqrt,
}

/// Symbolic expression node.
#[derive(Debug, Clone)]
pub enum Expr {
    /// A constant, as the bit pattern of an `f64`.
    Const(u64),
    Var(Var),
    Add(Arc<Expr>, Arc<Expr>),
    Mul(Arc<Expr>, Arc<Expr>),
    Pow(Arc<Expr>, i32),
    Fun(Fun, Arc<Expr>),
}

/// The sum node `a + b`.
pub open spec fn add_of(a: Expr, b: Expr) -> Expr {
    Expr::Add(Arc::new(a), Arc::new(b))
}

/// The product node `a * b`.
pub open spec fn mul_of(a: Expr, b: Expr) -> Expr {
    Expr::Mul(Arc::new(a), Arc::new(b))
}

/// The power node `a ^ n`.
pub open spec fn pow_of(a: Expr, n: i32) -> Expr {
    Expr::Pow(Arc::new(a), n)
}

/// The application node `f(a)`.
pub open spec fn fun_of(f: Fun, a: Expr) -> Expr {
    Expr::Fun(f, Arc::new(a))
}

/// `a - b`, written as `a + (-1) * b`.
pub open spec fn sub_of(a: Expr, b: Expr) -> Expr {
    add_of(a, mul_of(Expr::Const(F64_NEG_ONE), b))
}

/// `-a`, written as `(-1) * a`.
pub open spec fn neg_of(a: Expr) -> Expr {
    mul_of(Expr::Const(F64_NEG_ONE), a)
}

/// The expression a shared child handle points to.
pub open spec fn node(a: Arc<Expr>) -> Expr {
    *a
}

/// Whether the variable `v` occurs in `e`.
pub open spec fn occurs(v: Var, e: Expr) -> bool
    decreases e,
{
    match e {
        Expr::Const(_) => false,
        Expr::Var(w) => w == v,
        Expr::Add(a, b) => occurs(v, *a) || occurs(v, *b),
        Expr::Mul(a, b) => occurs(v, *a) || occurs(v, *b),
        Expr::Pow(a, _) => occurs(v, *a),
        Expr::Fun(_, a) => occurs(v, *a),
    }
}

/// Calls `std::sync::Arc::clone`, which makes another pointer to the same
/// allocation; the contract claims only that the new handle points to a
/// value equal to the one `a` points to.
#[verifier::external_body]
fn share(a: &Arc<Expr>) -> (r: Arc<Expr>)
    ensures
        *r == **a,
{
    Arc::clone(a)
}

impl Expr {
    /// A copy of this node; the children are shared, not copied.
    pub fn duplicate(&self) -> (r: Expr)
        ensures
            r == *self,
    {
        match self {
            Expr::Const(b) => Expr::Const(*b),
            Expr::Var(v) => Expr::Var(*v),
            Expr::Add(a, b) => Expr::Add(share(a), share(b)),
            Expr::Mul(a, b) => Expr::Mul(share(a), share(b)),
            Expr::Pow(a, n) => Expr::Pow(share(a), *n),
            Expr::Fun(f, a) => Expr::Fun(*f, share(a)),
        }
    }

    /// The constant whose `f64` bit pattern is `bits`.
    pub fn c(bits: u64) -> (r: Expr)
        ensures
            r == Expr::Const(bits),
    {
        Expr::Const(bits)
    }

    /// The leaf `v`.
    pub fn var(v: Var) -> (r: Expr)
        ensures
            r == Expr::Var(v),
    {
        Expr::Var(v)
    }

    /// State component `x_i`.
    pub fn state(i: u32) -> (r: Expr)
        ensures
            r == Expr::Var(Var::State(i)),
    {
        Expr::Var(Var::State(i))
    }

    /// Parameter `theta_i`.
    pub fn param(i: u32) -> (r: Expr)
        ensures
            r == Expr::Var(Var::Param(i)),
    {
        Expr::Var(Var::Param(i))
    }

    /// Brownian increment `dW_i` of the current step.
    pub fn dw(i: u32) -> (r: Expr)
        ensures
            r == Expr::Var(Var::DW(i)),
    {
        Expr::Var(Var::DW(i))
    }

    /// The current time `t`.
    pub fn time() -> (r: Expr)
        ensures
            r == Expr::Var(Var::Time),
    {
        Expr::Var(Var::Time)
    }

    /// `self` raised to the integer power `n`.
    pub fn pow(self, n: i32) -> (r: Expr)
        ensures
            r == pow_of(self, n),
    {
        Expr::Pow(Arc::new(self), n)
    }

    /// `f` applied to `self`.
    pub fn apply(self, f: Fun) -> (r: Expr)
        ensures
            r == fun_of(f, self),
    {
        Expr::Fun(f, Arc::new(self))
    }
}

impl core::ops::Add for Expr {
    type Output = Expr;

    fn add(self, rhs: Expr) -> (r: Expr) {
        Expr::Add(Arc::new(self), Arc::new(rhs))
    }
}

impl vstd::std_specs::ops::AddSpecImpl for Expr {
    open spec fn obeys_add_spec() -> bool {
        true
    }

    open spec fn add_req(self, rhs: Expr) -> bool {
        true
    }

    open spec fn add_spec(self, rhs: Expr) -> Expr {
        add_of(self, rhs)
    }
}

impl core::ops::Mul for Expr {
    type Output = Expr;

    fn mul(self, rhs: Expr) -> (r: Expr) {
        Expr::Mul(Arc::new(self), Arc::new(rhs))
    }
}

impl vstd::std_specs::ops::MulSpecImpl for Expr {
    open spec fn obeys_mul_spec() -> bool {
        true
    }

    open spec fn mul_req(self, rhs: Expr) -> bool {
        true
    }

    open spec fn mul_spec(self, rhs: Expr) -> Expr {
        mul_of(self, rhs)
    }
}

impl core::ops::Sub for Expr {
    type Output = Expr;

    fn sub(self, rhs: Expr) -> (r: Expr) {
        self + (Expr::c(F64_NEG_ONE) * rhs)
    }
}

impl vstd::std_specs::ops::SubSpecImpl for Expr {
    open spec fn obeys_sub_spec() -> bool {
        true
    }

    open spec fn sub_req(self, rhs: Expr) -> bool {
        true
    }

    open spec fn sub_spec(self, rhs: Expr) -> Expr {
        sub_of(self, rhs)
    }
}

impl core::ops::Neg for Expr {
    type Output = Expr;

    fn neg(self) -> (r: Expr) {
        Expr::c(F64_NEG_ONE) * self
    }
}

impl vstd::std_specs::ops::NegSpecImpl for Expr {
    open spec fn obeys_neg_spec() -> bool {
        true
    }

    open spec fn neg_req(self) -> bool {
        true
    }

    open spec fn neg_spec(self) -> Expr {
        neg_of(self)
    }
}

} // verus!
