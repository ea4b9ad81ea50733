use elworthy::expr::{Expr, Fun};
use elworthy::kernel::{check_call_lengths, validate_shape, CodegenError, KernelShape, LengthError, Slot, LANES};
use elworthy::plan::{scalar_plan, vector_plan, Inst};

fn shape(s: usize, p: usize, d: usize) -> KernelShape {
    KernelShape { n_state: s, n_params: p, n_dw: d }
}

#[test]
fn shape_overflow_rejected() {
    let e = Expr::state(5);
    let res = scalar_plan(&e, &shape(1, 0, 0));
    assert!(matches!(res, Err(CodegenError::ShapeOverflow { .. })));
}

#[test]
fn vector_plan_lowers_exp_as_a_call() {
    let e = Expr::state(0).apply(Fun::Exp);
    let p = vector_plan(&e, &shape(1, 0, 0)).unwrap();
    assert_eq!(p, vec![Inst::Load(Slot::State, 0), Inst::Call(Fun::Exp, 0)]);
}

#[test]
fn first_overflow_is_reported() {
    let e = Expr::param(3) * Expr::state(0) + Expr::dw(2);
    match validate_shape(&e, &shape(1, 2, 1)) {
        Err(CodegenError::ShapeOverflow { kind, idx, max }) => {
            assert_eq!(kind, Slot::Param);
            assert_eq!(kind.name(), "param");
            assert_eq!(idx, 3);
            assert_eq!(max, 2);
        }
        other => panic!("unexpected {:?}", other),
    }
    match validate_shape(&e, &shape(1, 4, 1)) {
        Err(CodegenError::ShapeOverflow { kind, idx, max }) => {
            assert_eq!((kind, idx, max), (Slot::DW, 2, 1));
            assert_eq!(kind.name(), "dw");
        }
        other => panic!("unexpected {:?}", other),
    }
    assert!(validate_shape(&e, &shape(1, 4, 3)).is_ok());
    assert!(validate_shape(&(Expr::time() + Expr::var(elworthy::expr::Var::Weight)), &shape(0, 0, 0)).is_ok());
}

#[test]
fn vector_plan_lowers_every_function() {
    let e = Expr::state(0) + Expr::state(0).apply(Fun::Cos).apply(Fun::Sin).apply(Fun::Log).apply(Fun::Sqrt);
    let p = vector_plan(&e, &shape(1, 0, 0)).unwrap();
    assert_eq!(
        p,
        vec![
            Inst::Load(Slot::State, 0),
            Inst::Load(Slot::State, 0),
            Inst::Call(Fun::Cos, 1),
            Inst::Call(Fun::Sin, 2),
            Inst::Call(Fun::Log, 3),
            Inst::Sqrt(4),
            Inst::Add(0, 5),
        ]
    );
    assert!(matches!(vector_plan(&e, &shape(0, 0, 0)), Err(CodegenError::ShapeOverflow { .. })));
}

#[test]
fn scalar_plan_of_gbm_drift() {
    let e = Expr::param(0) * Expr::state(0);
    let p = scalar_plan(&e, &shape(1, 1, 0)).unwrap();
    assert_eq!(p, vec![Inst::Load(Slot::Param, 0), Inst::Load(Slot::State, 0), Inst::Mul(0, 1)]);
}

#[test]
fn powers_unroll_into_products() {
    let p = scalar_plan(&Expr::state(0).pow(3), &shape(1, 0, 0)).unwrap();
    assert_eq!(p, vec![Inst::Load(Slot::State, 0), Inst::Mul(0, 0), Inst::Mul(1, 0)]);
    let p = scalar_plan(&Expr::state(0).pow(-2), &shape(1, 0, 0)).unwrap();
    assert_eq!(
        p,
        vec![
            Inst::Load(Slot::State, 0),
            Inst::Mul(0, 0),
            Inst::Const(1.0f64.to_bits()),
            Inst::Div(2, 1)
        ]
    );
    let p = scalar_plan(&Expr::state(0).pow(0), &shape(1, 0, 0)).unwrap();
    assert_eq!(p, vec![Inst::Load(Slot::State, 0), Inst::Const(1.0f64.to_bits())]);
}

#[test]
fn functions_lower_to_sqrt_or_calls() {
    let e = Expr::time().apply(Fun::Sqrt) + Expr::var(elworthy::expr::Var::Weight).apply(Fun::Exp);
    let p = scalar_plan(&e, &shape(0, 0, 0)).unwrap();
    assert_eq!(
        p,
        vec![Inst::Time, Inst::Sqrt(0), Inst::Const(0), Inst::Call(Fun::Exp, 2), Inst::Add(1, 3)]
    );
}

#[test]
fn call_lengths_are_checked_in_order() {
    let s = shape(2, 1, 1);
    assert_eq!(check_call_lengths(&s, 1, 2, 1, 1), Ok(()));
    assert_eq!(check_call_lengths(&s, 1, 3, 0, 0), Err(LengthError::State { expected: 2, got: 3 }));
    assert_eq!(check_call_lengths(&s, 1, 2, 0, 0), Err(LengthError::Params { expected: 1, got: 0 }));
    assert_eq!(check_call_lengths(&s, 1, 2, 1, 2), Err(LengthError::DW { expected: 1, got: 2 }));
    assert_eq!(check_call_lengths(&s, LANES, 4, 1, 2), Ok(()));
    assert_eq!(check_call_lengths(&s, LANES, 2, 1, 2), Err(LengthError::State { expected: 4, got: 2 }));
}
