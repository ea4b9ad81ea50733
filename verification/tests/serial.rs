use elworthy::expr::{Expr, Fun};
use elworthy::hash::expr_hash;
use elworthy::serial::{read_expr, to_bytes};

fn c(x: f64) -> Expr {
    Expr::c(x.to_bits())
}

fn roundtrip(e: Expr) {
    let buf = to_bytes(&e);
    let (decoded, used) = read_expr(&buf, 0).unwrap();
    assert_eq!(used, buf.len());
    assert_eq!(expr_hash(&e), expr_hash(&decoded), "roundtrip hash mismatch");
}

#[test]
fn roundtrip_const() {
    roundtrip(c(2.5));
}

#[test]
fn roundtrip_gbm_drift() {
    roundtrip(Expr::param(0) * Expr::state(0));
}

#[test]
fn roundtrip_heston_sigma() {
    roundtrip(Expr::param(3) * Expr::state(1).apply(Fun::Sqrt));
}

#[test]
fn roundtrip_pow_and_fun() {
    let e = (Expr::state(0).pow(3) + Expr::param(0)).apply(Fun::Exp);
    roundtrip(e);
}

use elworthy::serial::{fun_from_tag, fun_tag, read_i32, read_u32, read_u8, read_var, write_expr, write_var, DecodeError};
use elworthy::expr::Var;

#[test]
fn const_bytes_are_tag_then_little_endian_bits() {
    let bytes = to_bytes(&c(1.0));
    assert_eq!(bytes, vec![0, 0, 0, 0, 0, 0, 0, 0xF0, 0x3F]);
}

#[test]
fn pow_bytes_hold_the_exponent_after_the_base() {
    let bytes = to_bytes(&Expr::time().pow(-2));
    assert_eq!(bytes, vec![4, 1, 1, 0xFE, 0xFF, 0xFF, 0xFF]);
    let (e, used) = read_expr(&bytes, 0).unwrap();
    assert_eq!(used, 7);
    assert_eq!(to_bytes(&e), bytes);
}

#[test]
fn var_bytes_roundtrip() {
    for v in [Var::State(3), Var::Time, Var::Param(70000), Var::DW(1), Var::Weight] {
        let mut out = Vec::new();
        write_var(&mut out, &v);
        let (w, used) = read_var(&out, 0).unwrap();
        assert_eq!(w, v);
        assert_eq!(used, out.len());
    }
}

#[test]
fn fun_tags_roundtrip_and_unknown_tag_is_refused() {
    for f in [Fun::Exp, Fun::Log, Fun::Sin, Fun::Cos, Fun::Sqrt] {
        assert_eq!(fun_from_tag(fun_tag(f)).unwrap(), f);
    }
    assert_eq!(fun_from_tag(5), Err(DecodeError::UnknownFunTag(5)));
}

#[test]
fn decode_errors() {
    assert_eq!(read_expr(&[], 0).err(), Some(DecodeError::UnexpectedEof));
    assert_eq!(read_expr(&[9], 0).err(), Some(DecodeError::UnknownExprTag(9)));
    assert_eq!(read_expr(&[1, 8], 0).err(), Some(DecodeError::UnknownVarTag(8)));
    assert_eq!(read_expr(&[5, 6, 1, 1], 0).err(), Some(DecodeError::UnknownFunTag(6)));
    assert_eq!(read_expr(&[0, 1, 2, 3], 0).err(), Some(DecodeError::UnexpectedEof));
    assert_eq!(read_expr(&[2, 1, 1], 0).err(), Some(DecodeError::UnexpectedEof));
    assert_eq!(read_expr(&[4, 1, 1, 0, 0], 0).err(), Some(DecodeError::UnexpectedEof));
}

#[test]
fn trailing_bytes_are_left_unread() {
    let mut buf = vec![0xAA];
    write_expr(&mut buf, &(Expr::state(1) * Expr::param(0)));
    let n = buf.len();
    buf.push(0xFF);
    let (e, used) = read_expr(&buf, 1).unwrap();
    assert_eq!(used, n);
    assert_eq!(expr_hash(&e), expr_hash(&(Expr::state(1) * Expr::param(0))));
}

#[test]
fn integer_readers() {
    let b = [0x01, 0x02, 0x03, 0x04, 0xFF];
    assert_eq!(read_u8(&b, 4), Ok((0xFF, 5)));
    assert_eq!(read_u8(&b, 5), Err(DecodeError::UnexpectedEof));
    assert_eq!(read_u32(&b, 0), Ok((0x0403_0201, 4)));
    assert_eq!(read_u32(&b, 2), Err(DecodeError::UnexpectedEof));
    assert_eq!(read_i32(&[0xFF, 0xFF, 0xFF, 0xFF], 0), Ok((-1, 4)));
}
