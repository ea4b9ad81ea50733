//! Compact binary format of expression trees.
//!
//! A node is written as a one-byte tag followed by its fields in
//! little-endian order and then its children, left to right:
//!
//! | node        | bytes                                   |
//! |-------------|-----------------------------------------|
//! | `Const(x)`  | `0`, the 8 bytes of the `f64` bit pattern |
//! | `Var(v)`    | `1`, the variable                       |
//! | `Add(a, b)` | `2`, `a`, `b`                           |
//! | `Mul(a, b)` | `3`, `a`, `b`                           |
//! | `Pow(a, n)` | `4`, `a`, the 4 bytes of `n`            |
//! | `Fun(f, a)` | `5`, the function's tag, `a`            |
//!
//! A variable is a tag (`State` 0, `Time` 1, `Param` 2, `DW` 3, `Weight` 4)
//! followed, for the indexed ones, by the 4 bytes of the index; a function
//! is `Exp` 0, `Log` 1, `Sin` 2, `Cos` 3, `Sqrt` 4.
use crate::expr::{node, Expr, Fun, Var};
use std::sync::Arc;
use vstd::prelude::*;

verus! {

pub const TAG_CONST: u8 = 0u8;
pub const TAG_VAR: u8 = 1u8;
pub const TAG_ADD: u8 = 2u8;
pub const TAG_MUL: u8 = 3u8;
pub const TAG_POW: u8 = 4u8;
pub const TAG_FUN: u8 = 5u8;

pub const VAR_STATE: u8 = 0u8;
pub const VAR_TIME: u8 = 1u8;
pub const VAR_PARAM: u8 = 2u8;
pub const VAR_DW: u8 = 3u8;
pub const VAR_WEIGHT: u8 = 4u8;

pub const FUN_EXP: u8 = 0u8;
pub const FUN_LOG: u8 = 1u8;
pub const FUN_SIN: u8 = 2u8;
pub const FUN_COS: u8 = 3u8;
pub const FUN_SQRT: u8 = 4u8;

/// Why a byte sequence is not an expression.
#[derive(Debug, PartialEq, Eq, Structural)]
pub enum DecodeError {
    /// The input ended inside a node.
    UnexpectedEof,
    /// An unknown node tag.
    UnknownExprTag(u8),
    /// An unknown variable tag.
    UnknownVarTag(u8),
    /// An unknown function tag.
    UnknownFunTag(u8),
}

/// The 4 little-endian bytes of `x`.
pub open spec fn u32_le(x: u32) -> Seq<u8> {
    seq![x as u8, (x >> 8u32) as u8, (x >> 16u32) as u8, (x >> 24u32) as u8]
}

/// The 8 little-endian bytes of `x`.
pub open spec fn u64_le(x: u64) -> Seq<u8> {
    seq![
        x as u8,
        (x >> 8u64) as u8,
        (x >> 16u64) as u8,
        (x >> 24u64) as u8,
        (x >> 32u64) as u8,
        (x >> 40u64) as u8,
        (x >> 48u64) as u8,
        (x >> 56u64) as u8,
    ]
}

/// The `u32` whose little-endian bytes start at `s[p]`.
pub open spec fn u32_at(s: Seq<u8>, p: int) -> u32 {
    (s[p] as u32) | ((s[p + 1] as u32) << 8u32) | ((s[p + 2] as u32) << 16u32) | ((s[p + 3] as u32)
        << 24u32)
}

/// The `u64` whose little-endian bytes start at `s[p]`.
pub open spec fn u64_at(s: Seq<u8>, p: int) -> u64 {
    (s[p] as u64) | ((s[p + 1] as u64) << 8u64) | ((s[p + 2] as u64) << 16u64) | ((s[p + 3] as u64)
        << 24u64) | ((s[p + 4] as u64) << 32u64) | ((s[p + 5] as u64) << 40u64) | ((s[p + 6] as u64)
        << 48u64) | ((s[p + 7] as u64) << 56u64)
}

/// The tag of a function.
pub open spec fn spec_fun_tag(f: Fun) -> u8 {
    match f {
        Fun::Exp => FUN_EXP,
        Fun::Log => FUN_LOG,
        Fun::Sin => FUN_SIN,
        Fun::Cos => FUN_COS,
        Fun::Sqrt => FUN_SQRT,
    }
}

/// The function with a tag, if any.
pub open spec fn spec_fun_from_tag(t: u8) -> Option<Fun> {
    if t == FUN_EXP {
        Some(Fun::Exp)
    } else if t == FUN_LOG {
        Some(Fun::Log)
    } else if t == FUN_SIN {
        Some(Fun::Sin)
    } else if t == FUN_COS {
        Some(Fun::Cos)
    } else if t == FUN_SQRT {
        Some(Fun::Sqrt)
    } else {
        None
    }
}

/// The bytes of a variable.
pub open spec fn var_bytes(v: Var) -> Seq<u8> {
    match v {
        Var::State(i) => seq![VAR_STATE] + u32_le(i),
        Var::Time => seq![VAR_TIME],
        Var::Param(i) => seq![VAR_PARAM] + u32_le(i),
        Var::DW(i) => seq![VAR_DW] + u32_le(i),
        Var::Weight => seq![VAR_WEIGHT],
    }
}

/// The bytes of an expression.
pub open spec fn expr_bytes(e: Expr) -> Seq<u8>
    decreases e,
{
    match e {
        Expr::Const(x) => seq![TAG_CONST] + u64_le(x),
        Expr::Var(v) => seq![TAG_VAR] + var_bytes(v),
        Expr::Add(a, b) => seq![TAG_ADD] + expr_bytes(*a) + expr_bytes(*b),
        Expr::Mul(a, b) => seq![TAG_MUL] + expr_bytes(*a) + expr_bytes(*b),
        Expr::Pow(a, n) => seq![TAG_POW] + expr_bytes(*a) + u32_le(n as u32),
        Expr::Fun(f, a) => seq![TAG_FUN, spec_fun_tag(f)] + expr_bytes(*a),
    }
}

/// The variable that starts at `s[p]`, and the position after it.
pub open spec fn decode_var(s: Seq<u8>, p: int) -> Result<(Var, int), DecodeError> {
    if p < 0 || p >= s.len() {
        Err(DecodeError::UnexpectedEof)
    } else {
        let t = s[p];
        if t == VAR_TIME {
            Ok((Var::Time, p + 1))
        } else if t == VAR_WEIGHT {
            Ok((Var::Weight, p + 1))
        } else if t == VAR_STATE || t == VAR_PARAM || t == VAR_DW {
            if p + 5 > s.len() {
                Err(DecodeError::UnexpectedEof)
            } else {
                let i = u32_at(s, p + 1);
                let v = if t == VAR_STATE {
                    Var::State(i)
                } else if t == VAR_PARAM {
                    Var::Param(i)
                } else {
                    Var::DW(i)
                };
                Ok((v, p + 5))
            }
        } else {
            Err(DecodeError::UnknownVarTag(t))
        }
    }
}

/// The expression that starts at `s[p]`, and the position after it.
pub open spec fn decode_expr(s: Seq<u8>, p: int) -> Result<(Expr, int), DecodeError>
    decreases s.len() - p,
{
    if p < 0 || p >= s.len() {
        Err(DecodeError::UnexpectedEof)
    } else {
        let t = s[p];
        if t == TAG_CONST {
            if p + 9 > s.len() {
                Err(DecodeError::UnexpectedEof)
            } else {
                Ok((Expr::Const(u64_at(s, p + 1)), p + 9))
            }
        } else if t == TAG_VAR {
            match decode_var(s, p + 1) {
                Ok((v, q)) => Ok((Expr::Var(v), q)),
                Err(err) => Err(err),
            }
        } else if t == TAG_ADD || t == TAG_MUL {
            match decode_expr(s, p + 1) {
                Ok((a, q)) => if p < q <= s.len() {
                    match decode_expr(s, q) {
                        Ok((b, r)) => if t == TAG_ADD {
                            Ok((Expr::Add(Arc::new(a), Arc::new(b)), r))
                        } else {
                            Ok((Expr::Mul(Arc::new(a), Arc::new(b)), r))
                        },
                        Err(err) => Err(err),
                    }
                } else {
                    Err(DecodeError::UnexpectedEof)
                },
                Err(err) => Err(err),
            }
        } else if t == TAG_POW {
            match decode_expr(s, p + 1) {
                Ok((a, q)) => if q + 4 > s.len() {
                    Err(DecodeError::UnexpectedEof)
                } else {
                    Ok((Expr::Pow(Arc::new(a), u32_at(s, q) as i32), q + 4))
                },
                Err(err) => Err(err),
            }
        } else if t == TAG_FUN {
            if p + 1 >= s.len() {
                Err(DecodeError::UnexpectedEof)
            } else {
                match spec_fun_from_tag(s[p + 1]) {
                    Some(f) => match decode_expr(s, p + 2) {
                        Ok((a, q)) => Ok((Expr::Fun(f, Arc::new(a)), q)),
                        Err(err) => Err(err),
                    },
                    None => Err(DecodeError::UnknownFunTag(s[p + 1])),
                }
            }
        } else {
            Err(DecodeError::UnknownExprTag(t))
        }
    }
}

/// A decoding result of the executable reader agrees with the spec one.
pub open spec fn agrees<T>(r: Result<(T, usize), DecodeError>, s: Result<(T, int), DecodeError>) -> bool {
    match (r, s) {
        (Ok((x, q)), Ok((y, q2))) => x == y && q == q2,
        (Err(a), Err(b)) => a == b,
        _ => false,
    }
}

proof fn lemma_u32_bytes(x: u32)
    ensures
        u32_at(u32_le(x), 0) == x,
{
    assert(((x as u8) as u32) | ((((x >> 8u32) as u8) as u32) << 8u32) | ((((x >> 16u32) as u8) as u32)
        << 16u32) | ((((x >> 24u32) as u8) as u32) << 24u32) == x) by (bit_vector);
}

proof fn lemma_u64_bytes(x: u64)
    ensures
        u64_at(u64_le(x), 0) == x,
{
    assert(((x as u8) as u64) | ((((x >> 8u64) as u8) as u64) << 8u64) | ((((x >> 16u64) as u8) as u64)
        << 16u64) | ((((x >> 24u64) as u8) as u64) << 24u64) | ((((x >> 32u64) as u8) as u64) << 32u64)
        | ((((x >> 40u64) as u8) as u64) << 40u64) | ((((x >> 48u64) as u8) as u64) << 48u64) | ((((x
        >> 56u64) as u8) as u64) << 56u64) == x) by (bit_vector);
}

proof fn lemma_u32_at_bytes(s: Seq<u8>, p: int)
    requires
        0 <= p,
        p + 4 <= s.len(),
    ensures
        u32_le(u32_at(s, p)) == s.subrange(p, p + 4),
{
    let b0 = s[p];
    let b1 = s[p + 1];
    let b2 = s[p + 2];
    let b3 = s[p + 3];
    let x = u32_at(s, p);
    assert(x == (b0 as u32) | ((b1 as u32) << 8u32) | ((b2 as u32) << 16u32) | ((b3 as u32) << 24u32));
    assert(x as u8 == b0 && (x >> 8u32) as u8 == b1 && (x >> 16u32) as u8 == b2 && (x >> 24u32) as u8
        == b3) by (bit_vector)
        requires
            x == (b0 as u32) | ((b1 as u32) << 8u32) | ((b2 as u32) << 16u32) | ((b3 as u32) << 24u32),
    ;
    assert(u32_le(x) =~= s.subrange(p, p + 4));
}

proof fn lemma_u64_at_bytes(s: Seq<u8>, p: int)
    requires
        0 <= p,
        p + 8 <= s.len(),
    ensures
        u64_le(u64_at(s, p)) == s.subrange(p, p + 8),
{
    let b0 = s[p];
    let b1 = s[p + 1];
    let b2 = s[p + 2];
    let b3 = s[p + 3];
    let b4 = s[p + 4];
    let b5 = s[p + 5];
    let b6 = s[p + 6];
    let b7 = s[p + 7];
    let x = u64_at(s, p);
    assert(x == (b0 as u64) | ((b1 as u64) << 8u64) | ((b2 as u64) << 16u64) | ((b3 as u64) << 24u64)
        | ((b4 as u64) << 32u64) | ((b5 as u64) << 40u64) | ((b6 as u64) << 48u64) | ((b7 as u64)
        << 56u64));
    assert(x as u8 == b0 && (x >> 8u64) as u8 == b1 && (x >> 16u64) as u8 == b2 && (x >> 24u64) as u8
        == b3 && (x >> 32u64) as u8 == b4 && (x >> 40u64) as u8 == b5 && (x >> 48u64) as u8 == b6 && (x
        >> 56u64) as u8 == b7) by (bit_vector)
        requires
            x == (b0 as u64) | ((b1 as u64) << 8u64) | ((b2 as u64) << 16u64) | ((b3 as u64) << 24u64)
                | ((b4 as u64) << 32u64) | ((b5 as u64) << 40u64) | ((b6 as u64) << 48u64) | ((b7
                as u64) << 56u64),
    ;
    assert(u64_le(x) =~= s.subrange(p, p + 8));
}

proof fn lemma_i32_bits(n: i32)
    ensures
        (n as u32) as i32 == n,
{
    assert((n as u32) as i32 == n) by (bit_vector);
}

proof fn lemma_u32_le_i32(x: u32)
    ensures
        ((x as i32) as u32) == x,
{
    assert(((x as i32) as u32) == x) by (bit_vector);
}

fn push_u32(out: &mut Vec<u8>, x: u32)
    ensures
        final(out)@ == old(out)@ + u32_le(x),
{
    out.push(x as u8);
    out.push((x >> 8u32) as u8);
    out.push((x >> 16u32) as u8);
    out.push((x >> 24u32) as u8);
    proof {
        assert(out@ =~= old(out)@ + u32_le(x));
    }
}

fn push_u64(out: &mut Vec<u8>, x: u64)
    ensures
        final(out)@ == old(out)@ + u64_le(x),
{
    out.push(x as u8);
    out.push((x >> 8u64) as u8);
    out.push((x >> 16u64) as u8);
    out.push((x >> 24u64) as u8);
    out.push((x >> 32u64) as u8);
    out.push((x >> 40u64) as u8);
    out.push((x >> 48u64) as u8);
    out.push((x >> 56u64) as u8);
    proof {
        assert(out@ =~= old(out)@ + u64_le(x));
    }
}

/// The tag of a function.
pub fn fun_tag(f: Fun) -> (r: u8)
    ensures
        r == spec_fun_tag(f),
{
    match f {
        Fun::Exp => FUN_EXP,
        Fun::Log => FUN_LOG,
        Fun::Sin => FUN_SIN,
        Fun::Cos => FUN_COS,
        Fun::Sqrt => FUN_SQRT,
    }
}

/// The function with tag `t`.
pub fn fun_from_tag(t: u8) -> (r: Result<Fun, DecodeError>)
    ensures
        r == (match spec_fun_from_tag(t) {
            Some(f) => Ok::<Fun, DecodeError>(f),
            None => Err(DecodeError::UnknownFunTag(t)),
        }),
{
    match t {
        FUN_EXP => Ok(Fun::Exp),
        FUN_LOG => Ok(Fun::Log),
        FUN_SIN => Ok(Fun::Sin),
        FUN_COS => Ok(Fun::Cos),
        FUN_SQRT => Ok(Fun::Sqrt),
        _ => Err(DecodeError::UnknownFunTag(t)),
    }
}

/// Append the bytes of a variable.
pub fn write_var(out: &mut Vec<u8>, v: &Var)
    ensures
        final(out)@ == old(out)@ + var_bytes(*v),
{
    match v {
        Var::State(i) => {
            out.push(VAR_STATE);
            push_u32(out, *i);
        },
        Var::Time => out.push(VAR_TIME),
        Var::Param(i) => {
            out.push(VAR_PARAM);
            push_u32(out, *i);
        },
        Var::DW(i) => {
            out.push(VAR_DW);
            push_u32(out, *i);
        },
        Var::Weight => out.push(VAR_WEIGHT),
    }
    proof {
        assert(out@ =~= old(out)@ + var_bytes(*v));
    }
}

/// Append the bytes of an expression.
pub fn write_expr(out: &mut Vec<u8>, e: &Expr)
    ensures
        final(out)@ == old(out)@ + expr_bytes(*e),
    decreases e,
{
    let ghost start = out@;
    match e {
        Expr::Const(x) => {
            out.push(TAG_CONST);
            push_u64(out, *x);
        },
        Expr::Var(v) => {
            out.push(TAG_VAR);
            write_var(out, v);
        },
        Expr::Add(a, b) => {
            out.push(TAG_ADD);
            write_expr(out, a);
            write_expr(out, b);
        },
        Expr::Mul(a, b) => {
            out.push(TAG_MUL);
            write_expr(out, a);
            write_expr(out, b);
        },
        Expr::Pow(a, n) => {
            out.push(TAG_POW);
            write_expr(out, a);
            push_u32(out, *n as u32);
        },
        Expr::Fun(f, a) => {
            out.push(TAG_FUN);
            out.push(fun_tag(*f));
            write_expr(out, a);
        },
    }
    proof {
        assert(out@ =~= start + expr_bytes(*e));
    }
}

/// The bytes of an expression, as a fresh vector.
pub fn to_bytes(e: &Expr) -> (r: Vec<u8>)
    ensures
        r@ == expr_bytes(*e),
{
    let mut out: Vec<u8> = Vec::new();
    write_expr(&mut out, e);
    proof {
        assert(out@ =~= expr_bytes(*e));
    }
    out
}

/// Read one byte at `pos`.
pub fn read_u8(buf: &[u8], pos: usize) -> (r: Result<(u8, usize), DecodeError>)
    ensures
        pos < buf@.len() ==> (r matches Ok((b, q)) && b == buf@[pos as int] && q == pos + 1),
        pos >= buf@.len() ==> r == Err::<(u8, usize), DecodeError>(DecodeError::UnexpectedEof),
{
    if pos < buf.len() {
        Ok((buf[pos], pos + 1))
    } else {
        Err(DecodeError::UnexpectedEof)
    }
}

/// Read a little-endian `u32` at `pos`.
pub fn read_u32(buf: &[u8], pos: usize) -> (r: Result<(u32, usize), DecodeError>)
    ensures
        pos + 4 <= buf@.len() ==> (r matches Ok((x, q)) && x == u32_at(buf@, pos as int) && q == pos
            + 4),
        pos + 4 > buf@.len() ==> r == Err::<(u32, usize), DecodeError>(DecodeError::UnexpectedEof),
{
    if pos > buf.len() || buf.len() - pos < 4 {
        return Err(DecodeError::UnexpectedEof);
    }
    let x = (buf[pos] as u32) | ((buf[pos + 1] as u32) << 8u32) | ((buf[pos + 2] as u32) << 16u32)
        | ((buf[pos + 3] as u32) << 24u32);
    Ok((x, pos + 4))
}

/// Read a little-endian `i32` at `pos`.
pub fn read_i32(buf: &[u8], pos: usize) -> (r: Result<(i32, usize), DecodeError>)
    ensures
        pos + 4 <= buf@.len() ==> (r matches Ok((x, q)) && x == u32_at(buf@, pos as int) as i32 && q
            == pos + 4),
        pos + 4 > buf@.len() ==> r == Err::<(i32, usize), DecodeError>(DecodeError::UnexpectedEof),
{
    let (x, q) = read_u32(buf, pos)?;
    Ok((x as i32, q))
}

/// Read the bit pattern of a little-endian `f64` at `pos`.
pub fn read_f64(buf: &[u8], pos: usize) -> (r: Result<(u64, usize), DecodeError>)
    ensures
        pos + 8 <= buf@.len() ==> (r matches Ok((x, q)) && x == u64_at(buf@, pos as int) && q == pos
            + 8),
        pos + 8 > buf@.len() ==> r == Err::<(u64, usize), DecodeError>(DecodeError::UnexpectedEof),
{
    if pos > buf.len() || buf.len() - pos < 8 {
        return Err(DecodeError::UnexpectedEof);
    }
    let x = (buf[pos] as u64) | ((buf[pos + 1] as u64) << 8u64) | ((buf[pos + 2] as u64) << 16u64)
        | ((buf[pos + 3] as u64) << 24u64) | ((buf[pos + 4] as u64) << 32u64) | ((buf[pos + 5] as u64)
        << 40u64) | ((buf[pos + 6] as u64) << 48u64) | ((buf[pos + 7] as u64) << 56u64);
    Ok((x, pos + 8))
}

/// Read the variable at `pos`; return it and the position after it.
pub fn read_var(buf: &[u8], pos: usize) -> (r: Result<(Var, usize), DecodeError>)
    ensures
        agrees(r, decode_var(buf@, pos as int)),
{
    let (t, p) = read_u8(buf, pos)?;
    match t {
        VAR_STATE => {
            let (i, q) = read_u32(buf, p)?;
            Ok((Var::State(i), q))
        },
        VAR_TIME => Ok((Var::Time, p)),
        VAR_PARAM => {
            let (i, q) = read_u32(buf, p)?;
            Ok((Var::Param(i), q))
        },
        VAR_DW => {
            let (i, q) = read_u32(buf, p)?;
            Ok((Var::DW(i), q))
        },
        VAR_WEIGHT => Ok((Var::Weight, p)),
        _ => Err(DecodeError::UnknownVarTag(t)),
    }
}

/// Read the expression at `pos`; return it and the position after it.
pub fn read_expr(buf: &[u8], pos: usize) -> (r: Result<(Expr, usize), DecodeError>)
    ensures
        agrees(r, decode_expr(buf@, pos as int)),
    decreases buf@.len() - pos,
{
    let (tag, p) = read_u8(buf, pos)?;
    match tag {
        TAG_CONST => {
            let (x, q) = read_f64(buf, p)?;
            Ok((Expr::Const(x), q))
        },
        TAG_VAR => {
            let (v, q) = read_var(buf, p)?;
            Ok((Expr::Var(v), q))
        },
        TAG_ADD => {
            let (a, q) = read_expr(buf, p)?;
            proof { lemma_decode_advances(buf@, p as int); }
            let (b, r) = read_expr(buf, q)?;
            Ok((Expr::Add(Arc::new(a), Arc::new(b)), r))
        },
        TAG_MUL => {
            let (a, q) = read_expr(buf, p)?;
            proof { lemma_decode_advances(buf@, p as int); }
            let (b, r) = read_expr(buf, q)?;
            Ok((Expr::Mul(Arc::new(a), Arc::new(b)), r))
        },
        TAG_POW => {
            let (a, q) = read_expr(buf, p)?;
            let (n, r) = read_i32(buf, q)?;
            Ok((Expr::Pow(Arc::new(a), n), r))
        },
        TAG_FUN => {
            let (t, q) = read_u8(buf, p)?;
            let f = fun_from_tag(t)?;
            let (a, r) = read_expr(buf, q)?;
            Ok((Expr::Fun(f, Arc::new(a)), r))
        },
        _ => Err(DecodeError::UnknownExprTag(tag)),
    }
}

proof fn lemma_u32_at_concat(pre: Seq<u8>, x: u32, post: Seq<u8>)
    ensures
        u32_at(pre + u32_le(x) + post, pre.len() as int) == x,
{
    let s = pre + u32_le(x) + post;
    let p = pre.len() as int;
    assert(s[p] == u32_le(x)[0] && s[p + 1] == u32_le(x)[1] && s[p + 2] == u32_le(x)[2] && s[p + 3]
        == u32_le(x)[3]);
    lemma_u32_bytes(x);
}

proof fn lemma_u64_at_concat(pre: Seq<u8>, x: u64, post: Seq<u8>)
    ensures
        u64_at(pre + u64_le(x) + post, pre.len() as int) == x,
{
    let s = pre + u64_le(x) + post;
    let p = pre.len() as int;
    assert(s[p] == u64_le(x)[0] && s[p + 1] == u64_le(x)[1] && s[p + 2] == u64_le(x)[2] && s[p + 3]
        == u64_le(x)[3] && s[p + 4] == u64_le(x)[4] && s[p + 5] == u64_le(x)[5] && s[p + 6]
        == u64_le(x)[6] && s[p + 7] == u64_le(x)[7]);
    lemma_u64_bytes(x);
}

proof fn lemma_decode_var_of_encode(v: Var, pre: Seq<u8>, post: Seq<u8>)
    ensures
        decode_var(pre + var_bytes(v) + post, pre.len() as int) == Ok::<(Var, int), DecodeError>(
            (v, (pre.len() + var_bytes(v).len()) as int),
        ),
{
    let s = pre + var_bytes(v) + post;
    let p = pre.len() as int;
    assert(s[p] == var_bytes(v)[0]);
    match v {
        Var::State(i) => {
            assert(s =~= pre.push(VAR_STATE) + u32_le(i) + post);
            lemma_u32_at_concat(pre.push(VAR_STATE), i, post);
        },
        Var::Param(i) => {
            assert(s =~= pre.push(VAR_PARAM) + u32_le(i) + post);
            lemma_u32_at_concat(pre.push(VAR_PARAM), i, post);
        },
        Var::DW(i) => {
            assert(s =~= pre.push(VAR_DW) + u32_le(i) + post);
            lemma_u32_at_concat(pre.push(VAR_DW), i, post);
        },
        _ => {},
    }
}

/// Reading back what was written gives the same expression and consumes
/// exactly its bytes, whatever surrounds them.
#[verifier::spinoff_prover]
#[verifier::rlimit(60)]
pub proof fn lemma_decode_of_encode(e: Expr, pre: Seq<u8>, post: Seq<u8>)
    ensures
        decode_expr(pre + expr_bytes(e) + post, pre.len() as int) == Ok::<(Expr, int), DecodeError>(
            (e, (pre.len() + expr_bytes(e).len()) as int),
        ),
    decreases e,
{
    let s = pre + expr_bytes(e) + post;
    let p = pre.len() as int;
    assert(s[p] == expr_bytes(e)[0]);
    match e {
        Expr::Const(x) => {
            assert(s =~= pre.push(TAG_CONST) + u64_le(x) + post);
            lemma_u64_at_concat(pre.push(TAG_CONST), x, post);
        },
        Expr::Var(v) => {
            assert(s =~= pre.push(TAG_VAR) + var_bytes(v) + post);
            lemma_decode_var_of_encode(v, pre.push(TAG_VAR), post);
        },
        Expr::Add(a, b) => {
            let ea = expr_bytes(node(a));
            let eb = expr_bytes(node(b));
            let pre1 = pre.push(TAG_ADD);
            assert(s =~= pre1 + ea + (eb + post));
            lemma_decode_of_encode(node(a), pre1, eb + post);
            assert(s =~= (pre1 + ea) + eb + post);
            lemma_decode_of_encode(node(b), pre1 + ea, post);
        },
        Expr::Mul(a, b) => {
            let ea = expr_bytes(node(a));
            let eb = expr_bytes(node(b));
            let pre1 = pre.push(TAG_MUL);
            assert(s =~= pre1 + ea + (eb + post));
            lemma_decode_of_encode(node(a), pre1, eb + post);
            assert(s =~= (pre1 + ea) + eb + post);
            lemma_decode_of_encode(node(b), pre1 + ea, post);
        },
        Expr::Pow(a, n) => {
            let ea = expr_bytes(node(a));
            let pre1 = pre.push(TAG_POW);
            assert(s =~= pre1 + ea + (u32_le(n as u32) + post));
            lemma_decode_of_encode(node(a), pre1, u32_le(n as u32) + post);
            assert(s =~= (pre1 + ea) + u32_le(n as u32) + post);
            lemma_u32_at_concat(pre1 + ea, n as u32, post);
            lemma_i32_bits(n);
        },
        Expr::Fun(f, a) => {
            let ea = expr_bytes(node(a));
            let pre1 = pre.push(TAG_FUN).push(spec_fun_tag(f));
            assert(s =~= pre1 + ea + post);
            assert(s[p + 1] == spec_fun_tag(f));
            lemma_decode_of_encode(node(a), pre1, post);
        },
    }
}

/// What a successful decode reads is exactly the encoding of its result:
/// the format has one spelling per expression.
pub proof fn lemma_encode_of_decode(s: Seq<u8>, p: int)
    ensures
        decode_expr(s, p) matches Ok((e, q)) ==> p < q <= s.len() && expr_bytes(e) == s.subrange(p, q),
    decreases s.len() - p,
{
    lemma_decode_advances(s, p);
    if 0 <= p < s.len() {
        let t = s[p];
        if t == TAG_CONST {
            if p + 9 <= s.len() {
                lemma_u64_at_bytes(s, p + 1);
                assert(expr_bytes(Expr::Const(u64_at(s, p + 1))) =~= s.subrange(p, p + 9));
            }
        } else if t == TAG_VAR {
            if p + 1 < s.len() {
                let t2 = s[p + 1];
                if t2 == VAR_STATE || t2 == VAR_PARAM || t2 == VAR_DW {
                    if p + 6 <= s.len() {
                        lemma_u32_at_bytes(s, p + 2);
                    }
                }
                if let Ok((e, q)) = decode_expr(s, p) {
                    assert(expr_bytes(e) =~= s.subrange(p, q));
                }
            }
        } else if t == TAG_ADD || t == TAG_MUL {
            lemma_encode_of_decode(s, p + 1);
            if let Ok((a, q)) = decode_expr(s, p + 1) {
                lemma_decode_advances(s, p + 1);
                lemma_encode_of_decode(s, q);
                if let Ok((b, r)) = decode_expr(s, q) {
                    let e = decode_expr(s, p).unwrap().0;
                    assert(node(Arc::new(a)) == a);
                    assert(node(Arc::new(b)) == b);
                    assert(expr_bytes(e) =~= s.subrange(p, r));
                }
            }
        } else if t == TAG_POW {
            lemma_encode_of_decode(s, p + 1);
            if let Ok((a, q)) = decode_expr(s, p + 1) {
                if q + 4 <= s.len() {
                    lemma_u32_at_bytes(s, q);
                    lemma_u32_le_i32(u32_at(s, q));
                    let e = decode_expr(s, p).unwrap().0;
                    assert(expr_bytes(e) =~= s.subrange(p, q + 4));
                }
            }
        } else if t == TAG_FUN && p + 1 < s.len() {
            lemma_encode_of_decode(s, p + 2);
            if let Ok((e, q)) = decode_expr(s, p) {
                let f = spec_fun_from_tag(s[p + 1]).unwrap();
                assert(spec_fun_tag(f) == s[p + 1]);
                assert(expr_bytes(e) =~= s.subrange(p, q));
            }
        }
    }
}

/// A successful decode consumes at least one byte and stays inside the
/// input.
pub proof fn lemma_decode_advances(s: Seq<u8>, p: int)
    ensures
        decode_expr(s, p) matches Ok((_, q)) ==> p < q <= s.len(),
    decreases s.len() - p,
{
    if 0 <= p < s.len() {
        let t = s[p];
        if t == TAG_ADD || t == TAG_MUL {
            lemma_decode_advances(s, p + 1);
            if let Ok((_, q)) = decode_expr(s, p + 1) {
                if p < q <= s.len() {
                    lemma_decode_advances(s, q);
                }
            }
        } else if t == TAG_POW {
            lemma_decode_advances(s, p + 1);
        } else if t == TAG_FUN && p + 1 < s.len() {
            lemma_decode_advances(s, p + 2);
        }
    }
}

} // verus!
