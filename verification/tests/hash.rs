use elworthy::expr::Expr;
use elworthy::hash::{expr_hash, SipHasher, SEED};
use elworthy::serial::to_bytes;

fn c(x: f64) -> Expr {
    Expr::c(x.to_bits())
}

#[test]
fn hash_is_deterministic_across_builds_of_same_expr() {
    let a = Expr::state(0) * Expr::param(0) + c(1.0);
    let b = Expr::state(0) * Expr::param(0) + c(1.0);
    assert_eq!(expr_hash(&a), expr_hash(&b));
}

#[test]
fn hash_distinguishes_structure() {
    let a = Expr::state(0) + Expr::state(1);
    let b = Expr::state(0) * Expr::state(1);
    assert_ne!(expr_hash(&a), expr_hash(&b));
}

#[test]
fn hash_distinguishes_constants() {
    assert_ne!(expr_hash(&c(1.0)), expr_hash(&c(2.0)));
    assert_ne!(expr_hash(&c(0.0)), expr_hash(&c(-0.0)));
}

/// The hasher step, written out: rotate left 5, multiply, xor the byte.
fn step(h: u64, b: u8) -> u64 {
    h.rotate_left(5).wrapping_mul(0x100000001b3) ^ (b as u64)
}

#[test]
fn hash_is_the_hasher_over_the_serialised_bytes() {
    let e = (Expr::state(0).pow(3) + Expr::param(2)) * Expr::dw(1);
    let mut h = SEED;
    for b in to_bytes(&e) {
        h = step(h, b);
    }
    assert_eq!(expr_hash(&e), h);
}

#[test]
fn hasher_write_feeds_bytes_in_order() {
    let mut a = SipHasher::new(7);
    a.write(&[1, 2, 3]);
    let mut b = SipHasher::new(7);
    b.write_u8(1);
    b.write_u8(2);
    b.write_u8(3);
    assert_eq!(a.finish(), b.finish());
    assert_eq!(a.finish(), step(step(step(7, 1), 2), 3));
    let mut u = SipHasher::new(0);
    u.write_u32(0x0403_0201);
    let mut v = SipHasher::new(0);
    v.write(&[1, 2, 3, 4]);
    assert_eq!(u.finish(), v.finish());
}

#[test]
fn hash_of_a_single_time_variable() {
    let e = Expr::time();
    let expected = step(step(SEED, 1), 1);
    assert_eq!(expr_hash(&e), expected);
}

#[test]
fn sum_and_product_of_same_children_hash_differently() {
    let a = Expr::state(0);
    let b = Expr::param(0) * Expr::c(2.0f64.to_bits());
    assert_ne!(expr_hash(&(a.clone() + b.clone())), expr_hash(&(a * b)));
}
