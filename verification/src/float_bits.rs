//! IEEE-754 bit patterns of `f64` values that integer arithmetic can build.
use vstd::arithmetic::power2::{lemma2_to64, lemma2_to64_rest, lemma_pow2_adds, pow2};
use vstd::bits::{lemma_u64_shl_is_mul, lemma_u64_shr_is_div};
use vstd::prelude::*;

verus! {

/// Mask of the 52 fraction bits of an `f64`.
pub const F64_FRAC_MASK: u64 = 0x000F_FFFF_FFFF_FFFFu64;

/// `bits` is the IEEE-754 double that denotes the integer `n` exactly:
/// zero is `+0.0`; any other value is a normal number whose sign bit, biased
/// exponent and fraction satisfy `(2^52 + frac) * 2^(exp - 1023) == |n|`.
pub open spec fn f64_denotes_int(bits: u64, n: int) -> bool {
    if n == 0 {
        bits == 0
    } else {
        let sign = bits >> 63u64;
        let biased = (bits >> 52u64) & 0x7FFu64;
        let frac = bits & F64_FRAC_MASK;
        let mag = if n < 0 { -n } else { n };
        &&& (sign == 1) == (n < 0)
        &&& 1023 <= biased <= 1023 + 52
        &&& (pow2(52) + frac) * pow2((biased - 1023) as nat) == mag * pow2(52)
    }
}

proof fn lemma_fields(s: u64, e: u64, frac: u64, bits: u64)
    requires
        s <= 1,
        e < 2048,
        frac <= F64_FRAC_MASK,
        bits == (s << 63u64) | (e << 52u64) | frac,
    ensures
        bits >> 63u64 == s,
        (bits >> 52u64) & 0x7FFu64 == e,
        bits & F64_FRAC_MASK == frac,
{
    assert(bits >> 63u64 == s) by (bit_vector)
        requires
            s <= 1,
            e < 2048,
            frac <= 0x000F_FFFF_FFFF_FFFFu64,
            bits == (s << 63u64) | (e << 52u64) | frac,
    ;
    assert((bits >> 52u64) & 0x7FFu64 == e) by (bit_vector)
        requires
            s <= 1,
            e < 2048,
            frac <= 0x000F_FFFF_FFFF_FFFFu64,
            bits == (s << 63u64) | (e << 52u64) | frac,
    ;
    assert(bits & 0x000F_FFFF_FFFF_FFFFu64 == frac) by (bit_vector)
        requires
            s <= 1,
            e < 2048,
            frac <= 0x000F_FFFF_FFFF_FFFFu64,
            bits == (s << 63u64) | (e << 52u64) | frac,
    ;
}

/// An `f64` bit pattern is the composition of its three fields.
proof fn lemma_split_fields(b: u64)
    ensures
        b == ((b >> 63u64) << 63u64) | (((b >> 52u64) & 0x7FFu64) << 52u64) | (b & F64_FRAC_MASK),
        b >> 63u64 <= 1,
{
    assert(b == ((b >> 63u64) << 63u64) | (((b >> 52u64) & 0x7FFu64) << 52u64) | (b & 0x000F_FFFF_FFFF_FFFFu64)) by (bit_vector);
    assert(b >> 63u64 <= 1) by (bit_vector);
}

/// At most one bit pattern denotes a given integer: the encoding of an
/// integer as a double is unique.
pub proof fn lemma_f64_int_encoding_unique(b1: u64, b2: u64, n: int)
    requires
        f64_denotes_int(b1, n),
        f64_denotes_int(b2, n),
    ensures
        b1 == b2,
{
    if n != 0 {
        let e1 = ((b1 >> 52u64) & 0x7FFu64) - 1023;
        let e2 = ((b2 >> 52u64) & 0x7FFu64) - 1023;
        let x1 = pow2(52) + (b1 & F64_FRAC_MASK);
        let x2 = pow2(52) + (b2 & F64_FRAC_MASK);
        assert(b1 & F64_FRAC_MASK <= F64_FRAC_MASK) by (bit_vector);
        assert(b2 & F64_FRAC_MASK <= F64_FRAC_MASK) by (bit_vector);
        lemma2_to64_rest();
        assert(x1 * pow2(e1 as nat) == x2 * pow2(e2 as nat));
        vstd::arithmetic::power2::lemma_pow2_pos(e1 as nat);
        vstd::arithmetic::power2::lemma_pow2_pos(e2 as nat);
        if e1 < e2 {
            let d = (e2 - e1) as nat;
            lemma_pow2_adds(e1 as nat, d);
            vstd::arithmetic::power2::lemma_pow2_pos(d);
            assert(x1 == x2 * pow2(d)) by (nonlinear_arith)
                requires
                    x1 * pow2(e1 as nat) == x2 * (pow2(e1 as nat) * pow2(d)),
                    pow2(e1 as nat) > 0,
            ;
            assert(pow2(d) >= 2) by {
                vstd::arithmetic::power2::lemma_pow2_strictly_increases(0, d);
                lemma2_to64();
            }
            assert(x2 * pow2(d) >= x2 * 2) by (nonlinear_arith)
                requires
                    pow2(d) >= 2,
                    x2 >= 0,
            ;
            assert(false);
        } else if e2 < e1 {
            let d = (e1 - e2) as nat;
            lemma_pow2_adds(e2 as nat, d);
            vstd::arithmetic::power2::lemma_pow2_pos(d);
            assert(x2 == x1 * pow2(d)) by (nonlinear_arith)
                requires
                    x2 * pow2(e2 as nat) == x1 * (pow2(e2 as nat) * pow2(d)),
                    pow2(e2 as nat) > 0,
            ;
            assert(pow2(d) >= 2) by {
                vstd::arithmetic::power2::lemma_pow2_strictly_increases(0, d);
                lemma2_to64();
            }
            assert(x1 * pow2(d) >= x1 * 2) by (nonlinear_arith)
                requires
                    pow2(d) >= 2,
                    x1 >= 0,
            ;
            assert(false);
        } else {
            assert(x1 == x2) by (nonlinear_arith)
                requires
                    x1 * pow2(e1 as nat) == x2 * pow2(e1 as nat),
                    pow2(e1 as nat) > 0,
            ;
        }
        lemma_split_fields(b1);
        lemma_split_fields(b2);
    }
}

/// The bit pattern of `n as f64`. Every `i32` is exactly representable, so
/// no rounding takes place.
pub fn f64_bits_from_i32(n: i32) -> (r: u64)
    ensures
        f64_denotes_int(r, n as int),
{
    if n == 0 {
        return 0;
    }
    let neg: bool = n < 0;
    let m: u64 = if neg { (0i64 - (n as i64)) as u64 } else { n as u64 };
    assert(1 <= m <= 0x8000_0000u64);
    // Position of the highest set bit of m.
    let mut e: u64 = 0;
    assert((m >> 0u64) != 0) by (bit_vector)
        requires
            1 <= m,
    ;
    while (m >> (e + 1)) != 0
        invariant
            1 <= m <= 0x8000_0000u64,
            e <= 31,
            (m >> e) != 0,
        decreases 32 - e,
    {
        assert((m >> (e + 1)) != 0 ==> e + 1 <= 31) by (bit_vector)
            requires
                1 <= m <= 0x8000_0000u64,
                e <= 31,
        ;
        e = e + 1;
    }
    proof {
        lemma2_to64();
        lemma_u64_shr_is_div(m, e);
        lemma_u64_shr_is_div(m, (e + 1) as u64);
        lemma_pow2_adds(e as nat, 1);
        // m / 2^e >= 1 and m / 2^(e+1) == 0
        vstd::arithmetic::power2::lemma_pow2_pos(e as nat);
        vstd::arithmetic::power2::lemma_pow2_pos((e + 1) as nat);
        assert(pow2(e as nat) <= m) by {
            let d = pow2(e as nat) as int;
            vstd::arithmetic::div_mod::lemma_fundamental_div_mod(m as int, d);
            vstd::arithmetic::div_mod::lemma_mod_pos_bound(m as int, d);
            assert(d * (m as int / d) >= d) by (nonlinear_arith)
                requires
                    m as int / d >= 1,
                    d > 0,
            ;
        }
        assert(m < pow2((e + 1) as nat)) by {
            if m >= pow2((e + 1) as nat) {
                vstd::arithmetic::div_mod::lemma_div_non_zero(m as int, pow2((e + 1) as nat) as int);
            }
        }
    }
    let shift: u64 = 52 - e;
    proof {
        lemma_pow2_adds((e + 1) as nat, shift as nat);
        assert(m * pow2(shift as nat) < pow2(53)) by {
            vstd::arithmetic::power2::lemma_pow2_pos(shift as nat);
            vstd::arithmetic::mul::lemma_mul_strict_inequality(m as int, pow2((e + 1) as nat) as int, pow2(shift as nat) as int);
        }
        lemma2_to64_rest();
        lemma_u64_shl_is_mul(m, shift);
    }
    let full: u64 = m << shift;
    proof {
        lemma_pow2_adds(e as nat, shift as nat);
        lemma2_to64_rest();
        vstd::arithmetic::mul::lemma_mul_inequality(pow2(e as nat) as int, m as int, pow2(shift as nat) as int);
    }
    assert(0x10_0000_0000_0000u64 <= full < 0x20_0000_0000_0000u64);
    let frac: u64 = full - 0x10_0000_0000_0000u64;
    let s: u64 = if neg { 1 } else { 0 };
    let biased: u64 = 1023 + e;
    let r: u64 = (s << 63u64) | (biased << 52u64) | frac;
    proof {
        lemma_fields(s, biased, frac, r);
        assert((biased - 1023) as nat == e as nat);
        // (2^52 + frac) * 2^e == m * 2^shift * 2^e == m * 2^52
        vstd::arithmetic::mul::lemma_mul_is_associative(m as int, pow2(shift as nat) as int, pow2(e as nat) as int);
        lemma_pow2_adds(shift as nat, e as nat);
    }
    r
}

/// The integer that the bit pattern `b` denotes, where it denotes one.
pub open spec fn denoted_int(b: u64) -> int {
    choose|k: int| f64_denotes_int(b, k)
}

/// A bit pattern denotes at most one integer.
pub proof fn lemma_f64_denotes_at_most_one(b: u64, n: int, m: int)
    requires
        f64_denotes_int(b, n),
        f64_denotes_int(b, m),
    ensures
        n == m,
{
    assert((0u64 >> 52u64) & 0x7FFu64 == 0) by (bit_vector);
    if n != 0 && m != 0 {
        let e = ((b >> 52u64) & 0x7FFu64) - 1023;
        let x = pow2(52) + (b & F64_FRAC_MASK);
        let mn: int = if n < 0 { -n } else { n };
        let mm: int = if m < 0 { -m } else { m };
        lemma2_to64();
        vstd::arithmetic::power2::lemma_pow2_pos(52);
        assert(mn * pow2(52) == mm * pow2(52));
        assert(mn == mm) by (nonlinear_arith)
            requires
                mn * pow2(52) == mm * pow2(52),
                pow2(52) > 0,
        ;
    }
}

/// `b` denotes `n`, so `denoted_int(b)` is `n`.
pub proof fn lemma_denoted_int(b: u64, n: int)
    requires
        f64_denotes_int(b, n),
    ensures
        denoted_int(b) == n,
{
    lemma_f64_denotes_at_most_one(b, n, denoted_int(b));
}

/// `0.0` denotes 0 and `1.0` denotes 1.
pub proof fn lemma_zero_and_one()
    ensures
        denoted_int(0u64) == 0,
        denoted_int(0x3FF0_0000_0000_0000u64) == 1,
{
    lemma_denoted_int(0u64, 0);
    let one = 0x3FF0_0000_0000_0000u64;
    assert(0x3FF0_0000_0000_0000u64 == (0u64 << 63u64) | (1023u64 << 52u64) | 0u64) by (bit_vector);
    lemma_fields(0, 1023, 0, one);
    lemma2_to64();
    assert(f64_denotes_int(one, 1));
    lemma_denoted_int(one, 1);
}

/// The position of the highest set bit of a positive `m`.
pub open spec fn log2_floor(m: nat) -> nat
    decreases m,
{
    if m <= 1 {
        0
    } else {
        1 + log2_floor(m / 2)
    }
}

proof fn lemma_log2_floor_bounds(m: nat)
    requires
        m >= 1,
    ensures
        pow2(log2_floor(m)) <= m < pow2(log2_floor(m) + 1),
    decreases m,
{
    lemma2_to64();
    if m >= 2 {
        let k = log2_floor(m / 2);
        lemma_log2_floor_bounds(m / 2);
        lemma_pow2_adds(k, 1);
        lemma_pow2_adds(k + 1, 1);
    }
}

/// Every `i32` is exactly an `f64`: some bit pattern denotes it.
pub proof fn lemma_i32_has_f64_encoding(n: i32)
    ensures
        exists|b: u64| f64_denotes_int(b, n as int),
{
    if n == 0 {
        assert(f64_denotes_int(0u64, 0));
    } else {
        let m: nat = if n < 0 { (-(n as int)) as nat } else { n as nat };
        assert(1 <= m <= 0x8000_0000);
        let e: nat = log2_floor(m);
        lemma_log2_floor_bounds(m);
        lemma2_to64();
        lemma2_to64_rest();
        assert(e <= 31) by {
            if e >= 32 {
                vstd::arithmetic::power2::lemma_pow2_strictly_increases(31, e);
            }
        }
        let shift: nat = (52 - e) as nat;
        lemma_pow2_adds(e, shift);
        lemma_pow2_adds(e + 1, shift);
        vstd::arithmetic::power2::lemma_pow2_pos(shift);
        vstd::arithmetic::power2::lemma_pow2_pos(e);
        let full: int = (m * pow2(shift)) as int;
        assert(pow2(52) <= full < pow2(53)) by {
            vstd::arithmetic::mul::lemma_mul_inequality(pow2(e) as int, m as int, pow2(shift) as int);
            vstd::arithmetic::mul::lemma_mul_strict_inequality(m as int, pow2(e + 1) as int, pow2(shift) as int);
        }
        let frac: u64 = (full - pow2(52)) as u64;
        let sgn: u64 = if n < 0 { 1 } else { 0 };
        let biased: u64 = (1023 + e) as u64;
        let b: u64 = (sgn << 63u64) | (biased << 52u64) | frac;
        lemma_fields(sgn, biased, frac, b);
        assert((biased - 1023) as nat == e);
        assert((pow2(52) + frac) * pow2(e) == m * pow2(52)) by {
            vstd::arithmetic::mul::lemma_mul_is_associative(m as int, pow2(shift) as int, pow2(e) as int);
            lemma_pow2_adds(shift, e);
        }
        assert(f64_denotes_int(b, n as int));
    }
}

} // verus!
