//! Deterministic structural hash of expression trees.
//!
//! The key of the kernel caches: it does not depend on a per-process
//! seed, so it is stable across process restarts. The hasher is fed the
//! same bytes the binary format writes (tags, then fields in little-endian
//! order), so an expression's hash is the hash of its serialisation.
use crate::expr::{add_of, mul_of, node, Expr, Fun, Var};
use crate::serial::{expr_bytes, spec_fun_tag, u32_le, u64_le, var_bytes};
use vstd::prelude::*;

verus! {

/// The fixed seed of the structural hash.
pub const SEED: u64 = 0xE1E2_A412_C0DE_BABEu64;

/// The multiplier of one hashing step.
pub const PRIME: u64 = 0x0000_0100_0000_01B3u64;

/// `x` rotated left by 5 bits.
pub open spec fn rotl5(x: u64) -> u64 {
    (x << 5u64) | (x >> 59u64)
}

/// One hashing step: rotate the state left by 5 bits, multiply it by
/// `PRIME` modulo 2^64, and mix in the byte.
pub open spec fn hash_step(h: u64, b: u8) -> u64 {
    ((rotl5(h) as nat * PRIME as nat) % 0x1_0000_0000_0000_0000) as u64 ^ (b as u64)
}

/// The state after feeding the bytes `s`, in order, to state `h`.
pub open spec fn hash_bytes(h: u64, s: Seq<u8>) -> u64
    decreases s.len(),
{
    if s.len() == 0 {
        h
    } else {
        hash_step(hash_bytes(h, s.drop_last()), s.last())
    }
}

/// Feeding two byte strings one after the other is feeding their
/// concatenation.
pub proof fn lemma_hash_bytes_append(h: u64, s1: Seq<u8>, s2: Seq<u8>)
    ensures
        hash_bytes(h, s1 + s2) == hash_bytes(hash_bytes(h, s1), s2),
    decreases s2.len(),
{
    if s2.len() == 0 {
        assert(s1 + s2 =~= s1);
    } else {
        assert((s1 + s2).drop_last() =~= s1 + s2.drop_last());
        lemma_hash_bytes_append(h, s1, s2.drop_last());
    }
}

/// Multiplying by `PRIME` modulo 2^64 is undone by multiplying by
/// `0xCE96_5057_AFF6_957B`, the inverse of the odd number `PRIME`.
proof fn lemma_mul_prime_inverse(x: u64)
    ensures
        (((x as nat * PRIME as nat) % 0x1_0000_0000_0000_0000) * 0xCE96_5057_AFF6_957Bnat)
            % 0x1_0000_0000_0000_0000 == x,
{
    let m: int = 0x1_0000_0000_0000_0000;
    let p: int = PRIME as int;
    let inv: int = 0xCE96_5057_AFF6_957B;
    let k: int = 0xCE96_5059_0F;
    let xi: int = x as int;
    assert(p * inv == 1 + k * m);
    vstd::arithmetic::div_mod::lemma_mul_mod_noop_left(xi * p, inv, m);
    assert((xi * p) * inv == m * (xi * k) + xi) by (nonlinear_arith)
        requires
            p * inv == 1 + k * m,
    ;
    vstd::arithmetic::div_mod::lemma_mod_multiples_vanish(xi * k, xi, m);
    vstd::arithmetic::div_mod::lemma_small_mod(x as nat, m as nat);
}

/// One hashing step is injective in the state: two different states
/// stay different after the same byte.
proof fn lemma_hash_step_injective(h1: u64, h2: u64, b: u8)
    requires
        h1 != h2,
    ensures
        hash_step(h1, b) != hash_step(h2, b),
{
    let r1 = rotl5(h1);
    let r2 = rotl5(h2);
    assert(r1 != r2) by (bit_vector)
        requires
            h1 != h2,
            r1 == (h1 << 5u64) | (h1 >> 59u64),
            r2 == (h2 << 5u64) | (h2 >> 59u64),
    ;
    let m1 = ((r1 as nat * PRIME as nat) % 0x1_0000_0000_0000_0000) as u64;
    let m2 = ((r2 as nat * PRIME as nat) % 0x1_0000_0000_0000_0000) as u64;
    lemma_mul_prime_inverse(r1);
    lemma_mul_prime_inverse(r2);
    assert(m1 != m2);
    let bb = b as u64;
    assert(m1 ^ bb != m2 ^ bb) by (bit_vector)
        requires
            m1 != m2,
    ;
}

/// Feeding the same bytes to two different states gives two different
/// states.
pub proof fn lemma_hash_bytes_injective(h1: u64, h2: u64, s: Seq<u8>)
    requires
        h1 != h2,
    ensures
        hash_bytes(h1, s) != hash_bytes(h2, s),
    decreases s.len(),
{
    if s.len() > 0 {
        lemma_hash_bytes_injective(h1, h2, s.drop_last());
        lemma_hash_step_injective(hash_bytes(h1, s.drop_last()), hash_bytes(h2, s.drop_last()), s.last());
    }
}

/// Two byte strings that agree but for their first byte hash differently
/// from the same state.
pub proof fn lemma_first_byte_decides(h: u64, b1: u8, b2: u8, s: Seq<u8>)
    requires
        b1 != b2,
    ensures
        hash_bytes(h, seq![b1] + s) != hash_bytes(h, seq![b2] + s),
{
    lemma_hash_bytes_append(h, seq![b1], s);
    lemma_hash_bytes_append(h, seq![b2], s);
    assert(seq![b1].drop_last() =~= Seq::<u8>::empty());
    assert(seq![b2].drop_last() =~= Seq::<u8>::empty());
    let m = ((rotl5(h) as nat * PRIME as nat) % 0x1_0000_0000_0000_0000) as u64;
    let x1 = b1 as u64;
    let x2 = b2 as u64;
    assert(m ^ x1 != m ^ x2) by (bit_vector)
        requires
            x1 != x2,
    ;
    assert(hash_bytes(h, seq![b1].drop_last()) == h);
    assert(hash_bytes(h, seq![b2].drop_last()) == h);
    assert(hash_bytes(h, seq![b1]) == hash_step(h, b1));
    assert(hash_bytes(h, seq![b2]) == hash_step(h, b2));
    assert(hash_step(h, b1) == m ^ x1);
    assert(hash_step(h, b2) == m ^ x2);
    lemma_hash_bytes_injective(hash_bytes(h, seq![b1]), hash_bytes(h, seq![b2]), s);
}

/// A sum and a product of the same two children have different
/// structural hashes.
pub proof fn lemma_sum_and_product_hash_differ(a: Expr, b: Expr)
    ensures
        hash_bytes(SEED, expr_bytes(add_of(a, b))) != hash_bytes(SEED, expr_bytes(mul_of(a, b))),
{
    let rest = expr_bytes(a) + expr_bytes(b);
    assert(expr_bytes(add_of(a, b)) =~= seq![2u8] + rest);
    assert(expr_bytes(mul_of(a, b)) =~= seq![3u8] + rest);
    lemma_first_byte_decides(SEED, 2u8, 3u8, rest);
}

/// A minimal deterministic 64-bit hasher in the FxHash style.
pub struct SipHasher {
    pub state: u64,
}

impl SipHasher {
    pub fn new(seed: u64) -> (r: SipHasher)
        ensures
            r.state == seed,
    {
        SipHasher { state: seed }
    }

    /// Feed one byte.
    pub fn write_u8(&mut self, b: u8)
        ensures
            final(self).state == hash_step(old(self).state, b),
    {
        let x = self.state;
        let rot = (x << 5u64) | (x >> 59u64);
        self.state = rot.wrapping_mul(PRIME) ^ (b as u64);
    }

    /// Feed the bytes of `bytes`, in order.
    pub fn write(&mut self, bytes: &[u8])
        ensures
            final(self).state == hash_bytes(old(self).state, bytes@),
    {
        let ghost h0 = self.state;
        let mut i: usize = 0;
        while i < bytes.len()
            invariant
                0 <= i <= bytes@.len(),
                self.state == hash_bytes(h0, bytes@.subrange(0, i as int)),
            decreases bytes@.len() - i,
        {
            let ghost before = self.state;
            self.write_u8(bytes[i]);
            proof {
                assert(bytes@.subrange(0, i + 1).drop_last() =~= bytes@.subrange(0, i as int));
            }
            i = i + 1;
        }
        proof {
            assert(bytes@.subrange(0, bytes@.len() as int) =~= bytes@);
        }
    }

    /// Feed the 4 little-endian bytes of `x`.
    pub fn write_u32(&mut self, x: u32)
        ensures
            final(self).state == hash_bytes(old(self).state, u32_le(x)),
    {
        let b: [u8; 4] = [x as u8, (x >> 8u32) as u8, (x >> 16u32) as u8, (x >> 24u32) as u8];
        self.write(&b);
        proof {
            assert(b@ =~= u32_le(x));
        }
    }

    /// Feed the 8 little-endian bytes of `x`.
    pub fn write_u64(&mut self, x: u64)
        ensures
            final(self).state == hash_bytes(old(self).state, u64_le(x)),
    {
        let b: [u8; 8] = [
            x as u8,
            (x >> 8u64) as u8,
            (x >> 16u64) as u8,
            (x >> 24u64) as u8,
            (x >> 32u64) as u8,
            (x >> 40u64) as u8,
            (x >> 48u64) as u8,
            (x >> 56u64) as u8,
        ];
        self.write(&b);
        proof {
            assert(b@ =~= u64_le(x));
        }
    }

    pub fn finish(&self) -> (r: u64)
        ensures
            r == self.state,
    {
        self.state
    }
}

proof fn lemma_one(h: u64, b: u8)
    ensures
        hash_bytes(h, seq![b]) == hash_step(h, b),
{
    assert(seq![b].drop_last() =~= Seq::<u8>::empty());
    assert(hash_bytes(h, Seq::<u8>::empty()) == h);
}

/// Feed the tag of a variable and its index.
pub fn hash_var(v: &Var, h: &mut SipHasher)
    ensures
        final(h).state == hash_bytes(old(h).state, var_bytes(*v)),
{
    let ghost h0 = h.state;
    match v {
        Var::State(i) => {
            h.write_u8(0u8);
            h.write_u32(*i);
            proof {
                lemma_one(h0, 0u8);
                lemma_hash_bytes_append(h0, seq![0u8], u32_le(*i));
            }
        },
        Var::Time => {
            h.write_u8(1u8);
            proof { lemma_one(h0, 1u8); }
        },
        Var::Param(i) => {
            h.write_u8(2u8);
            h.write_u32(*i);
            proof {
                lemma_one(h0, 2u8);
                lemma_hash_bytes_append(h0, seq![2u8], u32_le(*i));
            }
        },
        Var::DW(i) => {
            h.write_u8(3u8);
            h.write_u32(*i);
            proof {
                lemma_one(h0, 3u8);
                lemma_hash_bytes_append(h0, seq![3u8], u32_le(*i));
            }
        },
        Var::Weight => {
            h.write_u8(4u8);
            proof { lemma_one(h0, 4u8); }
        },
    }
}

/// Feed the tag of a function.
pub fn hash_fun(f: &Fun, h: &mut SipHasher)
    ensures
        final(h).state == hash_step(old(h).state, spec_fun_tag(*f)),
{
    match f {
        Fun::Exp => h.write_u8(0u8),
        Fun::Log => h.write_u8(1u8),
        Fun::Sin => h.write_u8(2u8),
        Fun::Cos => h.write_u8(3u8),
        Fun::Sqrt => h.write_u8(4u8),
    }
}

/// Feed an expression, node by node.
pub fn hash_expr(e: &Expr, h: &mut SipHasher)
    ensures
        final(h).state == hash_bytes(old(h).state, expr_bytes(*e)),
    decreases e,
{
    let ghost h0 = h.state;
    match e {
        Expr::Const(x) => {
            h.write_u8(0u8);
            h.write_u64(*x);
            proof {
                lemma_one(h0, 0u8);
                lemma_hash_bytes_append(h0, seq![0u8], u64_le(*x));
            }
        },
        Expr::Var(v) => {
            h.write_u8(1u8);
            hash_var(v, h);
            proof {
                lemma_one(h0, 1u8);
                lemma_hash_bytes_append(h0, seq![1u8], var_bytes(*v));
            }
        },
        Expr::Add(a, b) => {
            h.write_u8(2u8);
            let ghost h1 = h.state;
            hash_expr(a, h);
            let ghost h2 = h.state;
            hash_expr(b, h);
            proof {
                lemma_one(h0, 2u8);
                lemma_hash_bytes_append(h0, seq![2u8], expr_bytes(node(*a)));
                lemma_hash_bytes_append(h0, seq![2u8] + expr_bytes(node(*a)), expr_bytes(node(*b)));
            }
        },
        Expr::Mul(a, b) => {
            h.write_u8(3u8);
            hash_expr(a, h);
            hash_expr(b, h);
            proof {
                lemma_one(h0, 3u8);
                lemma_hash_bytes_append(h0, seq![3u8], expr_bytes(node(*a)));
                lemma_hash_bytes_append(h0, seq![3u8] + expr_bytes(node(*a)), expr_bytes(node(*b)));
            }
        },
        Expr::Pow(a, n) => {
            h.write_u8(4u8);
            hash_expr(a, h);
            h.write_u32(*n as u32);
            proof {
                lemma_one(h0, 4u8);
                lemma_hash_bytes_append(h0, seq![4u8], expr_bytes(node(*a)));
                lemma_hash_bytes_append(h0, seq![4u8] + expr_bytes(node(*a)), u32_le(*n as u32));
            }
        },
        Expr::Fun(f, a) => {
            h.write_u8(5u8);
            hash_fun(f, h);
            hash_expr(a, h);
            proof {
                lemma_one(h0, 5u8);
                lemma_hash_bytes_append(h0, seq![5u8], seq![spec_fun_tag(*f)]);
                lemma_one(hash_step(h0, 5u8), spec_fun_tag(*f));
                assert(seq![5u8] + seq![spec_fun_tag(*f)] =~= seq![5u8, spec_fun_tag(*f)]);
                lemma_hash_bytes_append(h0, seq![5u8, spec_fun_tag(*f)], expr_bytes(node(*a)));
            }
        },
    }
}

/// The 64-bit structural hash of an expression: the hasher, started from
/// `SEED`, fed the expression's serialised bytes. A constant is hashed
/// through its bit pattern, so `-0.0` and `+0.0` give different keys.
/// Multi-byte fields are fed little-endian on every host, so the hash is
/// the same on all machines; a hasher fed native-endian integers (as
/// `std::hash::Hasher::write_u32` and `write_u64` do) agrees with it on
/// little-endian hosts only.
pub fn expr_hash(expr: &Expr) -> (r: u64)
    ensures
        r == hash_bytes(SEED, expr_bytes(*expr)),
{
    let mut h = SipHasher::new(SEED);
    hash_expr(expr, &mut h);
    h.finish()
}

} // verus!
