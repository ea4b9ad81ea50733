//! The integer bookkeeping of the Monte Carlo drivers: multi-dimensional
//! SDE systems and their dimension checks, the split of paths into chunks
//! for parallel workers and their seeds, and the rounding of path counts to
//! whole vector batches.
use crate::diff::{derivative, diff, pow_exponents_ok};
use crate::expr::{Expr, Var};
use crate::kernel::LANES;
use crate::text::{decimal, push_decimal};
use vstd::prelude::*;
use vstd::string::*;

verus! {

/// A multi-dimensional SDE system: `mu[i]` is the drift of state component
/// `i`, `sigma[i][j]` the coefficient of Brownian increment `j` in
/// component `i`, and `payoff` the terminal payoff. The state dimension is
/// `mu.len()` and the Brownian dimension `sigma[0].len()`. The drivers
/// clamp the components listed in `nonneg_state` to stay nonnegative
/// after each step (full truncation for variance processes).
pub struct MultiSde {
    pub mu: Vec<Expr>,
    pub sigma: Vec<Vec<Expr>>,
    pub payoff: Expr,
    pub nonneg_state: Vec<usize>,
}

/// How the diffusion matrix disagrees with the drift vector.
#[derive(Debug, PartialEq, Eq, Structural)]
pub enum SdeShapeError {
    /// `sigma` has `rows` rows but `mu` has `n_state` components.
    SigmaRows { rows: usize, n_state: usize },
    /// Row `row` of `sigma` has `len` entries where `expected` were due.
    SigmaRowLength { row: usize, len: usize, expected: usize },
}

/// The message of a dimension error.
pub open spec fn shape_error_text(e: SdeShapeError) -> Seq<char> {
    match e {
        SdeShapeError::SigmaRows { rows, n_state } => seq!['s', 'i', 'g', 'm', 'a', ' ', 'h', 'a', 's', ' ']
            + decimal(rows as nat) + seq![' ', 'r', 'o', 'w', 's', ' ', 'b', 'u', 't', ' ', 'm', 'u', ' ', 'h', 'a', 's', ' ']
            + decimal(n_state as nat) + seq![' ', 'c', 'o', 'm', 'p', 'o', 'n', 'e', 'n', 't', 's'],
        SdeShapeError::SigmaRowLength { row, len, expected } => seq!['s', 'i', 'g', 'm', 'a', ' ', 'r', 'o', 'w', ' ']
            + decimal(row as nat) + seq![' ', 'h', 'a', 's', ' ', 'l', 'e', 'n', 'g', 't', 'h', ' '] + decimal(
            len as nat,
        ) + seq![',', ' ', 'e', 'x', 'p', 'e', 'c', 't', 'e', 'd', ' '] + decimal(expected as nat),
    }
}

impl SdeShapeError {
    /// The message of the error: `sigma has {rows} rows but mu has {n}
    /// components` or `sigma row {i} has length {len}, expected {m}`.
    pub fn message(&self) -> (r: String)
        ensures
            r@ == shape_error_text(*self),
    {
        let mut s = String::new();
        match self {
            SdeShapeError::SigmaRows { rows, n_state } => {
                s.append("sigma has ");
                push_decimal(&mut s, *rows as u64);
                s.append(" rows but mu has ");
                push_decimal(&mut s, *n_state as u64);
                s.append(" components");
                proof {
                    reveal_strlit("sigma has ");
                    reveal_strlit(" rows but mu has ");
                    reveal_strlit(" components");
                    assert(s@ =~= shape_error_text(*self));
                }
            },
            SdeShapeError::SigmaRowLength { row, len, expected } => {
                s.append("sigma row ");
                push_decimal(&mut s, *row as u64);
                s.append(" has length ");
                push_decimal(&mut s, *len as u64);
                s.append(", expected ");
                push_decimal(&mut s, *expected as u64);
                proof {
                    reveal_strlit("sigma row ");
                    reveal_strlit(" has length ");
                    reveal_strlit(", expected ");
                    assert(s@ =~= shape_error_text(*self));
                }
            },
        }
        s
    }
}

/// The Brownian dimension: the length of the first row of `sigma`, or 0.
pub open spec fn spec_n_dw(sigma: Seq<Vec<Expr>>) -> nat {
    if sigma.len() == 0 {
        0
    } else {
        sigma[0]@.len()
    }
}

/// The first dimension error of a system, if any: first the row count,
/// then the row lengths in order.
pub open spec fn first_shape_error(mu_len: nat, sigma: Seq<Vec<Expr>>) -> Option<SdeShapeError> {
    if sigma.len() != mu_len {
        Some(SdeShapeError::SigmaRows { rows: sigma.len() as usize, n_state: mu_len as usize })
    } else if exists|i: int| 0 <= i < sigma.len() && (#[trigger] sigma[i])@.len() != spec_n_dw(sigma) {
        let i = choose|i: int|
            0 <= i < sigma.len() && (#[trigger] sigma[i])@.len() != spec_n_dw(sigma) && forall|j: int|
                0 <= j < i ==> (#[trigger] sigma[j])@.len() == spec_n_dw(sigma);
        Some(
            SdeShapeError::SigmaRowLength {
                row: i as usize,
                len: sigma[i]@.len() as usize,
                expected: spec_n_dw(sigma) as usize,
            },
        )
    } else {
        None
    }
}

impl MultiSde {
    /// The state dimension.
    pub fn n_state(&self) -> (r: usize)
        ensures
            r == self.mu@.len(),
    {
        self.mu.len()
    }

    /// The Brownian dimension.
    pub fn n_dw(&self) -> (r: usize)
        ensures
            r == spec_n_dw(self.sigma@),
    {
        if self.sigma.len() == 0 {
            0
        } else {
            self.sigma[0].len()
        }
    }

    /// Check that `sigma` has one row per state component and that every
    /// row has the Brownian dimension; report the first disagreement.
    pub fn validate(&self) -> (r: Result<(), SdeShapeError>)
        ensures
            r == (match first_shape_error(self.mu@.len(), self.sigma@) {
                Some(e) => Err::<(), SdeShapeError>(e),
                None => Ok(()),
            }),
    {
        let n = self.n_state();
        let m = self.n_dw();
        if self.sigma.len() != n {
            return Err(SdeShapeError::SigmaRows { rows: self.sigma.len(), n_state: n });
        }
        let mut i: usize = 0;
        while i < self.sigma.len()
            invariant
                i <= self.sigma@.len(),
                m == spec_n_dw(self.sigma@),
                n == self.mu@.len(),
                self.sigma@.len() == n,
                forall|j: int| 0 <= j < i ==> (#[trigger] self.sigma@[j])@.len() == m,
            decreases self.sigma@.len() - i,
        {
            if self.sigma[i].len() != m {
                let ghost sig = self.sigma@;
                proof {
                    let k = choose|k: int|
                        0 <= k < sig.len() && (#[trigger] sig[k])@.len() != spec_n_dw(sig) && forall|j: int|
                            0 <= j < k ==> (#[trigger] sig[j])@.len() == spec_n_dw(sig);
                    assert(sig[i as int]@.len() != spec_n_dw(sig));
                    if k < i {
                        assert(sig[k]@.len() == m);
                    }
                    if k > i {
                        assert(sig[i as int]@.len() == spec_n_dw(sig));
                    }
                }
                return Err(SdeShapeError::SigmaRowLength { row: i, len: self.sigma[i].len(), expected: m });
            }
            i = i + 1;
        }
        Ok(())
    }
}

/// The number of chunks to split work into: the requested count, or the
/// number of worker threads (at least 1) when 0 is requested.
pub fn resolve_chunks(requested: usize, threads: usize) -> (r: usize)
    ensures
        r == (if requested == 0 {
            if threads == 0 { 1 } else { threads }
        } else {
            requested
        }),
        r > 0,
{
    if requested == 0 {
        if threads == 0 { 1 } else { threads }
    } else {
        requested
    }
}

/// The sum of a sequence of counts.
pub open spec fn total(s: Seq<usize>) -> int
    decreases s.len(),
{
    if s.len() == 0 {
        0
    } else {
        total(s.drop_last()) + s.last()
    }
}

/// The paths of chunk `i` when `n_paths` are split over `n_chunks`: the
/// quotient, plus one for each of the first `n_paths % n_chunks` chunks.
pub open spec fn chunk_size(n_paths: nat, n_chunks: nat, i: nat) -> nat {
    n_paths / n_chunks + if i < n_paths % n_chunks { 1nat } else { 0nat }
}

/// Split `n_paths` over `n_chunks` chunks as evenly as possible.
pub fn chunk_sizes(n_paths: usize, n_chunks: usize) -> (r: Vec<usize>)
    requires
        n_chunks > 0,
    ensures
        r@.len() == n_chunks,
        forall|i: int| 0 <= i < n_chunks ==> r@[i] == chunk_size(n_paths as nat, n_chunks as nat, i as nat),
        total(r@) == n_paths,
{
    let base = n_paths / n_chunks;
    let rem = n_paths % n_chunks;
    let mut sizes: Vec<usize> = Vec::new();
    let mut i: usize = 0;
    proof {
        vstd::arithmetic::div_mod::lemma_fundamental_div_mod(n_paths as int, n_chunks as int);
        vstd::arithmetic::div_mod::lemma_mod_bound(n_paths as int, n_chunks as int);
    }
    while i < n_chunks
        invariant
            i <= n_chunks,
            n_chunks > 0,
            base == n_paths / n_chunks,
            rem == n_paths % n_chunks,
            rem < n_chunks,
            n_paths == n_chunks * base + rem,
            sizes@.len() == i,
            forall|j: int| 0 <= j < i ==> sizes@[j] == chunk_size(n_paths as nat, n_chunks as nat, j as nat),
            total(sizes@) == i * base + (if i < rem { i as int } else { rem as int }),
        decreases n_chunks - i,
    {
        let extra: usize = if i < rem { 1 } else { 0 };
        proof {
            assert((i + 1) * base == i * base + base) by (nonlinear_arith);
            assert(i * base + base <= n_chunks * base) by (nonlinear_arith)
                requires
                    i + 1 <= n_chunks,
            ;
        }
        let ghost before = sizes@;
        sizes.push(base + extra);
        proof {
            assert(sizes@.drop_last() =~= before);
        }
        i = i + 1;
    }
    sizes
}

/// The seed of chunk `idx`: `seed + idx`, then times the golden-ratio
/// constant `0x9E3779B97F4A7C15`, both modulo 2^64.
pub open spec fn spec_chunk_seed(seed: u64, idx: u64) -> u64 {
    ((((seed as nat + idx as nat) % 0x1_0000_0000_0000_0000) * 0x9E37_79B9_7F4A_7C15nat)
        % 0x1_0000_0000_0000_0000) as u64
}

/// Multiplying by the odd constant `0x9E37_79B9_7F4A_7C15` modulo 2^64 is
/// undone by multiplying by its inverse `0xF1DE_83E1_9937_733D`.
proof fn lemma_seed_multiplier_inverse(x: u64)
    ensures
        (((x as nat * 0x9E37_79B9_7F4A_7C15nat) % 0x1_0000_0000_0000_0000) * 0xF1DE_83E1_9937_733Dnat)
            % 0x1_0000_0000_0000_0000 == x,
{
    let m: int = 0x1_0000_0000_0000_0000;
    let p: int = 0x9E37_79B9_7F4A_7C15;
    let inv: int = 0xF1DE_83E1_9937_733D;
    let k: int = 0x957B_BF35_006E_D677;
    let xi: int = x as int;
    assert(p * inv == 1 + k * m);
    vstd::arithmetic::div_mod::lemma_mul_mod_noop_left(xi * p, inv, m);
    assert((xi * p) * inv == m * (xi * k) + xi) by (nonlinear_arith)
        requires
            p * inv == 1 + k * m,
    ;
    vstd::arithmetic::div_mod::lemma_mod_multiples_vanish(xi * k, xi, m);
    vstd::arithmetic::div_mod::lemma_small_mod(x as nat, m as nat);
}

/// Different chunks of one run get different seeds, so no two chunks
/// draw the same stream of paths.
pub proof fn lemma_chunk_seeds_distinct(seed: u64, idx1: u64, idx2: u64)
    requires
        idx1 != idx2,
    ensures
        spec_chunk_seed(seed, idx1) != spec_chunk_seed(seed, idx2),
{
    let m: int = 0x1_0000_0000_0000_0000;
    let s1 = ((seed as nat + idx1 as nat) % 0x1_0000_0000_0000_0000) as u64;
    let s2 = ((seed as nat + idx2 as nat) % 0x1_0000_0000_0000_0000) as u64;
    assert(s1 != s2) by {
        if seed as int + idx1 as int >= m {
            vstd::arithmetic::div_mod::lemma_mod_multiples_vanish(1, seed as int + idx1 as int - m, m);
            vstd::arithmetic::div_mod::lemma_small_mod((seed as int + idx1 as int - m) as nat, m as nat);
        } else {
            vstd::arithmetic::div_mod::lemma_small_mod((seed + idx1) as nat, m as nat);
        }
        if seed as int + idx2 as int >= m {
            vstd::arithmetic::div_mod::lemma_mod_multiples_vanish(1, seed as int + idx2 as int - m, m);
            vstd::arithmetic::div_mod::lemma_small_mod((seed as int + idx2 as int - m) as nat, m as nat);
        } else {
            vstd::arithmetic::div_mod::lemma_small_mod((seed + idx2) as nat, m as nat);
        }
    }
    lemma_seed_multiplier_inverse(s1);
    lemma_seed_multiplier_inverse(s2);
}

/// The seed of chunk `idx`, derived from the run's seed by stream
/// splitting, so that a run is reproducible for a given seed and chunk
/// count.
pub fn chunk_seed(seed: u64, idx: usize) -> (r: u64)
    ensures
        r == spec_chunk_seed(seed, idx as u64),
{
    seed.wrapping_add(idx as u64).wrapping_mul(0x9E37_79B9_7F4A_7C15u64)
}

/// The number of vector batches for `n_paths` paths and the number of
/// paths they simulate: `n_paths` rounded up to a multiple of `LANES`.
pub fn simd_batches(n_paths: usize) -> (r: (usize, usize))
    requires
        n_paths < usize::MAX,
    ensures
        r.0 * LANES == r.1,
        n_paths <= r.1 < n_paths + LANES,
{
    let n_batches = n_paths / LANES + if n_paths % LANES != 0 { 1usize } else { 0usize };
    (n_batches, n_batches * LANES)
}

/// `g` lists the derivatives of `e` by the state components `0..n`.
pub open spec fn is_state_gradient(g: Seq<Expr>, e: Expr, n: nat) -> bool {
    &&& g.len() == n
    &&& forall|j: int| 0 <= j < n ==> #[trigger] g[j] == derivative(e, Var::State(j as u32))
}

/// The derivatives of `e` by the state components `0..n`, in order.
pub fn state_gradient(e: &Expr, n: usize) -> (r: Vec<Expr>)
    requires
        pow_exponents_ok(*e),
        n <= 0x1_0000_0000,
    ensures
        is_state_gradient(r@, *e, n as nat),
{
    let mut out: Vec<Expr> = Vec::new();
    let mut j: usize = 0;
    while j < n
        invariant
            j <= n,
            n <= 0x1_0000_0000,
            pow_exponents_ok(*e),
            is_state_gradient(out@, *e, j as nat),
        decreases n - j,
    {
        let d = diff(e, &Var::State(j as u32));
        out.push(d);
        j = j + 1;
    }
    out
}

/// Every expression of the system can be differentiated.
pub open spec fn differentiable(sde: MultiSde) -> bool {
    &&& forall|i: int| 0 <= i < sde.mu@.len() ==> pow_exponents_ok(#[trigger] sde.mu@[i])
    &&& forall|i: int, l: int|
        0 <= i < sde.sigma@.len() && 0 <= l < sde.sigma@[i]@.len() ==> pow_exponents_ok(
            #[trigger] sde.sigma@[i]@[l],
        )
    &&& pow_exponents_ok(sde.payoff)
}

/// The derivatives that the tangent (first-variation) process of a system
/// needs: `dmu_dx[i][j]` is d mu_i / d x_j, `dsigma_dx[i][l][j]` is
/// d sigma_il / d x_j and `dpayoff_dx[j]` is d payoff / d x_j.
pub struct TangentSystem {
    pub dmu_dx: Vec<Vec<Expr>>,
    pub dsigma_dx: Vec<Vec<Vec<Expr>>>,
    pub dpayoff_dx: Vec<Expr>,
}

/// `t` holds the derivatives of every expression of `sde` by the state
/// components `0..n`.
pub open spec fn is_tangent_system(t: TangentSystem, sde: MultiSde, n: nat) -> bool {
    &&& t.dmu_dx@.len() == sde.mu@.len()
    &&& forall|i: int|
        0 <= i < sde.mu@.len() ==> is_state_gradient(#[trigger] t.dmu_dx@[i]@, sde.mu@[i], n)
    &&& t.dsigma_dx@.len() == sde.sigma@.len()
    &&& forall|i: int|
        0 <= i < sde.sigma@.len() ==> (#[trigger] t.dsigma_dx@[i])@.len() == sde.sigma@[i]@.len()
    &&& forall|i: int, l: int|
        0 <= i < sde.sigma@.len() && 0 <= l < sde.sigma@[i]@.len() ==> is_state_gradient(
            (#[trigger] t.dsigma_dx@[i]@[l])@,
            sde.sigma@[i]@[l],
            n,
        )
    &&& is_state_gradient(t.dpayoff_dx@, sde.payoff, n)
}

impl MultiSde {
    /// The derivatives of the drift, diffusion and payoff by every state
    /// component, for the pathwise tangent-flow estimator.
    pub fn tangent_system(&self) -> (r: TangentSystem)
        requires
            differentiable(*self),
            self.mu@.len() <= 0x1_0000_0000,
        ensures
            is_tangent_system(r, *self, self.mu@.len()),
    {
        let n = self.mu.len();
        let mut dmu: Vec<Vec<Expr>> = Vec::new();
        let mut i: usize = 0;
        while i < n
            invariant
                i <= n,
                n == self.mu@.len(),
                n <= 0x1_0000_0000,
                differentiable(*self),
                dmu@.len() == i,
                forall|k: int| 0 <= k < i ==> is_state_gradient(#[trigger] dmu@[k]@, self.mu@[k], n as nat),
            decreases n - i,
        {
            assert(pow_exponents_ok(self.mu@[i as int]));
            let g = state_gradient(&self.mu[i], n);
            dmu.push(g);
            i = i + 1;
        }
        let mut dsig: Vec<Vec<Vec<Expr>>> = Vec::new();
        let mut i: usize = 0;
        while i < self.sigma.len()
            invariant
                i <= self.sigma@.len(),
                n == self.mu@.len(),
                n <= 0x1_0000_0000,
                differentiable(*self),
                dsig@.len() == i,
                forall|k: int| 0 <= k < i ==> (#[trigger] dsig@[k])@.len() == self.sigma@[k]@.len(),
                forall|k: int, l: int|
                    0 <= k < i && 0 <= l < self.sigma@[k]@.len() ==> is_state_gradient(
                        (#[trigger] dsig@[k]@[l])@,
                        self.sigma@[k]@[l],
                        n as nat,
                    ),
            decreases self.sigma@.len() - i,
        {
            let row = &self.sigma[i];
            let mut drow: Vec<Vec<Expr>> = Vec::new();
            let mut l: usize = 0;
            while l < row.len()
                invariant
                    l <= row@.len(),
                    *row == self.sigma@[i as int],
                    0 <= i < self.sigma@.len(),
                    n <= 0x1_0000_0000,
                    differentiable(*self),
                    drow@.len() == l,
                    forall|m: int| 0 <= m < l ==> is_state_gradient(#[trigger] drow@[m]@, row@[m], n as nat),
                decreases row@.len() - l,
            {
                assert(pow_exponents_ok(self.sigma@[i as int]@[l as int]));
                let g = state_gradient(&row[l], n);
                drow.push(g);
                l = l + 1;
            }
            let ghost before = dsig@;
            dsig.push(drow);
            proof {
                assert forall|k: int, l: int|
                    0 <= k < i + 1 && 0 <= l < self.sigma@[k]@.len() implies is_state_gradient(
                    (#[trigger] dsig@[k]@[l])@,
                    self.sigma@[k]@[l],
                    n as nat,
                ) by {
                    if k < i {
                        assert(dsig@[k] == before[k]);
                    }
                }
            }
            i = i + 1;
        }
        let dpay = state_gradient(&self.payoff, n);
        TangentSystem { dmu_dx: dmu, dsigma_dx: dsig, dpayoff_dx: dpay }
    }
}

} // verus!
