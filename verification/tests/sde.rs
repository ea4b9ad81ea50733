use elworthy::expr::Expr;
use elworthy::sde::{chunk_seed, chunk_sizes, resolve_chunks, simd_batches, state_gradient, MultiSde, SdeShapeError};

fn heston() -> MultiSde {
    let s = Expr::state(0);
    let v = Expr::state(1);
    MultiSde {
        mu: vec![Expr::param(0) * s.clone(), Expr::param(1) * (Expr::param(2) - v.clone())],
        sigma: vec![
            vec![v.clone() * s, Expr::c(0)],
            vec![Expr::c(0), Expr::param(3) * v],
        ],
        payoff: Expr::state(0),
        nonneg_state: vec![1],
    }
}

#[test]
fn heston_dimensions_are_consistent() {
    let sde = heston();
    assert_eq!(sde.n_state(), 2);
    assert_eq!(sde.n_dw(), 2);
    assert_eq!(sde.validate(), Ok(()));
}

#[test]
fn inconsistent_dimensions_are_reported() {
    let mut sde = heston();
    sde.sigma.pop();
    let err = sde.validate().unwrap_err();
    assert_eq!(err, SdeShapeError::SigmaRows { rows: 1, n_state: 2 });
    assert_eq!(err.message(), "sigma has 1 rows but mu has 2 components");

    let mut sde = heston();
    sde.sigma[1].push(Expr::time());
    let err = sde.validate().unwrap_err();
    assert_eq!(err, SdeShapeError::SigmaRowLength { row: 1, len: 3, expected: 2 });
    assert_eq!(err.message(), "sigma row 1 has length 3, expected 2");
}

#[test]
fn empty_system_has_no_noise() {
    let sde = MultiSde { mu: vec![], sigma: vec![], payoff: Expr::time(), nonneg_state: vec![] };
    assert_eq!(sde.n_dw(), 0);
    assert_eq!(sde.validate(), Ok(()));
}

#[test]
fn paths_are_split_evenly_over_chunks() {
    assert_eq!(chunk_sizes(10, 3), vec![4, 3, 3]);
    assert_eq!(chunk_sizes(2, 4), vec![1, 1, 0, 0]);
    assert_eq!(chunk_sizes(40_000, 8).iter().sum::<usize>(), 40_000);
    assert_eq!(resolve_chunks(0, 6), 6);
    assert_eq!(resolve_chunks(0, 0), 1);
    assert_eq!(resolve_chunks(5, 6), 5);
}

#[test]
fn chunk_seeds_follow_stream_splitting() {
    for (seed, idx) in [(0u64, 0usize), (42, 3), (u64::MAX, 1)] {
        let expected = seed.wrapping_add(idx as u64).wrapping_mul(0x9E3779B97F4A7C15);
        assert_eq!(chunk_seed(seed, idx), expected);
    }
}

#[test]
fn vector_batches_cover_every_path() {
    assert_eq!(simd_batches(20_000), (10_000, 20_000));
    assert_eq!(simd_batches(7), (4, 8));
    assert_eq!(simd_batches(0), (0, 0));
}

fn text(e: &Expr) -> String {
    let consts: Vec<String> = e.constants().iter().map(|b| format!("{}", f64::from_bits(*b))).collect();
    e.render(&consts)
}

#[test]
fn tangent_system_holds_every_state_derivative() {
    let sde = heston();
    let t = sde.tangent_system();
    assert_eq!(t.dmu_dx.len(), 2);
    assert_eq!(t.dmu_dx[0].len(), 2);
    assert_eq!(text(&t.dmu_dx[0][0]), "((0 * x0) + (theta0 * 1))");
    assert_eq!(text(&t.dmu_dx[0][1]), "((0 * x0) + (theta0 * 0))");
    assert_eq!(t.dsigma_dx.len(), 2);
    assert_eq!(t.dsigma_dx[1].len(), 2);
    assert_eq!(t.dsigma_dx[0][1].len(), 2);
    assert_eq!(text(&t.dsigma_dx[0][0][1]), "((1 * x0) + (x1 * 0))");
    assert_eq!(text(&t.dsigma_dx[1][0][0]), "0");
    assert_eq!(t.dpayoff_dx.len(), 2);
    assert_eq!(text(&t.dpayoff_dx[0]), "1");
    assert_eq!(text(&t.dpayoff_dx[1]), "0");
}

#[test]
fn state_gradient_of_product() {
    let e = Expr::state(0) * Expr::state(1);
    let g = state_gradient(&e, 3);
    assert_eq!(g.len(), 3);
    assert_eq!(text(&g[0]), "((1 * x1) + (x0 * 0))");
    assert_eq!(text(&g[1]), "((0 * x1) + (x0 * 1))");
    assert_eq!(text(&g[2]), "((0 * x1) + (x0 * 0))");
    assert!(state_gradient(&e, 0).is_empty());
}
