use elworthy::cache::{Key, KernelCache};
use elworthy::expr::Expr;
use elworthy::kernel::KernelShape;
use std::cell::Cell;
use std::rc::Rc;

/// A stand-in for a compiled kernel: the shape it was built for.
fn compile_counting(count: &Cell<usize>) -> impl Fn(&Expr, KernelShape) -> Result<Rc<KernelShape>, String> + '_ {
    move |_e, s| {
        count.set(count.get() + 1);
        Ok(Rc::new(s))
    }
}

#[test]
fn cache_returns_same_kernel_twice() {
    let mut cache = KernelCache::new();
    let shape = KernelShape { n_state: 1, n_params: 1, n_dw: 0 };
    let e = Expr::state(0) * Expr::param(0);
    let compiled = Cell::new(0);
    let a = cache.get_or_compile(&e, shape, compile_counting(&compiled)).unwrap();
    let b = cache.get_or_compile(&e, shape, compile_counting(&compiled)).unwrap();
    assert!(Rc::ptr_eq(&a, &b), "cache hit expected");
    assert_eq!(cache.len(), 1);
    assert_eq!(compiled.get(), 1);
}

#[test]
fn cache_distinguishes_shapes() {
    let mut cache = KernelCache::new();
    let e = Expr::state(0);
    let s1 = KernelShape { n_state: 1, n_params: 0, n_dw: 0 };
    let s2 = KernelShape { n_state: 2, n_params: 0, n_dw: 0 };
    let compiled = Cell::new(0);
    let _a = cache.get_or_compile(&e, s1, compile_counting(&compiled)).unwrap();
    let _b = cache.get_or_compile(&e, s2, compile_counting(&compiled)).unwrap();
    assert_eq!(cache.len(), 2);
}

#[test]
fn failed_compiles_are_not_cached() {
    let mut cache: KernelCache<Rc<u32>> = KernelCache::new();
    let e = Expr::time();
    let s = KernelShape { n_state: 0, n_params: 0, n_dw: 0 };
    let r = cache.get_or_compile(&e, s, |_e: &Expr, _s: KernelShape| -> Result<Rc<u32>, String> { Err("no".to_string()) });
    assert_eq!(r.err(), Some("no".to_string()));
    assert!(cache.is_empty());
    let r = cache.get_or_compile(&e, s, |_e: &Expr, _s: KernelShape| -> Result<Rc<u32>, String> { Ok(Rc::new(9)) });
    assert_eq!(*r.unwrap(), 9);
    assert_eq!(cache.len(), 1);
    cache.clear();
    assert!(cache.is_empty());
}

#[test]
fn calibration_sweep_keeps_three_kernels() {
    let mut cache = KernelCache::new();
    let mu = Expr::param(0) * Expr::state(0);
    let sig = Expr::param(1) * Expr::state(0);
    let payoff = Expr::state(0);
    let shape = KernelShape { n_state: 1, n_params: 2, n_dw: 0 };
    let compiled = Cell::new(0);
    for _ in 0..5 {
        for e in [&mu, &sig, &payoff] {
            cache.get_or_compile(e, shape, compile_counting(&compiled)).unwrap();
        }
    }
    assert_eq!(cache.len(), 3, "cache should hold exactly 3 unique kernels");
    assert_eq!(compiled.get(), 3);
}

#[test]
fn key_from_shape() {
    let k = Key::from(KernelShape { n_state: 3, n_params: 2, n_dw: 1 });
    assert_eq!(k, Key { n_state: 3, n_params: 2, n_dw: 1 });
}
