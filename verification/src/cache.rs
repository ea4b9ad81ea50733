//! In-memory cache of compiled kernels keyed on `(expression hash, shape)`.
//!
//! A calibration loop re-evaluates the same symbolic coefficients many
//! times with different parameter values; the cache elides recompiling
//! them. The compiled kernel type is a parameter: the cache stores
//! whatever the compiler hands back (typically a shared pointer) and hands
//! out clones of it. Two expressions with the same structural hash share
//! an entry. The cache is single-threaded by design.
use crate::expr::Expr;
use crate::hash::{expr_hash, hash_bytes, SEED};
use crate::kernel::KernelShape;
use crate::serial::expr_bytes;
use vstd::prelude::*;

verus! {

/// The shape part of a cache key.
#[derive(Debug, Clone, Copy, PartialEq, Eq, Hash, Structural)]
pub struct Key {
    pub n_state: usize,
    pub n_params: usize,
    pub n_dw: usize,
}

impl From<KernelShape> for Key {
    fn from(s: KernelShape) -> (r: Key) {
        Key { n_state: s.n_state, n_params: s.n_params, n_dw: s.n_dw }
    }
}

impl vstd::std_specs::convert::FromSpecImpl<KernelShape> for Key {
    open spec fn obeys_from_spec() -> bool {
        true
    }

    open spec fn from_spec(s: KernelShape) -> Key {
        Key { n_state: s.n_state, n_params: s.n_params, n_dw: s.n_dw }
    }
}

/// The cache key of an expression compiled for a shape.
pub open spec fn cache_key(e: Expr, shape: KernelShape) -> (u64, Key) {
    (
        hash_bytes(SEED, expr_bytes(e)),
        Key { n_state: shape.n_state, n_params: shape.n_params, n_dw: shape.n_dw },
    )
}

/// In a sequence without duplicates, the position of an element is its
/// first position.
proof fn lemma_index_of_unique<T>(s: Seq<T>, i: int, x: T)
    requires
        s.no_duplicates(),
        0 <= i < s.len(),
        s[i] == x,
    ensures
        s.index_of(x) == i,
{
    assert(s.contains(x));
    s.index_of_first_ensures(x);
}

/// A cache of compiled kernels, keyed by the structural hash of the
/// expression and the kernel shape.
///
/// The entries are a `Vec` searched in order, with no key held twice,
/// rather than a `HashMap`: vstd specifies `HashMap` only for keys whose
/// hashing it models (primitive integers, `bool` and boxes of them), and
/// the key here is a tuple, for which that model is not established.
pub struct KernelCache<K> {
    entries: Vec<((u64, Key), K)>,
}

impl<K> KernelCache<K> {
    /// The keys held, in insertion order.
    pub closed spec fn keys(&self) -> Seq<(u64, Key)> {
        self.entries@.map_values(|e: ((u64, Key), K)| e.0)
    }

    /// The kernel held under each key.
    pub closed spec fn contents(&self) -> Map<(u64, Key), K> {
        Map::new(
            |k: (u64, Key)| self.keys().contains(k),
            |k: (u64, Key)| self.entries@[self.keys().index_of(k)].1,
        )
    }

    /// No key is held twice.
    pub closed spec fn wf(&self) -> bool {
        self.keys().no_duplicates()
    }

    /// An empty cache.
    pub fn new() -> (r: Self)
        ensures
            r.wf(),
            r.contents() == Map::<(u64, Key), K>::empty(),
            r.keys().len() == 0,
    {
        let r = KernelCache { entries: Vec::new() };
        proof {
            assert(r.contents() =~= Map::<(u64, Key), K>::empty());
        }
        r
    }

    /// The number of kernels held.
    pub fn len(&self) -> (r: usize)
        requires
            self.wf(),
        ensures
            r == self.contents().dom().len(),
            r == self.keys().len(),
    {
        proof {
            self.lemma_len();
        }
        self.entries.len()
    }

    /// Whether no kernel is held.
    pub fn is_empty(&self) -> (r: bool)
        requires
            self.wf(),
        ensures
            r == (self.contents().dom().len() == 0),
    {
        proof {
            self.lemma_len();
        }
        self.entries.len() == 0
    }

    /// Drop every kernel.
    pub fn clear(&mut self)
        ensures
            final(self).wf(),
            final(self).contents() == Map::<(u64, Key), K>::empty(),
    {
        self.entries = Vec::new();
        proof {
            assert(self.contents() =~= Map::<(u64, Key), K>::empty());
        }
    }

    /// A well-formed cache holds finitely many kernels, one per key.
    pub proof fn lemma_len(&self)
        requires
            self.wf(),
        ensures
            self.contents().dom().finite(),
            self.contents().dom().len() == self.keys().len(),
    {
        assert(self.contents().dom() =~= self.keys().to_set());
        self.keys().unique_seq_to_set();
    }

    /// The position of `key`, if held.
    fn find(&self, key: (u64, Key)) -> (r: Option<usize>)
        requires
            self.wf(),
        ensures
            r is None <==> !self.keys().contains(key),
            r matches Some(i) ==> i < self.entries@.len() && self.keys()[i as int] == key
                && self.keys().index_of(key) == i,
    {
        let mut i: usize = 0;
        while i < self.entries.len()
            invariant
                i <= self.entries@.len(),
                forall|j: int| 0 <= j < i ==> self.keys()[j] != key,
                self.keys().len() == self.entries@.len(),
                self.wf(),
            decreases self.entries@.len() - i,
        {
            let k = self.entries[i].0;
            assert(k == self.keys()[i as int]);
            if k.0 == key.0 && k.1 == key.1 {
                proof {
                    assert(self.keys()[i as int] == key);
                    lemma_index_of_unique(self.keys(), i as int, key);
                }
                return Some(i);
            }
            i = i + 1;
        }
        None
    }
}

impl<K: Clone> KernelCache<K> {
    /// The kernel for `expr` compiled for `shape`: a clone of the held one
    /// on a hit; on a miss, `compile(expr, shape)` is called and what it
    /// returns is held and a clone handed out. A failed compile leaves the
    /// cache unchanged.
    pub fn get_or_compile<E, F: FnOnce(&Expr, KernelShape) -> Result<K, E>>(
        &mut self,
        expr: &Expr,
        shape: KernelShape,
        compile: F,
    ) -> (r: Result<K, E>)
        requires
            old(self).wf(),
            compile.requires((expr, shape)),
        ensures
            final(self).wf(),
            old(self).contents().dom().contains(cache_key(*expr, shape)) ==> {
                &&& final(self).contents() == old(self).contents()
                &&& final(self).keys() == old(self).keys()
                &&& r matches Ok(k) && cloned(old(self).contents()[cache_key(*expr, shape)], k)
            },
            !old(self).contents().dom().contains(cache_key(*expr, shape)) ==> match r {
                Ok(k) => {
                    let c = final(self).contents()[cache_key(*expr, shape)];
                    &&& compile.ensures((expr, shape), Ok::<K, E>(c))
                    &&& final(self).contents() == old(self).contents().insert(cache_key(*expr, shape), c)
                    &&& final(self).keys() == old(self).keys().push(cache_key(*expr, shape))
                    &&& cloned(c, k)
                },
                Err(e) => {
                    &&& compile.ensures((expr, shape), Err::<K, E>(e))
                    &&& final(self).contents() == old(self).contents()
                    &&& final(self).keys() == old(self).keys()
                },
            },
    {
        let key = (expr_hash(expr), Key::from(shape));
        assert(key == cache_key(*expr, shape));
        match self.find(key) {
            Some(i) => {
                let k = self.entries[i].1.clone();
                proof {
                    assert(self.contents().dom().contains(key));
                }
                Ok(k)
            },
            None => {
                proof {
                    assert(!self.contents().dom().contains(key));
                }
                match compile(expr, shape) {
                    Ok(c) => {
                        let k = c.clone();
                        let ghost old_keys = self.keys();
                        let ghost old_contents = self.contents();
                        self.entries.push((key, c));
                        proof {
                            let ks = self.keys();
                            assert(ks =~= old_keys.push(key));
                            assert(ks.no_duplicates()) by {
                                assert forall|j: int, l: int| 0 <= j < ks.len() && 0 <= l < ks.len() && j != l implies ks[j] != ks[l] by {
                                    if l == ks.len() - 1 {
                                        assert(old_keys[j] == ks[j]);
                                    } else if j == ks.len() - 1 {
                                        assert(old_keys[l] == ks[l]);
                                    } else {
                                        assert(old_keys[j] == ks[j] && old_keys[l] == ks[l]);
                                    }
                                }
                            }
                            lemma_index_of_unique(ks, ks.len() - 1, key);
                            assert forall|kk: (u64, Key)| #[trigger] self.contents().dom().contains(kk) == old_contents.insert(key, c).dom().contains(kk) by {
                                if ks.contains(kk) && kk != key {
                                    let j = choose|j: int| 0 <= j < ks.len() && ks[j] == kk;
                                    assert(old_keys[j] == kk);
                                }
                                if old_keys.contains(kk) {
                                    let j = choose|j: int| 0 <= j < old_keys.len() && old_keys[j] == kk;
                                    assert(ks[j] == kk);
                                }
                                if kk == key {
                                    assert(ks[ks.len() - 1] == kk);
                                }
                            }
                            assert forall|kk: (u64, Key)| #[trigger] self.contents().dom().contains(kk) implies self.contents()[kk] == old_contents.insert(key, c)[kk] by {
                                if kk == key {
                                } else {
                                    let j = choose|j: int| 0 <= j < old_keys.len() && old_keys[j] == kk;
                                    lemma_index_of_unique(old_keys, j, kk);
                                    assert(ks[j] == kk);
                                    lemma_index_of_unique(ks, j, kk);
                                }
                            }
                            assert(self.contents() =~= old_contents.insert(key, c));
                            assert(compile.ensures((expr, shape), Ok::<K, E>(c)));
                            assert(cloned(c, k));
                        }
                        Ok(k)
                    },
                    Err(e) => {
                        assert(compile.ensures((expr, shape), Err::<K, E>(e)));
                        Err(e)
                    },
                }
            },
        }
    }
}

} // verus!
