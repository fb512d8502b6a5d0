//! The stack as the flat arrays a solver reads.
use crate::scalar::Scalar;
use crate::structure::{DesignStack, LayerSpec, LayerView};
use vstd::prelude::*;

verus! {

/// Flat solver input, one slot per layer, boundaries included.
#[derive(Debug)]
pub struct SolverArrays {
    /// Wavelength-major, real and imaginary parts interleaved per layer.
    pub n_stack_cache: Vec<Scalar>,
    pub thicknesses: Vec<Scalar>,
    /// 1 for an incoherent layer, 0 for a coherent one.
    pub incoherent_flags: Vec<i32>,
    pub rough_types: Vec<i32>,
    pub rough_vals: Vec<Scalar>,
    pub n_layers: i32,
}

/// The layer in a solver slot: ambient, then the films, then the substrate.
pub open spec fn slot_layer(s: &DesignStack, slot: int) -> LayerView {
    if slot == 0 {
        s.ambient_view()
    } else if slot <= s.rows().len() {
        s.rows()[slot - 1]
    } else {
        s.substrate_view()
    }
}

/// The cache entry of layer `slot` at wavelength `w`: its real part; the
/// imaginary part follows.
pub open spec fn cache_index(n_layers: int, w: int, slot: int) -> int {
    (w * n_layers + slot) * 2
}

impl DesignStack {
    fn layer_in_slot(&self, slot: usize) -> (r: &LayerSpec)
        requires
            slot < self.rows().len() + 2,
        ensures
            r@ == slot_layer(self, slot as int),
    {
        if slot == 0 {
            self.ambient()
        } else if slot <= self.films().len() {
            assert(self.rows()[slot - 1] == self.films@[slot - 1]@);
            &self.films[slot - 1]
        } else {
            self.substrate()
        }
    }

    /// Materializes the solver arrays.
    pub fn solver_arrays(&self) -> (r: SolverArrays)
        requires
            self.gridded(),
            self.rows().len() + 2 <= i32::MAX,
            self.grid_len() * (self.rows().len() + 2) * 2 <= usize::MAX,
        ensures
            r.n_layers == self.rows().len() + 2,
            r.thicknesses.len() == r.n_layers,
            r.incoherent_flags.len() == r.n_layers,
            r.rough_types.len() == r.n_layers,
            r.rough_vals.len() == r.n_layers,
            r.n_stack_cache.len() == self.grid_len() * r.n_layers * 2,
            forall|s: int|
                0 <= s < r.n_layers ==> {
                    let l = #[trigger] slot_layer(self, s);
                    &&& r.thicknesses@[s] == l.d_nm
                    &&& r.incoherent_flags@[s] == (if l.coherent { 0i32 } else { 1i32 })
                    &&& r.rough_types@[s] == l.rough_type
                    &&& r.rough_vals@[s] == l.rough_val
                },
            forall|w: int, s: int|
                0 <= w < self.grid_len() && 0 <= s < r.n_layers ==> {
                    let at = #[trigger] cache_index(r.n_layers as int, w, s);
                    &&& r.n_stack_cache@[at] == slot_layer(self, s).nk[w].0
                    &&& r.n_stack_cache@[at + 1] == slot_layer(self, s).nk[w].1
                },
    {
        let n: usize = self.total_layer_count();
        let nw: usize = self.num_wavs();
        let mut thicknesses: Vec<Scalar> = Vec::with_capacity(n);
        let mut incoherent_flags: Vec<i32> = Vec::with_capacity(n);
        let mut rough_types: Vec<i32> = Vec::with_capacity(n);
        let mut rough_vals: Vec<Scalar> = Vec::with_capacity(n);
        let mut s: usize = 0;
        while s < n
            invariant
                s <= n == self.rows().len() + 2,
                thicknesses.len() == s,
                incoherent_flags.len() == s,
                rough_types.len() == s,
                rough_vals.len() == s,
                forall|t: int|
                    0 <= t < s ==> {
                        let l = #[trigger] slot_layer(self, t);
                        &&& thicknesses@[t] == l.d_nm
                        &&& incoherent_flags@[t] == (if l.coherent { 0i32 } else { 1i32 })
                        &&& rough_types@[t] == l.rough_type
                        &&& rough_vals@[t] == l.rough_val
                    },
            decreases n - s,
        {
            let layer: &LayerSpec = self.layer_in_slot(s);
            thicknesses.push(layer.d_nm);
            incoherent_flags.push(
                if layer.coherent {
                    0i32
                } else {
                    1i32
                },
            );
            rough_types.push(layer.rough_type);
            rough_vals.push(layer.rough_val);
            s += 1;
        }
        let mut cache: Vec<Scalar> = Vec::new();
        let mut w: usize = 0;
        assert(0 * n * 2 == 0);
        while w < nw
            invariant
                w <= nw == self.grid_len(),
                n == self.rows().len() + 2,
                self.gridded(),
                nw * n * 2 <= usize::MAX,
                cache.len() == w * n * 2,
                forall|v: int, t: int|
                    0 <= v < w && 0 <= t < n ==> {
                        let at = #[trigger] cache_index(n as int, v, t);
                        &&& cache@[at] == slot_layer(self, t).nk[v].0
                        &&& cache@[at + 1] == slot_layer(self, t).nk[v].1
                    },
            decreases nw - w,
        {
            let mut t: usize = 0;
            while t < n
                invariant
                    t <= n,
                    w < nw == self.grid_len(),
                    n == self.rows().len() + 2,
                    self.gridded(),
                    cache.len() == (w * n + t) * 2,
                    forall|v: int, u: int|
                        0 <= v < w && 0 <= u < n || v == w && 0 <= u < t ==> {
                            let at = #[trigger] cache_index(n as int, v, u);
                            &&& cache@[at] == slot_layer(self, u).nk[v].0
                            &&& cache@[at + 1] == slot_layer(self, u).nk[v].1
                        },
                decreases n - t,
            {
                let ghost before = cache@;
                let layer: &LayerSpec = self.layer_in_slot(t);
                proof {
                    if 1 <= t && t <= self.rows().len() {
                        assert(self.rows()[t - 1].nk.len() == self.grid_len());
                    }
                }
                let (re, im) = layer.nk[w];
                cache.push(re);
                cache.push(im);
                proof {
                    assert forall|v: int, u: int|
                        0 <= v < w && 0 <= u < n || v == w && 0 <= u < t + 1 implies {
                        let at = #[trigger] cache_index(n as int, v, u);
                        &&& cache@[at] == slot_layer(self, u).nk[v].0
                        &&& cache@[at + 1] == slot_layer(self, u).nk[v].1
                    } by {
                        cache_order(n as int, w as int, t as int, v, u);
                    }
                }
                t += 1;
            }
            assert((w * n + n) * 2 == (w + 1) * n * 2) by (nonlinear_arith);
            w += 1;
        }
        SolverArrays {
            n_stack_cache: cache,
            thicknesses,
            incoherent_flags,
            rough_types,
            rough_vals,
            n_layers: n as i32,
        }
    }
}

/// Entries written earlier lie below the ones written later.
proof fn cache_order(n: int, w: int, t: int, v: int, u: int)
    by (nonlinear_arith)
    requires
        0 <= t < n,
        0 <= w,
        0 <= v < w && 0 <= u < n || v == w && 0 <= u < t + 1,
    ensures
        0 <= cache_index(n, v, u) <= (w * n + t) * 2,
        v < w || u < t ==> cache_index(n, v, u) + 1 < (w * n + t) * 2,
{
}

} // verus!
