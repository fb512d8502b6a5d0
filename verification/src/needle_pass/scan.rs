//! The sweep over all sites and its best site.
use crate::arith;
use crate::needle_pass::buckets::NeedleTargets;
use crate::needle_pass::point;
use crate::needle_pass::point::{drive_at, inputs_at, Drive, PointInputs, PointView};
use crate::needle_pass::sites;
use crate::needle_pass::sites::{build_scan_sites, ScanSite};
use crate::scalar;
use crate::scalar::Scalar;
use crate::structure::span;
use crate::structure::span::Span;
use crate::structure::LayerSpec;
use vstd::prelude::*;

verus! {

/// Inputs of one sweep over a coherent block of layers.
pub struct NeedlePassInput<'a> {
    pub n_stack_cache: &'a Vec<Scalar>,
    pub thicknesses: &'a Vec<Scalar>,
    pub rough_types: &'a Vec<i32>,
    pub rough_vals: &'a Vec<Scalar>,
    pub n_layers: usize,
    pub wavls: &'a Vec<Scalar>,
    pub sin_theta: &'a Vec<Scalar>,
    pub fold: &'a NeedleTargets,
    /// Index of the seed material, per wavelength.
    pub needle_n_per_wav: &'a Vec<(Scalar, Scalar)>,
    /// The block's first and last layer; hosts lie strictly between.
    pub start_idx: usize,
    pub end_idx: usize,
    pub calc_s: bool,
    pub calc_p: bool,
}

/// Why a sweep was refused.
#[derive(Clone, Copy, Debug, PartialEq, Eq, Structural)]
pub enum ScanFault {
    EmptyGrid,
    CacheLayout,
    LayerArrays,
    FoldBuckets,
    FoldGrads,
    NeedleIndex,
    BlockRange,
    NoHost,
    NoBranch,
}

/// A pair covers the grid.
pub open spec fn pair_fits(pair: (Vec<Scalar>, Vec<Scalar>), n: int) -> bool {
    pair.0@.len() == n && pair.1@.len() == n
}

/// All folded pairs cover the grid.
pub open spec fn pairs_fit(f: &NeedleTargets, n: int) -> bool {
    &&& pair_fits(f.r, n)
    &&& pair_fits(f.t, n)
    &&& pair_fits(f.a, n)
    &&& pair_fits(f.rb, n)
    &&& pair_fits(f.tb, n)
    &&& pair_fits(f.ab, n)
    &&& forall|ch: int| 0 <= ch < f.phi@.len() ==> pair_fits(#[trigger] f.phi@[ch], n)
}

impl<'a> NeedlePassInput<'a> {
    /// Number of spectral points.
    pub open spec fn points(&self) -> nat {
        self.sin_theta@.len() * self.wavls@.len()
    }

    /// The first thing wrong with the inputs, whatever the sites are.
    pub open spec fn layout_fault(&self) -> Option<ScanFault> {
        let nw = self.wavls@.len();
        let na = self.sin_theta@.len();
        let nl = self.n_layers as nat;
        if nw == 0 || na == 0 {
            Some(ScanFault::EmptyGrid)
        } else if self.n_stack_cache@.len() != nw * nl * 2 {
            Some(ScanFault::CacheLayout)
        } else if self.thicknesses@.len() != nl || self.rough_types@.len() != nl
            || self.rough_vals@.len() != nl {
            Some(ScanFault::LayerArrays)
        } else if !pairs_fit(self.fold, (na * nw) as int) {
            Some(ScanFault::FoldBuckets)
        } else if self.fold.grad_r@.len() != na * nw || self.fold.grad_t@.len() != na * nw {
            Some(ScanFault::FoldGrads)
        } else if self.needle_n_per_wav@.len() != nw {
            Some(ScanFault::NeedleIndex)
        } else if !(self.start_idx < self.end_idx && self.end_idx < self.n_layers) {
            Some(ScanFault::BlockRange)
        } else if self.end_idx < self.start_idx + 2 {
            Some(ScanFault::NoHost)
        } else {
            None
        }
    }

    /// The first thing wrong with a sweep over `nz` sites; without sites no
    /// polarization is needed.
    pub open spec fn fault(&self, nz: int) -> Option<ScanFault> {
        match self.layout_fault() {
            Some(f) => Some(f),
            None => if nz > 0 && !self.calc_s && !self.calc_p {
                Some(ScanFault::NoBranch)
            } else {
                None
            },
        }
    }

    /// The sizes that are multiplied fit.
    pub open spec fn sizes_fit(&self) -> bool {
        &&& self.wavls@.len() * self.n_layers * 2 <= usize::MAX
        &&& self.points() <= usize::MAX
    }

    /// Finds the fault of a sweep.
    pub fn check(&self, nz: usize) -> (r: Option<ScanFault>)
        requires
            self.sizes_fit(),
        ensures
            r == self.fault(nz as int),
    {
        let nw: usize = self.wavls.len();
        let na: usize = self.sin_theta.len();
        let nl: usize = self.n_layers;
        if nw == 0 || na == 0 {
            return Some(ScanFault::EmptyGrid);
        }
        assert(nw * nl <= nw * nl * 2) by (nonlinear_arith)
            requires
                0 <= nw,
                0 <= nl,
        ;
        if self.n_stack_cache.len() != nw * nl * 2 {
            return Some(ScanFault::CacheLayout);
        }
        if self.thicknesses.len() != nl || self.rough_types.len() != nl || self.rough_vals.len()
            != nl {
            return Some(ScanFault::LayerArrays);
        }
        let n: usize = na * nw;
        if !fold_pairs_fit(self.fold, n) {
            return Some(ScanFault::FoldBuckets);
        }
        if self.fold.grad_r.len() != n || self.fold.grad_t.len() != n {
            return Some(ScanFault::FoldGrads);
        }
        if self.needle_n_per_wav.len() != nw {
            return Some(ScanFault::NeedleIndex);
        }
        if !(self.start_idx < self.end_idx && self.end_idx < nl) {
            return Some(ScanFault::BlockRange);
        }
        if self.end_idx - self.start_idx < 2 {
            return Some(ScanFault::NoHost);
        }
        if nz > 0 && !self.calc_s && !self.calc_p {
            return Some(ScanFault::NoBranch);
        }
        None
    }
}

fn pair_len_is(pair: &(Vec<Scalar>, Vec<Scalar>), n: usize) -> (r: bool)
    ensures
        r == pair_fits(*pair, n as int),
{
    pair.0.len() == n && pair.1.len() == n
}

fn fold_pairs_fit(f: &NeedleTargets, n: usize) -> (r: bool)
    ensures
        r == pairs_fit(f, n as int),
{
    if !(pair_len_is(&f.r, n) && pair_len_is(&f.t, n) && pair_len_is(&f.a, n) && pair_len_is(
        &f.rb,
        n,
    ) && pair_len_is(&f.tb, n) && pair_len_is(&f.ab, n)) {
        return false;
    }
    let mut ch: usize = 0;
    while ch < f.phi.len()
        invariant
            ch <= f.phi.len(),
            forall|c: int| 0 <= c < ch ==> pair_fits(#[trigger] f.phi@[c], n as int),
        decreases f.phi.len() - ch,
    {
        if !pair_len_is(&f.phi[ch], n) {
            return false;
        }
        ch += 1;
    }
    true
}

/// One contribution to the profile of a spectral point.
#[derive(Clone, Copy, Debug, PartialEq, Eq, Structural)]
pub enum Kernel {
    R,
    T,
    A,
    Tb,
    Rb,
    Ab,
    GradR,
    GradT,
    Phi { ch: usize },
}

/// The weight a kernel carries at spectral point `k`.
pub open spec fn kernel_weight(f: &NeedleTargets, kernel: Kernel, k: int) -> Scalar {
    match kernel {
        Kernel::R => f.r.1@[k],
        Kernel::T => f.t.1@[k],
        Kernel::A => f.a.1@[k],
        Kernel::Tb => f.tb.1@[k],
        Kernel::Rb => f.rb.1@[k],
        Kernel::Ab => f.ab.1@[k],
        Kernel::GradR => f.grad_r@[k],
        Kernel::GradT => f.grad_t@[k],
        Kernel::Phi { ch } => f.phi@[ch as int].1@[k],
    }
}

/// The kernels in the order they are added.
pub open spec fn kernel_order(phis: nat) -> Seq<Kernel> {
    seq![
        Kernel::R,
        Kernel::T,
        Kernel::A,
        Kernel::Tb,
        Kernel::Rb,
        Kernel::Ab,
        Kernel::GradR,
        Kernel::GradT,
    ] + Seq::new(phis, |ch: int| Kernel::Phi { ch: ch as usize })
}

/// Those of the first `n` kernels that carry a weight at point `k`.
pub open spec fn active(f: &NeedleTargets, order: Seq<Kernel>, k: int, n: int) -> Seq<Kernel>
    decreases n,
{
    if n <= 0 {
        seq![]
    } else if scalar::same(kernel_weight(f, order[n - 1], k), Scalar::zero()) {
        active(f, order, k, n - 1)
    } else {
        active(f, order, k, n - 1).push(order[n - 1])
    }
}

/// The kernels that carry a weight at point `k`.
pub open spec fn active_at(f: &NeedleTargets, k: int) -> Seq<Kernel> {
    let order = kernel_order(f.phi@.len());
    active(f, order, k, order.len() as int)
}

/// The weight a kernel carries at spectral point `k`.
pub fn weight_at(f: &NeedleTargets, kernel: Kernel, k: usize) -> (r: Scalar)
    requires
        pairs_fit(f, f.grad_r@.len() as int),
        f.grad_t@.len() == f.grad_r@.len(),
        k < f.grad_r@.len(),
        kernel matches Kernel::Phi { ch } ==> ch < f.phi@.len(),
    ensures
        r == kernel_weight(f, kernel, k as int),
{
    match kernel {
        Kernel::R => f.r.1[k],
        Kernel::T => f.t.1[k],
        Kernel::A => f.a.1[k],
        Kernel::Tb => f.tb.1[k],
        Kernel::Rb => f.rb.1[k],
        Kernel::Ab => f.ab.1[k],
        Kernel::GradR => f.grad_r[k],
        Kernel::GradT => f.grad_t[k],
        Kernel::Phi { ch } => {
            assert(pair_fits(f.phi@[ch as int], f.grad_r@.len() as int));
            f.phi[ch].1[k]
        },
    }
}

/// Lists the kernels that carry a weight at point `k`; the others contribute
/// exact zeros and are left out.
pub fn active_kernels(f: &NeedleTargets, k: usize) -> (r: Vec<Kernel>)
    requires
        pairs_fit(f, f.grad_r@.len() as int),
        f.grad_t@.len() == f.grad_r@.len(),
        k < f.grad_r@.len(),
        f.phi@.len() + 8 <= usize::MAX,
    ensures
        r@ == active_at(f, k as int),
        forall|j: int|
            0 <= j < r@.len() ==> ((#[trigger] r@[j]) matches Kernel::Phi { ch } ==> ch
                < f.phi@.len()),
{
    let ghost order = kernel_order(f.phi@.len());
    let mut out: Vec<Kernel> = Vec::new();
    let n: usize = f.phi.len() + 8;
    let mut j: usize = 0;
    while j < n
        invariant
            j <= n == f.phi@.len() + 8,
            pairs_fit(f, f.grad_r@.len() as int),
            f.grad_t@.len() == f.grad_r@.len(),
            k < f.grad_r@.len(),
            order == kernel_order(f.phi@.len()),
            out@ == active(f, order, k as int, j as int),
            forall|i: int|
                0 <= i < out@.len() ==> ((#[trigger] out@[i]) matches Kernel::Phi { ch } ==> ch
                    < f.phi@.len()),
        decreases n - j,
    {
        let kernel: Kernel = if j == 0 {
            Kernel::R
        } else if j == 1 {
            Kernel::T
        } else if j == 2 {
            Kernel::A
        } else if j == 3 {
            Kernel::Tb
        } else if j == 4 {
            Kernel::Rb
        } else if j == 5 {
            Kernel::Ab
        } else if j == 6 {
            Kernel::GradR
        } else if j == 7 {
            Kernel::GradT
        } else {
            Kernel::Phi { ch: j - 8 }
        };
        assert(kernel == order[j as int]);
        if !weight_at(f, kernel, k).same_value(Scalar::zero()) {
            out.push(kernel);
        }
        j += 1;
    }
    out
}

/// The entries of column `z`.
pub open spec fn column(rows: Seq<Vec<Scalar>>, z: int) -> Seq<Scalar> {
    rows.map_values(|r: Vec<Scalar>| r@[z])
}

/// `sums` holds, per column, the rows added up from zero.
pub open spec fn column_sums<P: Fn(Scalar, Scalar) -> Scalar>(
    plus: P,
    rows: Seq<Vec<Scalar>>,
    sums: Seq<Scalar>,
) -> bool {
    forall|z: int|
        0 <= z < sums.len() ==> arith::folds(
            plus,
            seq![Scalar::zero()] + column(rows, z),
            #[trigger] sums[z],
        )
}

/// Adds rows of `nz` entries up, column by column, in the order of the rows.
pub fn add_rows<P: Fn(Scalar, Scalar) -> Scalar>(
    rows: &Vec<Vec<Scalar>>,
    nz: usize,
    plus: &P,
) -> (r: Vec<Scalar>)
    requires
        forall|i: int| 0 <= i < rows@.len() ==> (#[trigger] rows@[i])@.len() == nz,
        arith::accepts_pairs(*plus),
    ensures
        r@.len() == nz,
        column_sums(*plus, rows@, r@),
{
    let mut out: Vec<Scalar> = Vec::with_capacity(nz);
    let mut z: usize = 0;
    while z < nz
        invariant
            z <= nz,
            forall|i: int| 0 <= i < rows@.len() ==> (#[trigger] rows@[i])@.len() == nz,
            arith::accepts_pairs(*plus),
            out.len() == z,
            forall|y: int|
                0 <= y < z ==> arith::folds(
                    *plus,
                    seq![Scalar::zero()] + column(rows@, y),
                    #[trigger] out@[y],
                ),
        decreases nz - z,
    {
        let mut acc: Scalar = Scalar::zero();
        let ghost col = column(rows@, z as int);
        proof {
            arith::folds_one(*plus, acc);
            assert(seq![Scalar::zero()] + col.take(0) =~= seq![Scalar::zero()]);
        }
        let mut i: usize = 0;
        while i < rows.len()
            invariant
                i <= rows.len(),
                z < nz,
                forall|i: int| 0 <= i < rows@.len() ==> (#[trigger] rows@[i])@.len() == nz,
                arith::accepts_pairs(*plus),
                col == column(rows@, z as int),
                arith::folds(*plus, seq![Scalar::zero()] + col.take(i as int), acc),
            decreases rows.len() - i,
        {
            assert(rows@[i as int]@.len() == nz);
            let x: Scalar = rows[i][z];
            let next: Scalar = plus(acc, x);
            proof {
                arith::folds_push(
                    *plus,
                    seq![Scalar::zero()] + col.take(i as int),
                    acc,
                    x,
                    next,
                );
                assert((seq![Scalar::zero()] + col.take(i as int)).push(x) =~= seq![
                    Scalar::zero(),
                ] + col.take(i + 1));
            }
            acc = next;
            i += 1;
        }
        assert(col.take(i as int) =~= col);
        out.push(acc);
        z += 1;
    }
    out
}

/// The polarization branches that are on: 0 for s, 1 for p.
pub open spec fn branches(calc_s: bool, calc_p: bool) -> Seq<usize> {
    (if calc_s {
        seq![0usize]
    } else {
        seq![]
    }) + (if calc_p {
        seq![1usize]
    } else {
        seq![]
    })
}

/// The (branch, kernel) pairs of a point: all kernels of one branch, then all
/// of the next.
pub open spec fn calls(bs: Seq<usize>, ks: Seq<Kernel>) -> Seq<(usize, Kernel)> {
    Seq::new(
        bs.len() * ks.len(),
        |i: int| (bs[i / (ks.len() as int)], ks[i % (ks.len() as int)]),
    )
}

/// A kernel, asked with these inputs and this demand, gave `row`.
pub open spec fn answered<K: Fn(&PointInputs, Drive) -> Vec<Scalar>>(
    kernel: K,
    at: PointView,
    d: Drive,
    row: Vec<Scalar>,
) -> bool {
    exists|p: PointInputs| #[trigger] call_ensures(kernel, (&p, d), row) && p@ == at
}

/// The kernel takes all well-shaped inputs and gives one value per site.
pub open spec fn serves<K: Fn(&PointInputs, Drive) -> Vec<Scalar>>(kernel: K) -> bool {
    &&& forall|p: PointInputs, d: Drive| p.shaped() ==> #[trigger] call_requires(kernel, (&p, d))
    &&& forall|p: PointInputs, d: Drive, v: Vec<Scalar>| #[trigger]
        call_ensures(kernel, (&p, d), v) ==> v@.len() == p.depths@.len()
}

/// The kernels gave `rows` at spectral point `k`, one for each call in order.
pub open spec fn point_answers<'a, K: Fn(&PointInputs, Drive) -> Vec<Scalar>>(
    kernel: K,
    input: &NeedlePassInput<'a>,
    sites: Seq<ScanSite>,
    k: int,
    cs: Seq<(usize, Kernel)>,
    rows: Seq<Vec<Scalar>>,
) -> bool {
    &&& rows.len() == cs.len()
    &&& forall|i: int|
        0 <= i < rows.len() ==> answered(
            kernel,
            point::point_inputs(input, sites, k, cs[i].0),
            point::drive_of(input.fold, cs[i].1, k),
            #[trigger] rows[i],
        )
}

/// `row` is the profile of spectral point `k` over the branches `bs`.
pub open spec fn point_profile<
    'a,
    K: Fn(&PointInputs, Drive) -> Vec<Scalar>,
    P: Fn(Scalar, Scalar) -> Scalar,
>(
    kernel: K,
    plus: P,
    input: &NeedlePassInput<'a>,
    bs: Seq<usize>,
    sites: Seq<ScanSite>,
    k: int,
    row: Seq<Scalar>,
) -> bool {
    exists|rows: Seq<Vec<Scalar>>|
        {
            &&& point_answers(
                kernel,
                input,
                sites,
                k,
                calls(bs, active_at(input.fold, k)),
                rows,
            )
            &&& #[trigger] column_sums(plus, rows, row)
        }
}

/// The profile of one spectral point over the sites: every active kernel of
/// every enabled branch, added up.
pub fn point_row<
    'a,
    K: Fn(&PointInputs, Drive) -> Vec<Scalar>,
    P: Fn(Scalar, Scalar) -> Scalar,
>(input: &NeedlePassInput<'a>, sites: &Vec<ScanSite>, k: usize, kernel: &K, plus: &P) -> (r: Vec<
    Scalar,
>)
    requires
        input.sizes_fit(),
        input.layout_fault() is None,
        k < input.points(),
        input.fold.phi@.len() + 8 <= usize::MAX,
        serves(*kernel),
        arith::accepts_pairs(*plus),
    ensures
        r@.len() == sites@.len(),
        point_profile(
            *kernel,
            *plus,
            input,
            branches(input.calc_s, input.calc_p),
            sites@,
            k as int,
            r@,
        ),
{
    let nz: usize = sites.len();
    let ks: Vec<Kernel> = active_kernels(input.fold, k);
    let mut bs: Vec<usize> = Vec::new();
    if input.calc_s {
        bs.push(0);
    }
    if input.calc_p {
        bs.push(1);
    }
    assert(bs@ =~= branches(input.calc_s, input.calc_p));
    let ghost cs = calls(bs@, ks@);
    let mut rows: Vec<Vec<Scalar>> = Vec::new();
    let mut b: usize = 0;
    while b < bs.len()
        invariant
            b <= bs.len(),
            nz == sites@.len(),
            input.sizes_fit(),
            input.layout_fault() is None,
            k < input.points(),
            cs == calls(bs@, ks@),
            forall|i: int| 0 <= i < bs@.len() ==> (#[trigger] bs@[i]) < 2,
            forall|j: int|
                0 <= j < ks@.len() ==> ((#[trigger] ks@[j]) matches Kernel::Phi { ch } ==> ch
                    < input.fold.phi@.len()),
            serves(*kernel),
            rows@.len() == b * ks@.len(),
            b * ks@.len() <= cs.len(),
            forall|i: int| 0 <= i < rows@.len() ==> (#[trigger] rows@[i])@.len() == nz,
            forall|i: int|
                0 <= i < rows@.len() ==> answered(
                    *kernel,
                    point::point_inputs(input, sites@, k as int, cs[i].0),
                    point::drive_of(input.fold, cs[i].1, k as int),
                    #[trigger] rows@[i],
                ),
        decreases bs.len() - b,
    {
        let p: PointInputs = inputs_at(input, sites, k, bs[b]);
        let mut j: usize = 0;
        while j < ks.len()
            invariant
                b < bs.len(),
                nz == sites@.len(),
                j <= ks.len(),
                input.layout_fault() is None,
                k < input.points(),
                cs == calls(bs@, ks@),
                forall|j: int|
                    0 <= j < ks@.len() ==> ((#[trigger] ks@[j]) matches Kernel::Phi { ch } ==> ch
                        < input.fold.phi@.len()),
                serves(*kernel),
                p@ == point::point_inputs(input, sites@, k as int, bs@[b as int]),
                p.shaped(),
                p.depths@.len() == nz,
                rows@.len() == b * ks@.len() + j,
                forall|i: int| 0 <= i < rows@.len() ==> (#[trigger] rows@[i])@.len() == nz,
                forall|i: int|
                    0 <= i < rows@.len() ==> answered(
                        *kernel,
                        point::point_inputs(input, sites@, k as int, cs[i].0),
                        point::drive_of(input.fold, cs[i].1, k as int),
                        #[trigger] rows@[i],
                    ),
            decreases ks.len() - j,
        {
            let d: Drive = drive_at(input.fold, ks[j], k);
            let v: Vec<Scalar> = kernel(&p, d);
            proof {
                call_index(bs@.len() as int, ks@.len() as int, b as int, j as int);
                let i = b * ks@.len() + j;
                assert(cs[i] == (bs@[b as int], ks@[j as int]));
                assert(answered(*kernel, p@, d, v));
            }
            rows.push(v);
            j += 1;
        }
        assert(b * ks@.len() + ks@.len() == (b + 1) * ks@.len()) by (nonlinear_arith);
        assert((b + 1) * ks@.len() <= bs@.len() * ks@.len()) by (nonlinear_arith)
            requires
                b + 1 <= bs@.len(),
                0 <= ks@.len(),
        ;
        b += 1;
    }
    let sums: Vec<Scalar> = add_rows(&rows, nz, plus);
    assert(point_answers(*kernel, input, sites@, k as int, cs, rows@));
    sums
}

proof fn call_index(nb: int, nk: int, b: int, j: int)
    by (nonlinear_arith)
    requires
        0 <= b < nb,
        0 <= j < nk,
    ensures
        0 <= b * nk + j < nb * nk,
        (b * nk + j) / nk == b,
        (b * nk + j) % nk == j,
{
}

/// The sites of a sweep and the predicted gain at each.
#[derive(Debug)]
pub struct NeedlePassResult {
    pub sites: Vec<ScanSite>,
    pub p_profile: Vec<Scalar>,
}

/// `i` is the first least entry in the total order.
pub open spec fn first_least_total(ps: Seq<Scalar>, i: int) -> bool {
    &&& 0 <= i < ps.len()
    &&& forall|j: int| 0 <= j < ps.len() ==> ps[i].total_key() <= (#[trigger] ps[j]).total_key()
    &&& forall|j: int| 0 <= j < i ==> ps[i].total_key() < (#[trigger] ps[j]).total_key()
}

impl NeedlePassResult {
    /// The site of the least profile value, unless that is not negative.
    pub fn best(&self) -> (r: Option<(ScanSite, Scalar)>)
        requires
            self.p_profile@.len() <= self.sites@.len(),
        ensures
            match r {
                Some((site, p)) => exists|i: int|
                    {
                        &&& #[trigger] first_least_total(self.p_profile@, i)
                        &&& p == self.p_profile@[i]
                        &&& site == self.sites@[i]
                        &&& !scalar::at_most(Scalar::zero(), p)
                    },
                None => self.p_profile@.len() == 0 || exists|i: int|
                    {
                        &&& #[trigger] first_least_total(self.p_profile@, i)
                        &&& scalar::at_most(Scalar::zero(), self.p_profile@[i])
                    },
            },
    {
        if self.p_profile.len() == 0 {
            return None;
        }
        let mut best: usize = 0;
        let mut i: usize = 1;
        while i < self.p_profile.len()
            invariant
                1 <= i <= self.p_profile.len(),
                best < i,
                forall|j: int|
                    0 <= j < i ==> self.p_profile@[best as int].total_key() <= (
                    #[trigger] self.p_profile@[j]).total_key(),
                forall|j: int|
                    0 <= j < best ==> self.p_profile@[best as int].total_key() < (
                    #[trigger] self.p_profile@[j]).total_key(),
            decreases self.p_profile.len() - i,
        {
            if self.p_profile[i].precedes(self.p_profile[best]) {
                best = i;
            }
            i += 1;
        }
        assert(first_least_total(self.p_profile@, best as int));
        let p: Scalar = self.p_profile[best];
        if p.ge(Scalar::zero()) {
            None
        } else {
            Some((self.sites[best], p))
        }
    }
}

fn copy_sites(sites: &Vec<ScanSite>) -> (r: Vec<ScanSite>)
    ensures
        r@ == sites@,
{
    let mut out: Vec<ScanSite> = Vec::with_capacity(sites.len());
    let mut i: usize = 0;
    while i < sites.len()
        invariant
            i <= sites.len(),
            out@ == sites@.take(i as int),
        decreases sites.len() - i,
    {
        out.push(sites[i]);
        i += 1;
        assert(sites@.take(i as int) =~= sites@.take(i - 1).push(sites@[i - 1]));
    }
    assert(sites@.take(i as int) =~= sites@);
    out
}

/// `r` is what a sweep over `sites` gives.
pub open spec fn swept<
    'a,
    K: Fn(&PointInputs, Drive) -> Vec<Scalar>,
    P: Fn(Scalar, Scalar) -> Scalar,
>(
    kernel: K,
    plus: P,
    input: &NeedlePassInput<'a>,
    sites: Seq<ScanSite>,
    r: Result<NeedlePassResult, ScanFault>,
) -> bool {
    match r {
        Err(e) => input.fault(sites.len() as int) == Some(e),
        Ok(out) => {
            &&& input.fault(sites.len() as int) is None
            &&& out.sites@ == sites
            &&& out.p_profile@.len() == sites.len()
            &&& sites.len() > 0 ==> exists|rows: Seq<Vec<Scalar>>|
                {
                    &&& rows.len() == input.points()
                    &&& forall|k: int|
                        0 <= k < rows.len() ==> (#[trigger] rows[k])@.len() == sites.len()
                            && point_profile(
                            kernel,
                            plus,
                            input,
                            branches(input.calc_s, input.calc_p),
                            sites,
                            k,
                            rows[k]@,
                        )
                    &&& #[trigger] column_sums(plus, rows, out.p_profile@)
                }
        },
    }
}

/// Sweeps all sites: the profile is the sum over all spectral points, in
/// order. `kernel` answers, for the inputs of a point and a demand, with one
/// value per site.
pub fn needle_pass_scan<
    'a,
    K: Fn(&PointInputs, Drive) -> Vec<Scalar>,
    P: Fn(Scalar, Scalar) -> Scalar,
>(input: &NeedlePassInput<'a>, sites: &Vec<ScanSite>, kernel: &K, plus: &P) -> (r: Result<
    NeedlePassResult,
    ScanFault,
>)
    requires
        input.sizes_fit(),
        input.fold.phi@.len() + 8 <= usize::MAX,
        serves(*kernel),
        arith::accepts_pairs(*plus),
    ensures
        swept(*kernel, *plus, input, sites@, r),
{
    let nz: usize = sites.len();
    match input.check(nz) {
        Some(e) => {
            return Err(e);
        },
        None => {},
    }
    if nz == 0 {
        return Ok(NeedlePassResult { sites: copy_sites(sites), p_profile: Vec::new() });
    }
    let n: usize = input.sin_theta.len() * input.wavls.len();
    let mut rows: Vec<Vec<Scalar>> = Vec::with_capacity(n);
    let mut k: usize = 0;
    while k < n
        invariant
            k <= n == input.points(),
            nz == sites@.len(),
            input.sizes_fit(),
            input.fault(nz as int) is None,
            input.fold.phi@.len() + 8 <= usize::MAX,
            serves(*kernel),
            arith::accepts_pairs(*plus),
            rows@.len() == k,
            forall|i: int| 0 <= i < k ==> (#[trigger] rows@[i])@.len() == nz,
            forall|i: int|
                0 <= i < k ==> point_profile(
                    *kernel,
                    *plus,
                    input,
                    branches(input.calc_s, input.calc_p),
                    sites@,
                    i,
                    (#[trigger] rows@[i])@,
                ),
        decreases n - k,
    {
        let row: Vec<Scalar> = point_row(input, sites, k, kernel, plus);
        rows.push(row);
        k += 1;
    }
    let p_profile: Vec<Scalar> = add_rows(&rows, nz, plus);
    let out: NeedlePassResult = NeedlePassResult { sites: copy_sites(sites), p_profile };
    assert(column_sums(*plus, rows@, out.p_profile@));
    Ok(out)
}

/// Lists the candidate sites and sweeps them.
pub fn run_needle_pass<
    'a,
    N: Fn(Scalar, Scalar) -> i32,
    M: Fn(i32, Scalar) -> Scalar,
    K: Fn(&PointInputs, Drive) -> Vec<Scalar>,
    P: Fn(Scalar, Scalar) -> Scalar,
>(
    input: &NeedlePassInput<'a>,
    films: &Vec<LayerSpec>,
    spans: &Vec<Span>,
    scan_step_nm: Scalar,
    steps: &N,
    multiple: &M,
    kernel: &K,
    plus: &P,
) -> (r: Result<NeedlePassResult, ScanFault>)
    requires
        input.sizes_fit(),
        input.fold.phi@.len() + 8 <= usize::MAX,
        scalar::less(Scalar::zero(), scan_step_nm),
        spans@.len() == 0 || span::partition(spans@, films@.len() as int),
        forall|d: Scalar, s: Scalar| #[trigger] call_requires(*steps, (d, s)),
        forall|k: i32, s: Scalar| #[trigger] call_requires(*multiple, (k, s)),
        serves(*kernel),
        arith::accepts_pairs(*plus),
    ensures
        exists|z: Seq<ScanSite>|
            {
                &&& sites::candidate_sites(
                    *steps,
                    *multiple,
                    *plus,
                    films@,
                    spans@,
                    scan_step_nm,
                    z,
                )
                &&& #[trigger] swept(*kernel, *plus, input, z, r)
            },
{
    let z: Vec<ScanSite> = build_scan_sites(films, spans, scan_step_nm, steps, multiple, plus);
    let r: Result<NeedlePassResult, ScanFault> = needle_pass_scan(input, &z, kernel, plus);
    assert(swept(*kernel, *plus, input, z@, r));
    r
}

/// The calls of a point with both branches are those of s, then those of p.
pub proof fn both_branches_call_in_turn(ks: Seq<Kernel>)
    ensures
        calls(branches(true, true), ks) == calls(branches(true, false), ks) + calls(
            branches(false, true),
            ks,
        ),
{
    let n = ks.len() as int;
    let both = branches(true, true);
    assert(both =~= seq![0usize, 1usize]);
    assert(branches(true, false) =~= seq![0usize]);
    assert(branches(false, true) =~= seq![1usize]);
    let apart = calls(branches(true, false), ks) + calls(branches(false, true), ks);
    assert(calls(both, ks).len() == apart.len()) by (nonlinear_arith)
        requires
            calls(both, ks).len() == 2 * n,
            apart.len() == 1 * n + 1 * n,
    ;
    assert forall|i: int| 0 <= i < apart.len() implies calls(both, ks)[i] == apart[i] by {
        if i < n {
            call_index(1, n, 0, i);
        } else {
            call_index(2, n, 1, i - n);
            call_index(1, n, 0, i - n);
        }
    }
    assert(calls(both, ks) =~= apart);
}

/// With both branches on, the profile of a point goes on from that of s: at
/// every site the answers of p are added to the profile that s alone gives.
pub proof fn both_branches_add_up<
    'a,
    K: Fn(&PointInputs, Drive) -> Vec<Scalar>,
    P: Fn(Scalar, Scalar) -> Scalar,
>(
    kernel: K,
    plus: P,
    input: &NeedlePassInput<'a>,
    sites: Seq<ScanSite>,
    k: int,
    row: Seq<Scalar>,
)
    requires
        point_profile(kernel, plus, input, branches(true, true), sites, k, row),
    ensures
        exists|lone: Seq<Scalar>, rest: Seq<Vec<Scalar>>|
            {
                &&& #[trigger] point_profile(
                    kernel,
                    plus,
                    input,
                    branches(true, false),
                    sites,
                    k,
                    lone,
                )
                &&& #[trigger] point_answers(
                    kernel,
                    input,
                    sites,
                    k,
                    calls(branches(false, true), active_at(input.fold, k)),
                    rest,
                )
                &&& lone.len() == row.len()
                &&& forall|z: int|
                    0 <= z < row.len() ==> arith::folds(
                        plus,
                        seq![lone[z]] + column(rest, z),
                        #[trigger] row[z],
                    )
            },
{
    let ks = active_at(input.fold, k);
    both_branches_call_in_turn(ks);
    let s_calls = calls(branches(true, false), ks);
    let p_calls = calls(branches(false, true), ks);
    let all = calls(branches(true, true), ks);
    let rows = choose|rows: Seq<Vec<Scalar>>|
        {
            &&& point_answers(kernel, input, sites, k, all, rows)
            &&& #[trigger] column_sums(plus, rows, row)
        };
    let m = s_calls.len() as int;
    let first = rows.take(m);
    let rest = rows.skip(m);
    let lone = Seq::new(
        row.len(),
        |z: int| arith::midway(plus, seq![Scalar::zero()] + column(first, z), column(rest, z), row[z]),
    );
    assert(point_answers(kernel, input, sites, k, s_calls, first)) by {
        assert forall|i: int| 0 <= i < first.len() implies answered(
            kernel,
            point::point_inputs(input, sites, k, s_calls[i].0),
            point::drive_of(input.fold, s_calls[i].1, k),
            #[trigger] first[i],
        ) by {
            assert(all[i] == s_calls[i]);
            assert(first[i] == rows[i]);
        }
    }
    assert(point_answers(kernel, input, sites, k, p_calls, rest)) by {
        assert forall|i: int| 0 <= i < rest.len() implies answered(
            kernel,
            point::point_inputs(input, sites, k, p_calls[i].0),
            point::drive_of(input.fold, p_calls[i].1, k),
            #[trigger] rest[i],
        ) by {
            assert(all[m + i] == p_calls[i]);
            assert(rest[i] == rows[m + i]);
        }
    }
    assert forall|z: int| 0 <= z < row.len() implies arith::folds(
        plus,
        seq![Scalar::zero()] + column(first, z),
        #[trigger] lone[z],
    ) && arith::folds(plus, seq![lone[z]] + column(rest, z), row[z]) by {
        let head = seq![Scalar::zero()] + column(first, z);
        assert(seq![Scalar::zero()] + column(rows, z) =~= head + column(rest, z));
        assert(arith::folds(plus, seq![Scalar::zero()] + column(rows, z), row[z]));
        arith::folds_split(plus, head, column(rest, z), row[z]);
    }
    assert(column_sums(plus, first, lone));
    assert(point_profile(kernel, plus, input, branches(true, false), sites, k, lone));
}

} // verus!
