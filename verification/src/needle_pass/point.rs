//! What one spectral point of a sweep hands to a kernel.
use crate::needle_pass::buckets::NeedleTargets;
use crate::needle_pass::scan;
use crate::needle_pass::scan::{Kernel, NeedlePassInput};
use crate::needle_pass::sites::ScanSite;
use crate::scalar::Scalar;
use vstd::prelude::*;

verus! {

/// The values of one spectral point and polarization branch.
#[derive(Debug)]
pub struct PointInputs {
    pub wavelength: Scalar,
    pub sin_theta: Scalar,
    /// Complex index of every layer at the wavelength.
    pub indices: Vec<(Scalar, Scalar)>,
    /// Complex index of the seed material at the wavelength.
    pub needle: (Scalar, Scalar),
    pub thicknesses: Vec<Scalar>,
    pub rough_types: Vec<i32>,
    pub rough_vals: Vec<Scalar>,
    /// The block's first and last layer.
    pub start_idx: usize,
    pub end_idx: usize,
    /// The polarization: 0 for s, 1 for p.
    pub branch: usize,
    /// Depths of the sites below the top of the stack.
    pub depths: Vec<Scalar>,
}

/// What point inputs hold.
pub struct PointView {
    pub wavelength: Scalar,
    pub sin_theta: Scalar,
    pub indices: Seq<(Scalar, Scalar)>,
    pub needle: (Scalar, Scalar),
    pub thicknesses: Seq<Scalar>,
    pub rough_types: Seq<i32>,
    pub rough_vals: Seq<Scalar>,
    pub start_idx: usize,
    pub end_idx: usize,
    pub branch: usize,
    pub depths: Seq<Scalar>,
}

impl View for PointInputs {
    type V = PointView;

    open spec fn view(&self) -> PointView {
        PointView {
            wavelength: self.wavelength,
            sin_theta: self.sin_theta,
            indices: self.indices@,
            needle: self.needle,
            thicknesses: self.thicknesses@,
            rough_types: self.rough_types@,
            rough_vals: self.rough_vals@,
            start_idx: self.start_idx,
            end_idx: self.end_idx,
            branch: self.branch,
            depths: self.depths@,
        }
    }
}

impl PointInputs {
    /// The layers agree in number, and the block has an inner layer.
    pub open spec fn shaped(&self) -> bool {
        &&& self.thicknesses@.len() == self.indices@.len()
        &&& self.rough_types@.len() == self.indices@.len()
        &&& self.rough_vals@.len() == self.indices@.len()
        &&& self.start_idx + 2 <= self.end_idx
        &&& self.end_idx < self.indices@.len()
        &&& self.branch < 2
    }
}

/// A demand on a kernel at a point: its target, which a gradient has none of,
/// and its weight or gradient factor.
#[derive(Clone, Copy, Debug, PartialEq, Eq, Structural)]
pub struct Drive {
    pub kernel: Kernel,
    pub target: Option<Scalar>,
    pub weight: Scalar,
}

/// The target of a kernel at spectral point `k`.
pub open spec fn kernel_target(f: &NeedleTargets, kernel: Kernel, k: int) -> Option<Scalar> {
    match kernel {
        Kernel::R => Some(f.r.0@[k]),
        Kernel::T => Some(f.t.0@[k]),
        Kernel::A => Some(f.a.0@[k]),
        Kernel::Tb => Some(f.tb.0@[k]),
        Kernel::Rb => Some(f.rb.0@[k]),
        Kernel::Ab => Some(f.ab.0@[k]),
        Kernel::GradR => None,
        Kernel::GradT => None,
        Kernel::Phi { ch } => Some(f.phi@[ch as int].0@[k]),
    }
}

/// The demand on a kernel at spectral point `k`.
pub open spec fn drive_of(f: &NeedleTargets, kernel: Kernel, k: int) -> Drive {
    Drive {
        kernel,
        target: kernel_target(f, kernel, k),
        weight: scan::kernel_weight(f, kernel, k),
    }
}

/// The demand on a kernel at spectral point `k`.
pub fn drive_at(f: &NeedleTargets, kernel: Kernel, k: usize) -> (r: Drive)
    requires
        scan::pairs_fit(f, f.grad_r@.len() as int),
        f.grad_t@.len() == f.grad_r@.len(),
        k < f.grad_r@.len(),
        kernel matches Kernel::Phi { ch } ==> ch < f.phi@.len(),
    ensures
        r == drive_of(f, kernel, k as int),
{
    let target: Option<Scalar> = match kernel {
        Kernel::R => Some(f.r.0[k]),
        Kernel::T => Some(f.t.0[k]),
        Kernel::A => Some(f.a.0[k]),
        Kernel::Tb => Some(f.tb.0[k]),
        Kernel::Rb => Some(f.rb.0[k]),
        Kernel::Ab => Some(f.ab.0[k]),
        Kernel::GradR => None,
        Kernel::GradT => None,
        Kernel::Phi { ch } => {
            assert(scan::pair_fits(f.phi@[ch as int], f.grad_r@.len() as int));
            Some(f.phi[ch].0[k])
        },
    };
    Drive { kernel, target, weight: scan::weight_at(f, kernel, k) }
}

/// The depths of sites.
pub open spec fn depths_of(sites: Seq<ScanSite>) -> Seq<Scalar> {
    sites.map_values(|s: ScanSite| s.z_nm)
}

/// The depths of sites.
pub fn site_depths(sites: &Vec<ScanSite>) -> (r: Vec<Scalar>)
    ensures
        r@ == depths_of(sites@),
{
    let mut out: Vec<Scalar> = Vec::with_capacity(sites.len());
    let mut i: usize = 0;
    while i < sites.len()
        invariant
            i <= sites@.len(),
            out@ == depths_of(sites@).take(i as int),
        decreases sites.len() - i,
    {
        out.push(sites[i].z_nm);
        i += 1;
        assert(out@ =~= depths_of(sites@).take(i as int));
    }
    assert(out@ =~= depths_of(sites@));
    out
}

/// The index of layer `l` at wavelength `w`: the cache holds, wavelength by
/// wavelength, the real and imaginary part of each layer's index.
pub open spec fn cached_index(cache: Seq<Scalar>, nl: int, w: int, l: int) -> (Scalar, Scalar) {
    (cache[w * nl * 2 + l * 2], cache[w * nl * 2 + l * 2 + 1])
}

/// What spectral point `k` of a sweep hands to the kernels of a branch. Points
/// run over the wavelengths of the first angle, then of the next.
pub open spec fn point_inputs<'a>(
    input: &NeedlePassInput<'a>,
    sites: Seq<ScanSite>,
    k: int,
    branch: usize,
) -> PointView {
    let nw = input.wavls@.len() as int;
    let nl = input.n_layers as int;
    let w = k % nw;
    PointView {
        wavelength: input.wavls@[w],
        sin_theta: input.sin_theta@[k / nw],
        indices: Seq::new(
            nl as nat,
            |l: int| cached_index(input.n_stack_cache@, nl, w, l),
        ),
        needle: input.needle_n_per_wav@[w],
        thicknesses: input.thicknesses@,
        rough_types: input.rough_types@,
        rough_vals: input.rough_vals@,
        start_idx: input.start_idx,
        end_idx: input.end_idx,
        branch,
        depths: depths_of(sites),
    }
}

proof fn point_place(k: int, na: int, nw: int)
    by (nonlinear_arith)
    requires
        0 <= k < na * nw,
        0 < nw,
    ensures
        0 <= k / nw < na,
        0 <= k % nw < nw,
{
}

proof fn cache_place(w: int, nw: int, l: int, nl: int)
    by (nonlinear_arith)
    requires
        0 <= w < nw,
        0 <= l < nl,
    ensures
        0 <= w * nl,
        0 <= w * nl * 2,
        w * nl * 2 + l * 2 + 1 < nw * nl * 2,
{
}

fn copy_scalars(xs: &Vec<Scalar>) -> (r: Vec<Scalar>)
    ensures
        r@ == xs@,
{
    let mut out: Vec<Scalar> = Vec::with_capacity(xs.len());
    let mut i: usize = 0;
    while i < xs.len()
        invariant
            i <= xs@.len(),
            out@ == xs@.take(i as int),
        decreases xs.len() - i,
    {
        out.push(xs[i]);
        i += 1;
        assert(out@ =~= xs@.take(i as int));
    }
    assert(out@ =~= xs@);
    out
}

fn copy_types(xs: &Vec<i32>) -> (r: Vec<i32>)
    ensures
        r@ == xs@,
{
    let mut out: Vec<i32> = Vec::with_capacity(xs.len());
    let mut i: usize = 0;
    while i < xs.len()
        invariant
            i <= xs@.len(),
            out@ == xs@.take(i as int),
        decreases xs.len() - i,
    {
        out.push(xs[i]);
        i += 1;
        assert(out@ =~= xs@.take(i as int));
    }
    assert(out@ =~= xs@);
    out
}

/// The inputs of spectral point `k` for one branch.
pub fn inputs_at<'a>(
    input: &NeedlePassInput<'a>,
    sites: &Vec<ScanSite>,
    k: usize,
    branch: usize,
) -> (r: PointInputs)
    requires
        input.sizes_fit(),
        input.layout_fault() is None,
        k < input.points(),
        branch < 2,
    ensures
        r@ == point_inputs(input, sites@, k as int, branch),
        r.shaped(),
        r.depths@.len() == sites@.len(),
{
    let nw: usize = input.wavls.len();
    let nl: usize = input.n_layers;
    proof {
        point_place(k as int, input.sin_theta@.len() as int, nw as int);
    }
    let w: usize = k % nw;
    let ghost row = point_inputs(input, sites@, k as int, branch).indices;
    let mut indices: Vec<(Scalar, Scalar)> = Vec::with_capacity(nl);
    let mut l: usize = 0;
    while l < nl
        invariant
            l <= nl == input.n_layers,
            w < nw == input.wavls@.len(),
            w == k as int % nw as int,
            input.n_stack_cache@.len() == nw * nl * 2,
            input.sizes_fit(),
            row == point_inputs(input, sites@, k as int, branch).indices,
            indices@ == row.take(l as int),
        decreases nl - l,
    {
        proof {
            cache_place(w as int, nw as int, l as int, nl as int);
        }
        let at: usize = w * nl * 2 + l * 2;
        indices.push((input.n_stack_cache[at], input.n_stack_cache[at + 1]));
        assert(row[l as int] == cached_index(input.n_stack_cache@, nl as int, w as int, l as int));
        l += 1;
        assert(indices@ =~= row.take(l as int));
    }
    assert(indices@ =~= row);
    PointInputs {
        wavelength: input.wavls[w],
        sin_theta: input.sin_theta[k / nw],
        indices,
        needle: input.needle_n_per_wav[w],
        thicknesses: copy_scalars(input.thicknesses),
        rough_types: copy_types(input.rough_types),
        rough_vals: copy_scalars(input.rough_vals),
        start_idx: input.start_idx,
        end_idx: input.end_idx,
        branch,
        depths: site_depths(sites),
    }
}

} // verus!
