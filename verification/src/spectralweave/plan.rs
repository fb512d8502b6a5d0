//! How a long curve is distributed over frames.
use crate::numeric::Numeric;
use crate::scalar;
use crate::scalar::Scalar;
use crate::spectralweave::frame;
use crate::spectralweave::frame::SpectralData;
use std::sync::Arc;
use vstd::prelude::*;

verus! {

/// Points closer than this count as the same wavelength: 1e-12.
pub const MATCH_BITS: u64 = 0x3d71_9799_812d_ea11;

/// Which points of the long curve a frame takes.
#[derive(Debug)]
pub enum SliceOrIndices {
    /// A run of points, the end excluded.
    Slice { from: usize, upto: usize },
    /// Single points.
    Indices { at: Vec<usize> },
}

/// Which points of the long curve a frame takes.
pub enum Taking {
    Run { from: int, upto: int },
    Points { at: Seq<usize> },
}

impl Taking {
    /// How many points are taken.
    pub open spec fn size(self) -> int {
        match self {
            Taking::Run { from, upto } => upto - from,
            Taking::Points { at } => at.len() as int,
        }
    }

    /// All points lie in a curve of `n` points.
    pub open spec fn within(self, n: int) -> bool {
        match self {
            Taking::Run { from, upto } => 0 <= from <= upto <= n,
            Taking::Points { at } => forall|i: int|
                0 <= i < at.len() ==> #[trigger] at[i] < n,
        }
    }

    /// What is taken of a curve.
    pub open spec fn of(self, data: Seq<Scalar>) -> Seq<Scalar> {
        match self {
            Taking::Run { from, upto } => data.subrange(from, upto),
            Taking::Points { at } => Seq::new(at.len(), |i: int| data[at[i] as int]),
        }
    }
}

impl SliceOrIndices {
    pub open spec fn taking(&self) -> Taking {
        match self {
            SliceOrIndices::Slice { from, upto } => Taking::Run {
                from: *from as int,
                upto: *upto as int,
            },
            SliceOrIndices::Indices { at } => Taking::Points { at: at@ },
        }
    }

    /// How many points are taken.
    pub fn len(&self) -> (r: usize)
        requires
            self.taking().size() >= 0,
        ensures
            r == self.taking().size(),
    {
        match self {
            SliceOrIndices::Slice { from, upto } => *upto - *from,
            SliceOrIndices::Indices { at } => at.len(),
        }
    }

    /// A copy.
    pub fn cloned(&self) -> (r: Self)
        ensures
            r.taking() == self.taking(),
    {
        match self {
            SliceOrIndices::Slice { from, upto } => SliceOrIndices::Slice {
                from: *from,
                upto: *upto,
            },
            SliceOrIndices::Indices { at } => SliceOrIndices::Indices { at: copy_indices(at) },
        }
    }

    /// Takes the points out of `data`. A run becomes a view into `shared`,
    /// which holds `data` from `base` on, where there is one.
    pub fn gather(&self, data: &Vec<Scalar>, shared: Option<&SharedSource>) -> (r: SpectralData)
        requires
            self.taking().within(data@.len() as int),
            shared matches Some(s) ==> s.copies(data@) && (self.taking() matches Taking::Run {
                from,
                upto,
            } ==> s.base <= from && upto <= s.base + s.buf@.len()),
        ensures
            r.wf(),
            r.values() == self.taking().of(data@),
    {
        match self {
            SliceOrIndices::Slice { from, upto } => match shared {
                Some(src) => {
                    let r: SpectralData = SpectralData::part_of(
                        &src.buf,
                        *from - src.base,
                        *upto - *from,
                    );
                    assert(r.values() =~= data@.subrange(*from as int, *upto as int));
                    r
                },
                None => {
                    let part: Vec<Scalar> = copy_run(data, *from, *upto);
                    SpectralData::from_arc(Arc::new(part))
                },
            },
            SliceOrIndices::Indices { at } => {
                let ghost target = self.taking().of(data@);
                let mut out: Vec<Scalar> = Vec::with_capacity(at.len());
                let mut i: usize = 0;
                while i < at.len()
                    invariant
                        target == (Taking::Points { at: at@ }).of(data@),
                        forall|k: int| 0 <= k < at@.len() ==> #[trigger] at@[k] < data@.len(),
                        i <= at.len(),
                        out@ == target.take(i as int),
                    decreases at.len() - i,
                {
                    out.push(data[at[i]]);
                    i += 1;
                    assert(out@ =~= target.take(i as int));
                }
                assert(out@ =~= target);
                SpectralData::from_arc(Arc::new(out))
            },
        }
    }
}

fn copy_indices(at: &Vec<usize>) -> (r: Vec<usize>)
    ensures
        r@ == at@,
{
    let mut out: Vec<usize> = Vec::with_capacity(at.len());
    let mut i: usize = 0;
    while i < at.len()
        invariant
            i <= at.len(),
            out@ == at@.take(i as int),
        decreases at.len() - i,
    {
        out.push(at[i]);
        i += 1;
        assert(out@ =~= at@.take(i as int));
    }
    assert(out@ =~= at@);
    out
}

/// Copies a run of a curve.
pub fn copy_run(data: &Vec<Scalar>, from: usize, upto: usize) -> (r: Vec<Scalar>)
    requires
        from <= upto <= data@.len(),
    ensures
        r@ == data@.subrange(from as int, upto as int),
{
    let ghost target = data@.subrange(from as int, upto as int);
    let mut out: Vec<Scalar> = Vec::with_capacity(upto - from);
    let mut i: usize = from;
    while i < upto
        invariant
            from <= i <= upto <= data@.len(),
            target == data@.subrange(from as int, upto as int),
            out@ == target.take(i - from),
        decreases upto - i,
    {
        out.push(data[i]);
        i += 1;
        assert(out@ =~= target.take(i - from));
    }
    assert(out@ =~= target);
    out
}

/// A curve over the span that a plan reaches, which fragments can share.
pub struct SharedSource {
    pub buf: Arc<Vec<Scalar>>,
    pub base: usize,
}

impl SharedSource {
    /// The buffer is `data` from `base` on.
    pub open spec fn copies(&self, data: Seq<Scalar>) -> bool {
        &&& self.base + self.buf@.len() <= data.len()
        &&& self.buf@ == data.subrange(self.base as int, self.base + self.buf@.len())
    }
}

/// One cached plan with what it was made for.
#[derive(Debug)]
pub struct PlanEntry {
    pub generation: usize,
    pub wavelength: Vec<Scalar>,
    pub plan: Vec<(usize, SliceOrIndices)>,
}

/// The frames of a plan with what they take.
pub open spec fn plan_view(plan: Seq<(usize, SliceOrIndices)>) -> Seq<(int, Taking)> {
    plan.map_values(|e: (usize, SliceOrIndices)| (e.0 as int, e.1.taking()))
}

/// Copies a plan.
pub fn copy_plan(plan: &Vec<(usize, SliceOrIndices)>) -> (r: Vec<(usize, SliceOrIndices)>)
    ensures
        plan_view(r@) == plan_view(plan@),
{
    let ghost target = plan_view(plan@);
    let mut out: Vec<(usize, SliceOrIndices)> = Vec::with_capacity(plan.len());
    let mut i: usize = 0;
    while i < plan.len()
        invariant
            target == plan_view(plan@),
            i <= plan.len(),
            plan_view(out@) == target.take(i as int),
        decreases plan.len() - i,
    {
        let ghost before = plan_view(out@);
        out.push((plan[i].0, plan[i].1.cloned()));
        assert(plan_view(out@) =~= before.push(target[i as int]));
        i += 1;
        assert(plan_view(out@) =~= target.take(i as int));
    }
    assert(plan_view(out@) =~= target);
    out
}

// ---------------------------------------------------------------------------
// What one frame takes
// ---------------------------------------------------------------------------
/// The ranges of a long curve and a grid have nothing in common.
pub open spec fn apart(full: Seq<Scalar>, grid: Seq<Scalar>) -> bool {
    scalar::less(full.last(), grid[0]) || scalar::less(grid.last(), full[0])
}

/// The points below the grid come first, and so do the points not above it:
/// what a search for the grid's range relies on. An ascending curve is
/// searchable for every grid.
pub open spec fn searchable(full: Seq<Scalar>, grid: Seq<Scalar>) -> bool {
    full.len() == 0 || apart(full, grid) || forall|i: int, j: int|
        0 <= i < j < full.len() ==> (scalar::less(#[trigger] full[j], grid[0]) ==> scalar::less(
            #[trigger] full[i],
            grid[0],
        )) && (scalar::at_most(full[j], grid.last()) ==> scalar::at_most(full[i], grid.last()))
}

/// A curve is searchable for all these grids.
pub open spec fn all_searchable(full: Seq<Scalar>, grids: Seq<Seq<Scalar>>) -> bool {
    forall|i: int| 0 <= i < grids.len() ==> searchable(full, #[trigger] grids[i])
}

/// An increasing curve is searchable for every valid grid.
pub proof fn increasing_is_searchable(full: Seq<Scalar>, grid: Seq<Scalar>)
    requires
        frame::increasing(full),
    ensures
        searchable(full, grid),
{
    assert forall|i: int, j: int| 0 <= i < j < full.len() implies (scalar::less(
        #[trigger] full[j],
        grid[0],
    ) ==> scalar::less(#[trigger] full[i], grid[0])) && (scalar::at_most(full[j], grid.last())
        ==> scalar::at_most(full[i], grid.last())) by {
        frame::increasing_is_ordered(full, i, j);
    }
}

/// An increasing curve is searchable for all grids.
pub proof fn increasing_is_all_searchable(full: Seq<Scalar>, grids: Seq<Seq<Scalar>>)
    requires
        frame::increasing(full),
    ensures
        all_searchable(full, grids),
{
    assert forall|i: int| 0 <= i < grids.len() implies searchable(full, #[trigger] grids[i]) by {
        increasing_is_searchable(full, grids[i]);
    }
}

/// The first index from `i` on whose point is not below `x`.
pub open spec fn reach(wl: Seq<Scalar>, x: Scalar, i: int) -> int
    decreases wl.len() - i,
{
    if i >= wl.len() || !scalar::less(wl[i], x) {
        i
    } else {
        reach(wl, x, i + 1)
    }
}

/// The first index from `i` on whose point is above `x`.
pub open spec fn pass(wl: Seq<Scalar>, x: Scalar, i: int) -> int
    decreases wl.len() - i,
{
    if i >= wl.len() || !scalar::at_most(wl[i], x) {
        i
    } else {
        pass(wl, x, i + 1)
    }
}

/// The same points, zeros of either sign being one.
pub open spec fn same_points(a: Seq<Scalar>, b: Seq<Scalar>) -> bool {
    a.len() == b.len() && forall|i: int|
        0 <= i < a.len() ==> scalar::same(#[trigger] a[i], b[i])
}

/// Two points count as the same wavelength.
pub open spec fn matching<A: Numeric>(num: A, a: Scalar, b: Scalar) -> bool {
    scalar::less(scalar::absolute(num.difference(a, b)), (Scalar { bits: MATCH_BITS }))
}

/// The positions in `full` that match points of `grid` from `j` on, searched
/// from `fw` on; a matched position is used once.
pub open spec fn sweep<A: Numeric>(
    num: A,
    full: Seq<Scalar>,
    grid: Seq<Scalar>,
    j: int,
    fw: int,
) -> Seq<usize>
    decreases grid.len() - j,
{
    if j >= grid.len() {
        seq![]
    } else {
        let at = reach(full, grid[j], fw);
        if at < full.len() && matching(num, full[at], grid[j]) {
            seq![at as usize] + sweep(num, full, grid, j + 1, at + 1)
        } else {
            sweep(num, full, grid, j + 1, at)
        }
    }
}

/// Each position follows the one before.
pub open spec fn consecutive(at: Seq<usize>) -> bool {
    forall|i: int| 0 < i < at.len() ==> #[trigger] at[i] == at[i - 1] + 1
}

/// What a frame takes of a long curve on `full`: nothing if the ranges do not
/// overlap or no point matches, a run where its points stand together, else
/// single points.
pub open spec fn taken_by<A: Numeric>(num: A, full: Seq<Scalar>, grid: Seq<Scalar>) -> Option<
    Taking,
> {
    if apart(full, grid) {
        None
    } else {
        let lo = reach(full, grid[0], 0);
        let hi = pass(full, grid.last(), 0);
        if same_points(full.subrange(lo, hi), grid) {
            Some(Taking::Run { from: lo, upto: hi })
        } else {
            let at = sweep(num, full, grid, 0, lo);
            if at.len() == 0 {
                None
            } else if consecutive(at) {
                Some(Taking::Run { from: at[0] as int, upto: at.last() + 1 })
            } else {
                Some(Taking::Points { at })
            }
        }
    }
}

/// The plan over the first `k` frames, in the order of the frames.
pub open spec fn plan_upto<A: Numeric>(
    num: A,
    full: Seq<Scalar>,
    grids: Seq<Seq<Scalar>>,
    k: int,
) -> Seq<(int, Taking)>
    decreases k,
{
    if k <= 0 {
        seq![]
    } else {
        match taken_by(num, full, grids[k - 1]) {
            Some(t) => plan_upto(num, full, grids, k - 1).push((k - 1, t)),
            None => plan_upto(num, full, grids, k - 1),
        }
    }
}

/// The plan for a long curve; empty for an empty one.
pub open spec fn plan_for<A: Numeric>(
    num: A,
    full: Seq<Scalar>,
    grids: Seq<Seq<Scalar>>,
) -> Seq<(int, Taking)> {
    if full.len() == 0 {
        seq![]
    } else {
        plan_upto(num, full, grids, grids.len() as int)
    }
}

proof fn reach_bounds(wl: Seq<Scalar>, x: Scalar, i: int)
    requires
        0 <= i <= wl.len(),
    ensures
        i <= reach(wl, x, i) <= wl.len(),
        forall|k: int| i <= k < reach(wl, x, i) ==> scalar::less(#[trigger] wl[k], x),
    decreases wl.len() - i,
{
    if i < wl.len() && scalar::less(wl[i], x) {
        reach_bounds(wl, x, i + 1);
    }
}

proof fn pass_bounds(wl: Seq<Scalar>, x: Scalar, i: int)
    requires
        0 <= i <= wl.len(),
    ensures
        i <= pass(wl, x, i) <= wl.len(),
        pass(wl, x, i) < wl.len() ==> !scalar::at_most(wl[pass(wl, x, i)], x),
    decreases wl.len() - i,
{
    if i < wl.len() && scalar::at_most(wl[i], x) {
        pass_bounds(wl, x, i + 1);
    }
}

/// The range of a grid is not empty the other way round.
proof fn range_is_ordered(full: Seq<Scalar>, lo: Scalar, hi: Scalar)
    requires
        scalar::at_most(lo, hi) || (lo == hi),
    ensures
        reach(full, lo, 0) <= pass(full, hi, 0),
{
    reach_bounds(full, lo, 0);
    pass_bounds(full, hi, 0);
    let p = pass(full, hi, 0);
    if p < reach(full, lo, 0) {
        assert(scalar::less(full[p], lo));
    }
}

proof fn sweep_within<A: Numeric>(
    num: A,
    full: Seq<Scalar>,
    grid: Seq<Scalar>,
    j: int,
    fw: int,
)
    requires
        0 <= fw <= full.len() <= usize::MAX,
        0 <= j,
    ensures
        forall|i: int|
            0 <= i < sweep(num, full, grid, j, fw).len() ==> fw <= (#[trigger] sweep(
                num,
                full,
                grid,
                j,
                fw,
            )[i]) < full.len(),
        sweep(num, full, grid, j, fw).len() <= grid.len() - j || j > grid.len(),
    decreases grid.len() - j,
{
    if j < grid.len() {
        reach_bounds(full, grid[j], fw);
        let at = reach(full, grid[j], fw);
        if at < full.len() && matching(num, full[at], grid[j]) {
            sweep_within(num, full, grid, j + 1, at + 1);
            let rest = sweep(num, full, grid, j + 1, at + 1);
            assert forall|i: int| 0 <= i < sweep(num, full, grid, j, fw).len() implies fw <= (
            #[trigger] sweep(num, full, grid, j, fw)[i]) < full.len() by {
                if i > 0 {
                    assert(sweep(num, full, grid, j, fw)[i] == rest[i - 1]);
                }
            }
        } else {
            sweep_within(num, full, grid, j + 1, at);
        }
    }
}

proof fn consecutive_last(at: Seq<usize>, i: int)
    requires
        consecutive(at),
        0 <= i < at.len(),
    ensures
        at[i] == at[0] + i,
    decreases i,
{
    if i > 0 {
        consecutive_last(at, i - 1);
    }
}

/// What a frame takes lies in the long curve and is no more than the frame's
/// grid has points for.
pub proof fn taken_fits<A: Numeric>(num: A, full: Seq<Scalar>, grid: Seq<Scalar>)
    requires
        frame::grid_fault(grid) is None,
        0 < full.len() <= usize::MAX,
    ensures
        taken_by(num, full, grid) matches Some(t) ==> {
            &&& t.within(full.len() as int)
            &&& 0 <= t.size() <= grid.len()
        },
{
    if grid.len() > 1 {
        frame::increasing_is_ordered(grid, 0, grid.len() - 1);
    }
    range_is_ordered(full, grid[0], grid.last());
    reach_bounds(full, grid[0], 0);
    pass_bounds(full, grid.last(), 0);
    let lo = reach(full, grid[0], 0);
    let at = sweep(num, full, grid, 0, lo);
    sweep_within(num, full, grid, 0, lo);
    if at.len() > 0 && consecutive(at) {
        consecutive_last(at, at.len() - 1);
        assert(at[at.len() - 1] < full.len());
    }
}

/// Every entry of a plan names a frame and takes points of the long curve; no
/// frame is named twice.
pub proof fn plan_is_valid<A: Numeric>(
    num: A,
    full: Seq<Scalar>,
    grids: Seq<Seq<Scalar>>,
    k: int,
)
    requires
        0 <= k <= grids.len(),
        0 < full.len() <= usize::MAX,
        forall|i: int| 0 <= i < grids.len() ==> frame::grid_fault(#[trigger] grids[i]) is None,
    ensures
        forall|e: int|
            0 <= e < plan_upto(num, full, grids, k).len() ==> {
                let p = #[trigger] plan_upto(num, full, grids, k)[e];
                &&& 0 <= p.0 < k
                &&& p.1.within(full.len() as int)
                &&& 0 <= p.1.size() <= grids[p.0].len()
            },
        forall|e: int, d: int|
            0 <= e < d < plan_upto(num, full, grids, k).len() ==> (#[trigger] plan_upto(
                num,
                full,
                grids,
                k,
            )[e]).0 < (#[trigger] plan_upto(num, full, grids, k)[d]).0,
    decreases k,
{
    if k > 0 {
        plan_is_valid(num, full, grids, k - 1);
        taken_fits(num, full, grids[k - 1]);
        let prev = plan_upto(num, full, grids, k - 1);
        let cur = plan_upto(num, full, grids, k);
        assert forall|e: int| 0 <= e < cur.len() implies {
            let p = #[trigger] cur[e];
            &&& 0 <= p.0 < k
            &&& p.1.within(full.len() as int)
            &&& 0 <= p.1.size() <= grids[p.0].len()
        } by {
            if e < prev.len() {
                assert(cur[e] == prev[e]);
            }
        }
        assert forall|e: int, d: int| 0 <= e < d < cur.len() implies (#[trigger] cur[e]).0 < (
        #[trigger] cur[d]).0 by {
            assert(cur[e] == prev[e]);
            if d < prev.len() {
                assert(cur[d] == prev[d]);
            }
        }
    }
}

fn first_not_below(wl: &Vec<Scalar>, x: Scalar, from: usize) -> (r: usize)
    requires
        from <= wl@.len(),
    ensures
        r == reach(wl@, x, from as int),
        from <= r <= wl@.len(),
{
    let mut i: usize = from;
    while i < wl.len() && wl[i].lt(x)
        invariant
            from <= i <= wl@.len(),
            reach(wl@, x, i as int) == reach(wl@, x, from as int),
        decreases wl.len() - i,
    {
        i += 1;
    }
    i
}

fn first_above(wl: &Vec<Scalar>, x: Scalar) -> (r: usize)
    ensures
        r == pass(wl@, x, 0),
        r <= wl@.len(),
{
    let mut i: usize = 0;
    while i < wl.len() && wl[i].le(x)
        invariant
            i <= wl@.len(),
            pass(wl@, x, i as int) == pass(wl@, x, 0),
        decreases wl.len() - i,
    {
        i += 1;
    }
    i
}

fn run_is(full: &Vec<Scalar>, lo: usize, hi: usize, grid: &Vec<Scalar>) -> (r: bool)
    requires
        lo <= hi <= full@.len(),
    ensures
        r == same_points(full@.subrange(lo as int, hi as int), grid@),
{
    let ghost part = full@.subrange(lo as int, hi as int);
    if hi - lo != grid.len() {
        return false;
    }
    let mut i: usize = 0;
    while i < grid.len()
        invariant
            lo <= hi <= full@.len(),
            hi - lo == grid@.len(),
            part == full@.subrange(lo as int, hi as int),
            i <= grid@.len(),
            forall|k: int| 0 <= k < i ==> scalar::same(#[trigger] part[k], grid@[k]),
        decreases grid.len() - i,
    {
        assert(part[i as int] == full@[lo + i]);
        if !full[lo + i].same_value(grid[i]) {
            assert(!scalar::same(part[i as int], grid@[i as int]));
            return false;
        }
        i += 1;
    }
    true
}

fn sweep_points<A: Numeric>(num: &A, full: &Vec<Scalar>, grid: &Vec<Scalar>, lo: usize) -> (r: Vec<
    usize,
>)
    requires
        num.sound(),
        lo <= full@.len(),
    ensures
        r@ == sweep(*num, full@, grid@, 0, lo as int),
{
    let mut at: Vec<usize> = Vec::new();
    let mut fw: usize = lo;
    let mut j: usize = 0;
    assert(at@ + sweep(*num, full@, grid@, 0, lo as int) =~= sweep(
        *num,
        full@,
        grid@,
        0,
        lo as int,
    ));
    while j < grid.len()
        invariant
            num.sound(),
            fw <= full@.len(),
            j <= grid@.len(),
            at@ + sweep(*num, full@, grid@, j as int, fw as int) == sweep(
                *num,
                full@,
                grid@,
                0,
                lo as int,
            ),
        decreases grid.len() - j,
    {
        let target: Scalar = grid[j];
        let next: usize = first_not_below(full, target, fw);
        let ghost rest = sweep(*num, full@, grid@, j as int, fw as int);
        let ghost before = at@;
        if next < full.len() && num.minus(full[next], target).abs().lt(
            Scalar::from_bits(MATCH_BITS),
        ) {
            at.push(next);
            fw = next + 1;
            assert(rest == seq![next] + sweep(*num, full@, grid@, j + 1, next + 1));
            assert(at@ + sweep(*num, full@, grid@, j + 1, next + 1) =~= before + rest);
        } else {
            fw = next;
        }
        j += 1;
    }
    assert(at@ + sweep(*num, full@, grid@, j as int, fw as int) =~= at@);
    at
}

fn is_consecutive(at: &Vec<usize>) -> (r: bool)
    requires
        forall|i: int| 0 <= i < at@.len() ==> #[trigger] at@[i] < usize::MAX,
    ensures
        r == consecutive(at@),
{
    let mut i: usize = 1;
    while i < at.len()
        invariant
            1 <= i,
            i <= at@.len() || at@.len() == 0,
            forall|i: int| 0 <= i < at@.len() ==> #[trigger] at@[i] < usize::MAX,
            forall|k: int| 0 < k < i && k < at@.len() ==> #[trigger] at@[k] == at@[k - 1] + 1,
        decreases at.len() - i,
    {
        let before: usize = at[i - 1];
        if at[i] != before + 1 {
            assert(at@[i as int] != at@[i - 1] + 1);
            return false;
        }
        i += 1;
    }
    true
}

fn frame_takes<A: Numeric>(num: &A, full: &Vec<Scalar>, grid: &Vec<Scalar>) -> (r: Option<
    SliceOrIndices,
>)
    requires
        num.sound(),
        full@.len() > 0,
        frame::grid_fault(grid@) is None,
    ensures
        match r {
            Some(t) => taken_by(*num, full@, grid@) == Some(t.taking()),
            None => taken_by(*num, full@, grid@) is None,
        },
{
    let f_min: Scalar = grid[0];
    let f_max: Scalar = grid[grid.len() - 1];
    if f_min.gt(full[full.len() - 1]) || f_max.lt(full[0]) {
        return None;
    }
    let lo: usize = first_not_below(full, f_min, 0);
    let hi: usize = first_above(full, f_max);
    proof {
        if grid@.len() > 1 {
            frame::increasing_is_ordered(grid@, 0, grid@.len() - 1);
        }
        range_is_ordered(full@, grid@[0], grid@.last());
    }
    if run_is(full, lo, hi, grid) {
        return Some(SliceOrIndices::Slice { from: lo, upto: hi });
    }
    let at: Vec<usize> = sweep_points(num, full, grid, lo);
    if at.len() == 0 {
        return None;
    }
    let n: usize = full.len();
    proof {
        sweep_within(*num, full@, grid@, 0, lo as int);
    }
    if is_consecutive(&at) {
        Some(SliceOrIndices::Slice { from: at[0], upto: at[at.len() - 1] + 1 })
    } else {
        Some(SliceOrIndices::Indices { at })
    }
}

/// Plans over frames with these grids.
pub fn build_distribution_plan<A: Numeric>(
    num: &A,
    full: &Vec<Scalar>,
    grids: &Vec<&Vec<Scalar>>,
) -> (r: Vec<(usize, SliceOrIndices)>)
    requires
        num.sound(),
        forall|i: int| 0 <= i < grids@.len() ==> frame::grid_fault((#[trigger] grids@[i])@) is None,
        all_searchable(full@, grids@.map_values(|g: &Vec<Scalar>| g@)),
    ensures
        plan_view(r@) == plan_for(
            *num,
            full@,
            grids@.map_values(|g: &Vec<Scalar>| g@),
        ),
{
    plan_from_left(num, full, grids)
}

/// Plans over frames with these grids, searching from the left.
pub(crate) fn plan_from_left<A: Numeric>(
    num: &A,
    full: &Vec<Scalar>,
    grids: &Vec<&Vec<Scalar>>,
) -> (r: Vec<(usize, SliceOrIndices)>)
    requires
        num.sound(),
        forall|i: int| 0 <= i < grids@.len() ==> frame::grid_fault((#[trigger] grids@[i])@) is None,
    ensures
        plan_view(r@) == plan_for(
            *num,
            full@,
            grids@.map_values(|g: &Vec<Scalar>| g@),
        ),
{
    let ghost gs = grids@.map_values(|g: &Vec<Scalar>| g@);
    let mut plan: Vec<(usize, SliceOrIndices)> = Vec::new();
    assert(plan_view(plan@) =~= seq![]);
    if full.len() == 0 {
        return plan;
    }
    let mut k: usize = 0;
    while k < grids.len()
        invariant
            num.sound(),
            full@.len() > 0,
            gs == grids@.map_values(|g: &Vec<Scalar>| g@),
            forall|i: int|
                0 <= i < grids@.len() ==> frame::grid_fault((#[trigger] grids@[i])@) is None,
            k <= grids@.len(),
            plan_view(plan@) == plan_upto(*num, full@, gs, k as int),
        decreases grids.len() - k,
    {
        assert(frame::grid_fault(grids@[k as int]@) is None);
        match frame_takes(num, full, grids[k]) {
            Some(t) => {
                let ghost before = plan_view(plan@);
                plan.push((k, t));
                assert(plan_view(plan@) =~= before.push((k as int, t.taking())));
            },
            None => {},
        }
        k += 1;
    }
    plan
}

} // verus!
