//! Simulated curves on the solver grid.
use crate::merit::CurveId;
use crate::nearest;
use crate::nearest::nearest_index;
use crate::numeric::Numeric;
use crate::scalar::Scalar;
use vstd::prelude::*;

verus! {

/// Simulated curves, each row-major over angles and wavelengths.
#[derive(Debug)]
pub struct SimCurves {
    pub angles: Vec<Scalar>,
    pub wavelengths: Vec<Scalar>,
    /// Thickness of the whole coating.
    pub total_d: Scalar,
    /// Real index on the incidence side.
    pub n_front_re: Scalar,
    /// Real index on the exit side.
    pub n_back_re: Scalar,
    /// Front intensity rows, by slot; the absorptance slots stay empty.
    pub curves: Vec<Option<Vec<Scalar>>>,
    /// Back intensity rows, by slot.
    pub back: Vec<Option<Vec<Scalar>>>,
    /// Front complex amplitudes, by slot.
    pub cplx: Vec<Option<Vec<(Scalar, Scalar)>>>,
    /// Back complex amplitudes: reflection s, p, transmission s, p.
    pub cplx_back: Vec<Option<Vec<(Scalar, Scalar)>>>,
}

/// Why a row was not stored.
#[derive(Clone, Copy, Debug, PartialEq, Eq, Structural)]
pub enum RowError {
    /// Absorptances derive from their companions.
    Absorption { id: CurveId },
    /// The row does not cover the grid exactly.
    Length { id: CurveId, found: usize, expected: usize },
    /// The complex row does not cover the grid exactly.
    ComplexLength { id: CurveId, found: usize, expected: usize },
    /// The curve has no complex amplitude.
    NoPhase { id: CurveId },
}

/// The place of a back amplitude.
pub open spec fn back_phase_slot(id: CurveId) -> int {
    (if id.quantity() is Reflected { 0int } else { 2int }) + (if id.pol() is S { 0int } else { 1int })
}

fn empty_rows<T>(n: usize) -> (r: Vec<Option<Vec<T>>>)
    ensures
        r.len() == n,
        forall|i: int| 0 <= i < n ==> #[trigger] r@[i] is None,
{
    let mut out: Vec<Option<Vec<T>>> = Vec::with_capacity(n);
    let mut i: usize = 0;
    while i < n
        invariant
            i <= n,
            out.len() == i,
            forall|j: int| 0 <= j < i ==> #[trigger] out@[j] is None,
        decreases n - i,
    {
        out.push(None);
        i += 1;
    }
    out
}

impl SimCurves {
    /// Number of grid points in one row.
    pub open spec fn points(&self) -> nat {
        self.angles@.len() * self.wavelengths@.len()
    }

    /// Every slot exists, and every stored row covers the grid exactly.
    pub open spec fn wf(&self) -> bool {
        &&& self.curves@.len() == 9
        &&& self.back@.len() == 6
        &&& self.cplx@.len() == 6
        &&& self.cplx_back@.len() == 4
        &&& forall|i: int|
            0 <= i < 9 ==> (#[trigger] self.curves@[i] matches Some(row) ==> row@.len()
                == self.points())
        &&& forall|i: int|
            0 <= i < 6 ==> (#[trigger] self.back@[i] matches Some(row) ==> row@.len()
                == self.points())
        &&& forall|i: int|
            0 <= i < 6 ==> (#[trigger] self.cplx@[i] matches Some(row) ==> row@.len()
                == self.points())
        &&& forall|i: int|
            0 <= i < 4 ==> (#[trigger] self.cplx_back@[i] matches Some(row) ==> row@.len()
                == self.points())
    }

    /// The stored intensity row of a curve.
    pub open spec fn intensity(&self, id: CurveId) -> Option<Vec<Scalar>> {
        if id.back() {
            if id.quantity() is Absorbed {
                None
            } else {
                self.back@[id.slot() as int]
            }
        } else {
            self.curves@[id.slot() as int]
        }
    }

    /// The stored complex row of a curve.
    pub open spec fn amplitude(&self, id: CurveId) -> Option<Vec<(Scalar, Scalar)>> {
        if !id.has_phase() {
            None
        } else if id.back() {
            self.cplx_back@[back_phase_slot(id)]
        } else {
            self.cplx@[id.slot() as int]
        }
    }

    /// Everything but the stored rows is as in `other`.
    pub open spec fn same_axes(&self, other: &SimCurves) -> bool {
        &&& self.angles@ == other.angles@
        &&& self.wavelengths@ == other.wavelengths@
        &&& self.total_d == other.total_d
        &&& self.n_front_re == other.n_front_re
        &&& self.n_back_re == other.n_back_re
    }

    /// Curves on a grid, with no row stored: no thickness, unit indices.
    pub fn new(angles: Vec<Scalar>, wavelengths: Vec<Scalar>) -> (r: SimCurves)
        ensures
            r.wf(),
            r.angles@ == angles@,
            r.wavelengths@ == wavelengths@,
            r.total_d == Scalar::zero(),
            r.n_front_re == Scalar::one(),
            r.n_back_re == Scalar::one(),
            forall|id: CurveId| #[trigger] r.intensity(id) is None,
            forall|id: CurveId| #[trigger] r.amplitude(id) is None,
    {
        SimCurves {
            angles,
            wavelengths,
            total_d: Scalar::zero(),
            n_front_re: Scalar::one(),
            n_back_re: Scalar::one(),
            curves: empty_rows(9),
            back: empty_rows(6),
            cplx: empty_rows(6),
            cplx_back: empty_rows(4),
        }
    }

    /// Grid points covered by one row.
    pub fn grid_points(&self) -> (r: usize)
        requires
            self.points() <= usize::MAX,
        ensures
            r == self.points(),
    {
        self.angles.len() * self.wavelengths.len()
    }

    /// Stores one intensity row.
    pub fn set_curve(&mut self, id: CurveId, values: Vec<Scalar>) -> (r: Result<(), RowError>)
        requires
            old(self).wf(),
            old(self).points() <= usize::MAX,
        ensures
            final(self).wf(),
            final(self).same_axes(old(self)),
            r == (if id.quantity() is Absorbed {
                Err(RowError::Absorption { id })
            } else if values@.len() != old(self).points() {
                Err(
                    RowError::Length {
                        id,
                        found: values@.len() as usize,
                        expected: old(self).points() as usize,
                    },
                )
            } else {
                Ok(())
            }),
            forall|c: CurveId| #[trigger]
                final(self).intensity(c) == (if r is Ok && c == id {
                    Some(values)
                } else {
                    old(self).intensity(c)
                }),
            forall|c: CurveId| #[trigger] final(self).amplitude(c) == old(self).amplitude(c),
    {
        if id.is_absorption() {
            return Err(RowError::Absorption { id });
        }
        let n: usize = self.grid_points();
        if values.len() != n {
            return Err(RowError::Length { id, found: values.len(), expected: n });
        }
        match id.back_index() {
            Some(i) => {
                self.back.set(i, Some(values));
            },
            None => {
                let i: usize = id.index();
                self.curves.set(i, Some(values));
            },
        }
        proof {
            assert forall|c: CurveId| c.back() == id.back() && c.slot() == id.slot() implies c
                == id by {
                slots_differ(c, id);
            }
        }
        Ok(())
    }

    /// Stores one complex row; only polarized reflection and transmission
    /// have one.
    pub fn set_complex(&mut self, id: CurveId, values: Vec<(Scalar, Scalar)>) -> (r: Result<
        (),
        RowError,
    >)
        requires
            old(self).wf(),
            old(self).points() <= usize::MAX,
        ensures
            final(self).wf(),
            final(self).same_axes(old(self)),
            r == (if values@.len() != old(self).points() {
                Err(
                    RowError::ComplexLength {
                        id,
                        found: values@.len() as usize,
                        expected: old(self).points() as usize,
                    },
                )
            } else if !id.has_phase() {
                Err(RowError::NoPhase { id })
            } else {
                Ok(())
            }),
            forall|c: CurveId| #[trigger]
                final(self).amplitude(c) == (if r is Ok && c == id {
                    Some(values)
                } else {
                    old(self).amplitude(c)
                }),
            forall|c: CurveId| #[trigger] final(self).intensity(c) == old(self).intensity(c),
    {
        let n: usize = self.grid_points();
        if values.len() != n {
            return Err(RowError::ComplexLength { id, found: values.len(), expected: n });
        }
        match id {
            CurveId::RBs => {
                self.cplx_back.set(0, Some(values));
            },
            CurveId::RBp => {
                self.cplx_back.set(1, Some(values));
            },
            CurveId::TBs => {
                self.cplx_back.set(2, Some(values));
            },
            CurveId::TBp => {
                self.cplx_back.set(3, Some(values));
            },
            CurveId::Rs | CurveId::Rp | CurveId::Ts | CurveId::Tp => {
                let i: usize = id.index();
                self.cplx.set(i, Some(values));
            },
            _ => {
                return Err(RowError::NoPhase { id });
            },
        }
        proof {
            assert forall|c: CurveId| c.back() == id.back() && c.slot() == id.slot() implies c
                == id by {
                slots_differ(c, id);
            }
        }
        Ok(())
    }

    /// The front intensity row of a curve; back curves have none here.
    pub fn curve(&self, id: CurveId) -> (r: Option<&Vec<Scalar>>)
        requires
            self.wf(),
            !(id.back() && id.quantity() is Absorbed),
        ensures
            id.back() ==> r is None,
            !id.back() ==> match r {
                Some(row) => self.intensity(id) == Some(*row),
                None => self.intensity(id) is None,
            },
    {
        match id.back_index() {
            Some(_) => None,
            None => self.curves[id.index()].as_ref(),
        }
    }

    /// The back intensity row of a curve.
    pub fn back_curve(&self, id: CurveId) -> (r: Option<&Vec<Scalar>>)
        requires
            self.wf(),
        ensures
            !id.back() ==> r is None,
            id.back() ==> match r {
                Some(row) => self.intensity(id) == Some(*row),
                None => self.intensity(id) is None,
            },
    {
        match id.back_index() {
            Some(i) => self.back[i].as_ref(),
            None => None,
        }
    }

    /// The front complex row of a curve.
    pub fn complex_curve(&self, id: CurveId) -> (r: Option<&Vec<(Scalar, Scalar)>>)
        requires
            self.wf(),
        ensures
            id.back() ==> r is None,
            !id.back() ==> match r {
                Some(row) => self.amplitude(id) == Some(*row),
                None => self.amplitude(id) is None,
            },
    {
        match id {
            CurveId::Rs | CurveId::Rp | CurveId::Ts | CurveId::Tp => self.cplx[id.index()].as_ref(),
            _ => None,
        }
    }

    /// The back complex row of a curve.
    pub fn complex_back_curve(&self, id: CurveId) -> (r: Option<&Vec<(Scalar, Scalar)>>)
        requires
            self.wf(),
        ensures
            !id.back() ==> r is None,
            id.back() ==> match r {
                Some(row) => self.amplitude(id) == Some(*row),
                None => self.amplitude(id) is None,
            },
    {
        match id {
            CurveId::RBs => self.cplx_back[0].as_ref(),
            CurveId::RBp => self.cplx_back[1].as_ref(),
            CurveId::TBs => self.cplx_back[2].as_ref(),
            CurveId::TBp => self.cplx_back[3].as_ref(),
            _ => None,
        }
    }

    /// The row of the angle nearest to `a`.
    pub fn angle_row<A: Numeric>(&self, num: &A, a: Scalar) -> (r: usize)
        requires
            num.sound(),
        ensures
            nearest::nearest(*num, self.angles@, a, r as int),
            r == nearest::nearest_to(*num, self.angles@, a),
            self.angles@.len() > 0 ==> r < self.angles@.len(),
            self.angles@.len() == 0 ==> r == 0,
    {
        nearest_index(num, &self.angles, a)
    }
}

/// A stored row's place tells which curve it belongs to.
pub proof fn slots_differ(a: CurveId, b: CurveId)
    requires
        a.back() == b.back(),
        a.slot() == b.slot(),
    ensures
        a == b,
{
}

} // verus!
