//! Merit specifications: which curves are demanded, where a demand reads the
//! simulated grid, and which residual rows come of it.
use crate::text::same_text;
use vstd::prelude::*;

pub mod averages;
pub mod calculus;
pub mod chain;
pub mod coverage;
pub mod fault;
pub mod formula;
pub mod kinds;
pub mod laws;
pub mod plan;
pub mod residuals;
pub mod rows;
pub mod samples;
pub mod sensitivity;
pub mod sim;
pub mod spec;

verus! {

/// Polarization.
#[derive(Clone, Copy, Debug, PartialEq, Eq, Structural)]
pub enum Pol {
    S,
    P,
    U,
}

/// Spectral channel.
#[derive(Clone, Copy, Debug, PartialEq, Eq, Structural)]
pub enum Channel {
    R,
    T,
}

/// A simulated curve, a derived absorptance demand, or a back-incidence
/// demand.
#[derive(Clone, Copy, Debug, PartialEq, Eq, Structural)]
pub enum CurveId {
    Rs,
    Rp,
    Ru,
    Ts,
    Tp,
    Tu,
    /// Absorptances derive from their companions and are never stored.
    As,
    Ap,
    Au,
    RBs,
    RBp,
    RBu,
    TBs,
    TBp,
    TBu,
    ABs,
    ABp,
    ABu,
}

/// The light a curve is about.
pub enum Quantity {
    Reflected,
    Transmitted,
    Absorbed,
}

impl CurveId {
    /// What is measured.
    pub open spec fn quantity(self) -> Quantity {
        match self {
            CurveId::Rs | CurveId::Rp | CurveId::Ru | CurveId::RBs | CurveId::RBp
            | CurveId::RBu => Quantity::Reflected,
            CurveId::Ts | CurveId::Tp | CurveId::Tu | CurveId::TBs | CurveId::TBp
            | CurveId::TBu => Quantity::Transmitted,
            _ => Quantity::Absorbed,
        }
    }

    /// In which polarization.
    pub open spec fn pol(self) -> Pol {
        match self {
            CurveId::Rs | CurveId::Ts | CurveId::As | CurveId::RBs | CurveId::TBs
            | CurveId::ABs => Pol::S,
            CurveId::Rp | CurveId::Tp | CurveId::Ap | CurveId::RBp | CurveId::TBp
            | CurveId::ABp => Pol::P,
            _ => Pol::U,
        }
    }

    /// Whether the light comes from the back.
    pub open spec fn back(self) -> bool {
        match self {
            CurveId::Rs | CurveId::Rp | CurveId::Ru | CurveId::Ts | CurveId::Tp | CurveId::Tu
            | CurveId::As | CurveId::Ap | CurveId::Au => false,
            _ => true,
        }
    }

    /// The curve's code.
    pub open spec fn code(self) -> Seq<char> {
        match self {
            CurveId::Rs => "Rs"@,
            CurveId::Rp => "Rp"@,
            CurveId::Ru => "Ru"@,
            CurveId::Ts => "Ts"@,
            CurveId::Tp => "Tp"@,
            CurveId::Tu => "Tu"@,
            CurveId::As => "As"@,
            CurveId::Ap => "Ap"@,
            CurveId::Au => "Au"@,
            CurveId::RBs => "RBs"@,
            CurveId::RBp => "RBp"@,
            CurveId::RBu => "RBu"@,
            CurveId::TBs => "TBs"@,
            CurveId::TBp => "TBp"@,
            CurveId::TBu => "TBu"@,
            CurveId::ABs => "ABs"@,
            CurveId::ABp => "ABp"@,
            CurveId::ABu => "ABu"@,
        }
    }

    /// The stored curve of a given kind.
    pub open spec fn of(quantity: Quantity, pol: Pol, back: bool) -> CurveId {
        match (quantity, pol, back) {
            (Quantity::Reflected, Pol::S, false) => CurveId::Rs,
            (Quantity::Reflected, Pol::P, false) => CurveId::Rp,
            (Quantity::Reflected, Pol::U, false) => CurveId::Ru,
            (Quantity::Transmitted, Pol::S, false) => CurveId::Ts,
            (Quantity::Transmitted, Pol::P, false) => CurveId::Tp,
            (Quantity::Transmitted, Pol::U, false) => CurveId::Tu,
            (Quantity::Absorbed, Pol::S, false) => CurveId::As,
            (Quantity::Absorbed, Pol::P, false) => CurveId::Ap,
            (Quantity::Absorbed, Pol::U, false) => CurveId::Au,
            (Quantity::Reflected, Pol::S, true) => CurveId::RBs,
            (Quantity::Reflected, Pol::P, true) => CurveId::RBp,
            (Quantity::Reflected, Pol::U, true) => CurveId::RBu,
            (Quantity::Transmitted, Pol::S, true) => CurveId::TBs,
            (Quantity::Transmitted, Pol::P, true) => CurveId::TBp,
            (Quantity::Transmitted, Pol::U, true) => CurveId::TBu,
            (Quantity::Absorbed, Pol::S, true) => CurveId::ABs,
            (Quantity::Absorbed, Pol::P, true) => CurveId::ABp,
            (Quantity::Absorbed, Pol::U, true) => CurveId::ABu,
        }
    }

    /// A curve's place among the stored rows of its side: reflection before
    /// transmission before absorption, each in the order s, p, u.
    pub open spec fn slot(self) -> nat {
        (match self.quantity() {
            Quantity::Reflected => 0nat,
            Quantity::Transmitted => 3nat,
            Quantity::Absorbed => 6nat,
        }) + (match self.pol() {
            Pol::S => 0nat,
            Pol::P => 1nat,
            Pol::U => 2nat,
        })
    }

    /// All curves, front before back.
    pub fn all() -> (r: [CurveId; 18])
        ensures
            forall|i: int| 0 <= i < 9 ==> (#[trigger] r@[i]).slot() == i && !r@[i].back(),
            forall|i: int| 9 <= i < 18 ==> (#[trigger] r@[i]).slot() == i - 9 && r@[i].back(),
    {
        [
            CurveId::Rs,
            CurveId::Rp,
            CurveId::Ru,
            CurveId::Ts,
            CurveId::Tp,
            CurveId::Tu,
            CurveId::As,
            CurveId::Ap,
            CurveId::Au,
            CurveId::RBs,
            CurveId::RBp,
            CurveId::RBu,
            CurveId::TBs,
            CurveId::TBp,
            CurveId::TBu,
            CurveId::ABs,
            CurveId::ABp,
            CurveId::ABu,
        ]
    }

    /// The front curve of a polarization and channel.
    pub fn new(pol: Pol, channel: Channel) -> (r: CurveId)
        ensures
            !r.back(),
            r.pol() == pol,
            r.quantity() == (match channel {
                Channel::R => Quantity::Reflected,
                Channel::T => Quantity::Transmitted,
            }),
    {
        match (pol, channel) {
            (Pol::S, Channel::R) => CurveId::Rs,
            (Pol::P, Channel::R) => CurveId::Rp,
            (Pol::U, Channel::R) => CurveId::Ru,
            (Pol::S, Channel::T) => CurveId::Ts,
            (Pol::P, Channel::T) => CurveId::Tp,
            (Pol::U, Channel::T) => CurveId::Tu,
        }
    }

    /// A derived absorptance demand.
    pub fn is_absorption(self) -> (r: bool)
        ensures
            r == (self.quantity() is Absorbed),
    {
        matches!(
            self,
            CurveId::As | CurveId::Ap | CurveId::Au | CurveId::ABs | CurveId::ABp | CurveId::ABu
        )
    }

    /// A back-incidence demand.
    pub fn is_back(self) -> (r: bool)
        ensures
            r == self.back(),
    {
        matches!(
            self,
            CurveId::RBs | CurveId::RBp | CurveId::RBu | CurveId::TBs | CurveId::TBp
            | CurveId::TBu | CurveId::ABs | CurveId::ABp | CurveId::ABu
        )
    }

    /// The reflectance and transmittance an absorptance derives from: those
    /// of its own polarization and side.
    pub fn absorption_companions(self) -> (r: Option<(CurveId, CurveId)>)
        ensures
            match r {
                Some((a, b)) => {
                    &&& self.quantity() is Absorbed
                    &&& a == CurveId::of(Quantity::Reflected, self.pol(), self.back())
                    &&& b == CurveId::of(Quantity::Transmitted, self.pol(), self.back())
                },
                None => !(self.quantity() is Absorbed),
            },
    {
        match self {
            CurveId::As => Some((CurveId::Rs, CurveId::Ts)),
            CurveId::Ap => Some((CurveId::Rp, CurveId::Tp)),
            CurveId::Au => Some((CurveId::Ru, CurveId::Tu)),
            CurveId::ABs => Some((CurveId::RBs, CurveId::TBs)),
            CurveId::ABp => Some((CurveId::RBp, CurveId::TBp)),
            CurveId::ABu => Some((CurveId::RBu, CurveId::TBu)),
            _ => None,
        }
    }

    /// A front curve's place among the stored front rows.
    pub fn index(self) -> (r: usize)
        requires
            !self.back(),
        ensures
            r == self.slot(),
            r < 9,
    {
        match self {
            CurveId::Rs => 0,
            CurveId::Rp => 1,
            CurveId::Ru => 2,
            CurveId::Ts => 3,
            CurveId::Tp => 4,
            CurveId::Tu => 5,
            CurveId::As => 6,
            CurveId::Ap => 7,
            _ => 8,
        }
    }

    /// A back curve's place among the stored back rows; absorptances have
    /// none.
    pub fn back_index(self) -> (r: Option<usize>)
        ensures
            match r {
                Some(i) => self.back() && !(self.quantity() is Absorbed) && i == self.slot() && i < 6,
                None => !self.back() || self.quantity() is Absorbed,
            },
    {
        match self {
            CurveId::RBs => Some(0),
            CurveId::RBp => Some(1),
            CurveId::RBu => Some(2),
            CurveId::TBs => Some(3),
            CurveId::TBp => Some(4),
            CurveId::TBu => Some(5),
            _ => None,
        }
    }

    /// The scattering element a phase demand follows: front reflection 0,
    /// back transmission 1, front transmission 2, back reflection 3. Neither
    /// an absorptance nor an unpolarized curve has a phase.
    pub fn phase_channel(self) -> (r: Option<usize>)
        ensures
            match r {
                Some(c) => {
                    &&& self.has_phase()
                    &&& c == (match (self.quantity(), self.back()) {
                        (Quantity::Reflected, false) => 0int,
                        (Quantity::Transmitted, true) => 1int,
                        (Quantity::Transmitted, false) => 2int,
                        _ => 3int,
                    })
                    &&& c < 4
                },
                None => !self.has_phase(),
            },
    {
        match self {
            CurveId::Rs | CurveId::Rp => Some(0),
            CurveId::Ts | CurveId::Tp => Some(2),
            CurveId::RBs | CurveId::RBp => Some(3),
            CurveId::TBs | CurveId::TBp => Some(1),
            _ => None,
        }
    }

    /// The curve has a complex amplitude: polarized and not absorbed.
    pub open spec fn has_phase(self) -> bool {
        !(self.quantity() is Absorbed) && !(self.pol() is U)
    }

    /// Reads a curve code; anything else is refused.
    pub fn from_str(s: &str) -> (r: Option<CurveId>)
        ensures
            forall|c: CurveId| r == Some(c) <==> s@ == #[trigger] c.code(),
    {
        proof {
            assert forall|a: CurveId, b: CurveId| #[trigger] a.code() == #[trigger] b.code() implies a
                == b by {
                curve_codes_differ(a, b);
            }
        }
        let r: Option<CurveId> = if same_text(s, "Rs") {
            Some(CurveId::Rs)
        } else if same_text(s, "Rp") {
            Some(CurveId::Rp)
        } else if same_text(s, "Ru") {
            Some(CurveId::Ru)
        } else if same_text(s, "Ts") {
            Some(CurveId::Ts)
        } else if same_text(s, "Tp") {
            Some(CurveId::Tp)
        } else if same_text(s, "Tu") {
            Some(CurveId::Tu)
        } else if same_text(s, "As") {
            Some(CurveId::As)
        } else if same_text(s, "Ap") {
            Some(CurveId::Ap)
        } else if same_text(s, "Au") {
            Some(CurveId::Au)
        } else if same_text(s, "RBs") {
            Some(CurveId::RBs)
        } else if same_text(s, "RBp") {
            Some(CurveId::RBp)
        } else if same_text(s, "RBu") {
            Some(CurveId::RBu)
        } else if same_text(s, "TBs") {
            Some(CurveId::TBs)
        } else if same_text(s, "TBp") {
            Some(CurveId::TBp)
        } else if same_text(s, "TBu") {
            Some(CurveId::TBu)
        } else if same_text(s, "ABs") {
            Some(CurveId::ABs)
        } else if same_text(s, "ABp") {
            Some(CurveId::ABp)
        } else if same_text(s, "ABu") {
            Some(CurveId::ABu)
        } else {
            None
        };
        assert(r matches Some(c) ==> s@ == c.code());
        r
    }
}

/// No two curves share a code.
pub proof fn curve_codes_differ(a: CurveId, b: CurveId)
    requires
        a.code() == b.code(),
    ensures
        a == b,
{
    reveal_strlit("Rs");
    reveal_strlit("Rp");
    reveal_strlit("Ru");
    reveal_strlit("Ts");
    reveal_strlit("Tp");
    reveal_strlit("Tu");
    reveal_strlit("As");
    reveal_strlit("Ap");
    reveal_strlit("Au");
    reveal_strlit("RBs");
    reveal_strlit("RBp");
    reveal_strlit("RBu");
    reveal_strlit("TBs");
    reveal_strlit("TBp");
    reveal_strlit("TBu");
    reveal_strlit("ABs");
    reveal_strlit("ABp");
    reveal_strlit("ABu");
    assert("Rs"@.len() == 2 && "Rs"@[0] == 'R' && "Rs"@[1] == 's');
    assert("Rp"@.len() == 2 && "Rp"@[0] == 'R' && "Rp"@[1] == 'p');
    assert("Ru"@.len() == 2 && "Ru"@[0] == 'R' && "Ru"@[1] == 'u');
    assert("Ts"@.len() == 2 && "Ts"@[0] == 'T' && "Ts"@[1] == 's');
    assert("Tp"@.len() == 2 && "Tp"@[0] == 'T' && "Tp"@[1] == 'p');
    assert("Tu"@.len() == 2 && "Tu"@[0] == 'T' && "Tu"@[1] == 'u');
    assert("As"@.len() == 2 && "As"@[0] == 'A' && "As"@[1] == 's');
    assert("Ap"@.len() == 2 && "Ap"@[0] == 'A' && "Ap"@[1] == 'p');
    assert("Au"@.len() == 2 && "Au"@[0] == 'A' && "Au"@[1] == 'u');
    assert("RBs"@.len() == 3 && "RBs"@[0] == 'R' && "RBs"@[1] == 'B' && "RBs"@[2] == 's');
    assert("RBp"@.len() == 3 && "RBp"@[0] == 'R' && "RBp"@[1] == 'B' && "RBp"@[2] == 'p');
    assert("RBu"@.len() == 3 && "RBu"@[0] == 'R' && "RBu"@[1] == 'B' && "RBu"@[2] == 'u');
    assert("TBs"@.len() == 3 && "TBs"@[0] == 'T' && "TBs"@[1] == 'B' && "TBs"@[2] == 's');
    assert("TBp"@.len() == 3 && "TBp"@[0] == 'T' && "TBp"@[1] == 'B' && "TBp"@[2] == 'p');
    assert("TBu"@.len() == 3 && "TBu"@[0] == 'T' && "TBu"@[1] == 'B' && "TBu"@[2] == 'u');
    assert("ABs"@.len() == 3 && "ABs"@[0] == 'A' && "ABs"@[1] == 'B' && "ABs"@[2] == 's');
    assert("ABp"@.len() == 3 && "ABp"@[0] == 'A' && "ABp"@[1] == 'B' && "ABp"@[2] == 'p');
    assert("ABu"@.len() == 3 && "ABu"@[0] == 'A' && "ABu"@[1] == 'B' && "ABu"@[2] == 'u');
}

/// When a demand is active.
#[derive(Clone, Copy, Debug, PartialEq, Eq, Structural)]
pub enum ConstraintKind {
    /// Always.
    Exact,
    /// While the simulation is below the target.
    Above,
    /// While the simulation is above the target.
    Below,
    /// Outside a box of half-width `band`.
    Range,
    /// Everywhere, weaker inside a box of half-width `band`.
    CenterBand,
}

impl ConstraintKind {
    /// The kind's code.
    pub open spec fn code(self) -> Seq<char> {
        match self {
            ConstraintKind::Exact => "e"@,
            ConstraintKind::Above => "a"@,
            ConstraintKind::Below => "b"@,
            ConstraintKind::Range => "r"@,
            ConstraintKind::CenterBand => "c"@,
        }
    }

    /// Reads a kind's code; anything else is refused.
    pub fn from_str(s: &str) -> (r: Option<ConstraintKind>)
        ensures
            forall|k: ConstraintKind| r == Some(k) <==> s@ == #[trigger] k.code(),
    {
        proof {
            reveal_strlit("e");
            reveal_strlit("a");
            reveal_strlit("b");
            reveal_strlit("r");
            reveal_strlit("c");
            assert("e"@[0] == 'e' && "a"@[0] == 'a' && "b"@[0] == 'b' && "r"@[0] == 'r' && "c"@[0]
                == 'c');
        }
        if same_text(s, "e") {
            Some(ConstraintKind::Exact)
        } else if same_text(s, "a") {
            Some(ConstraintKind::Above)
        } else if same_text(s, "b") {
            Some(ConstraintKind::Below)
        } else if same_text(s, "r") {
            Some(ConstraintKind::Range)
        } else if same_text(s, "c") {
            Some(ConstraintKind::CenterBand)
        } else {
            None
        }
    }
}

/// What is done to a simulated value before it is compared.
#[derive(Clone, Copy, Debug, PartialEq, Eq, Structural)]
pub enum SimTransform {
    Linear,
    Log,
    Phase,
    Complex,
}

impl SimTransform {
    /// The transform's name.
    pub open spec fn code(self) -> Seq<char> {
        match self {
            SimTransform::Linear => "linear"@,
            SimTransform::Log => "log"@,
            SimTransform::Phase => "phase"@,
            SimTransform::Complex => "complex"@,
        }
    }

    /// Reads a transform's name; anything else is refused.
    pub fn from_str(s: &str) -> (r: Option<SimTransform>)
        ensures
            forall|t: SimTransform| r == Some(t) <==> s@ == #[trigger] t.code(),
    {
        proof {
            reveal_strlit("linear");
            reveal_strlit("log");
            reveal_strlit("phase");
            reveal_strlit("complex");
            assert("linear"@.len() == 6 && "log"@.len() == 3 && "phase"@.len() == 5
                && "complex"@.len() == 7);
        }
        if same_text(s, "linear") {
            Some(SimTransform::Linear)
        } else if same_text(s, "log") {
            Some(SimTransform::Log)
        } else if same_text(s, "phase") {
            Some(SimTransform::Phase)
        } else if same_text(s, "complex") {
            Some(SimTransform::Complex)
        } else {
            None
        }
    }
}

} // verus!
