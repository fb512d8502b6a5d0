//! Target curves: how they are normalized on intake, and where they are kept.
use crate::merit::kinds::LOG_FLOOR_BITS;
use crate::numeric;
use crate::numeric::Numeric;
use crate::scalar;
use crate::scalar::Scalar;
use crate::spectralweave::collection::Holdings;
use crate::spectralweave::frame;
use crate::spectralweave::frame::{raw_key, FrameFault};
use crate::spectralweave::key::{KeyView, OpticalKey};
use crate::spectralweave::store;
use crate::spectralweave::store::{
    places_get, places_insert, places_new, slots_get, slots_insert, slots_len, slots_new, RawKey,
    CACHE_CAP,
};
use crate::spectralweave::weaver;
use crate::spectralweave::weaver::OpticalWeaver;
use crate::text::same_text;
use vstd::prelude::*;

verus! {

/// The greatest finite double.
pub const MAX_BITS: u64 = 0x7FEF_FFFF_FFFF_FFFF;

/// The least finite double.
pub const MIN_BITS: u64 = 0xFFEF_FFFF_FFFF_FFFF;

/// 1e-9: a mean this small against the spread counts as zero.
pub const CANCEL_BITS: u64 = 0x3e11_2e0b_e826_d695;

/// 1e-300: nothing is divided by less.
pub const TINY_BITS: u64 = 0x01a5_6e1f_c2f8_f359;

/// 100: from this dynamic range on, "auto" means a logarithm.
pub const HUNDRED_BITS: u64 = 0x4059_0000_0000_0000;

/// 2.
pub const TWO_BITS: u64 = 0x4000_0000_0000_0000;

/// How a target activates its residual.
#[derive(Clone, Copy, Debug, PartialEq, Eq, Structural)]
pub enum TargetKind {
    /// Any deviation counts.
    Exact,
    /// Only a shortfall counts.
    Above,
    /// Only an excess counts.
    Below,
    /// Hard box around the target.
    Range,
    /// Soft box around the target.
    CenterBand,
}

impl TargetKind {
    pub open spec fn code(self) -> Seq<char> {
        match self {
            TargetKind::Exact => "e"@,
            TargetKind::Above => "a"@,
            TargetKind::Below => "b"@,
            TargetKind::Range => "r"@,
            TargetKind::CenterBand => "c"@,
        }
    }

    /// The kind with a given code.
    pub fn from_str(s: &str) -> (r: Option<TargetKind>)
        ensures
            match r {
                Some(k) => s@ == k.code(),
                None => forall|k: TargetKind| s@ != #[trigger] k.code(),
            },
    {
        if same_text(s, "e") {
            Some(TargetKind::Exact)
        } else if same_text(s, "a") {
            Some(TargetKind::Above)
        } else if same_text(s, "b") {
            Some(TargetKind::Below)
        } else if same_text(s, "r") {
            Some(TargetKind::Range)
        } else if same_text(s, "c") {
            Some(TargetKind::CenterBand)
        } else {
            None
        }
    }

    /// The code.
    pub fn as_str(self) -> (r: &'static str)
        ensures
            r@ == self.code(),
    {
        match self {
            TargetKind::Exact => "e",
            TargetKind::Above => "a",
            TargetKind::Below => "b",
            TargetKind::Range => "r",
            TargetKind::CenterBand => "c",
        }
    }
}

/// No two kinds share a code, so parsing a code gives its kind back.
pub proof fn kind_codes_differ(a: TargetKind, b: TargetKind)
    requires
        a.code() == b.code(),
    ensures
        a == b,
{
    reveal_strlit("e");
    reveal_strlit("a");
    reveal_strlit("b");
    reveal_strlit("r");
    reveal_strlit("c");
    assert("e"@[0] == 'e' && "a"@[0] == 'a' && "b"@[0] == 'b' && "r"@[0] == 'r' && "c"@[0]
        == 'c');
    assert(a.code()[0] == b.code()[0]);
}

/// What is done to values before they are compared.
#[derive(Clone, Copy, Debug, PartialEq, Eq, Structural)]
pub enum ResolvedNormMode {
    Linear,
    Log,
    Phase,
    Complex,
}

impl ResolvedNormMode {
    pub open spec fn code(self) -> Seq<char> {
        match self {
            ResolvedNormMode::Linear => "linear"@,
            ResolvedNormMode::Log => "log"@,
            ResolvedNormMode::Phase => "phase"@,
            ResolvedNormMode::Complex => "complex"@,
        }
    }

    /// The mode's name.
    pub fn as_str(self) -> (r: &'static str)
        ensures
            r@ == self.code(),
    {
        match self {
            ResolvedNormMode::Linear => "linear",
            ResolvedNormMode::Log => "log",
            ResolvedNormMode::Phase => "phase",
            ResolvedNormMode::Complex => "complex",
        }
    }
}

// ---------------------------------------------------------------------------
// Normalization
// ---------------------------------------------------------------------------
/// The least of the first `n` values; the greatest double if there is none.
pub open spec fn least(vs: Seq<Scalar>, n: int) -> Scalar
    decreases n,
{
    if n <= 0 {
        Scalar { bits: MAX_BITS }
    } else if scalar::less(vs[n - 1], least(vs, n - 1)) {
        vs[n - 1]
    } else {
        least(vs, n - 1)
    }
}

/// The greatest of the first `n` values; the least double if there is none.
pub open spec fn greatest(vs: Seq<Scalar>, n: int) -> Scalar
    decreases n,
{
    if n <= 0 {
        Scalar { bits: MIN_BITS }
    } else if scalar::less(greatest(vs, n - 1), vs[n - 1]) {
        vs[n - 1]
    } else {
        greatest(vs, n - 1)
    }
}

/// The sum of the first `n` values.
pub open spec fn total<A: Numeric>(num: A, vs: Seq<Scalar>, n: int) -> Scalar
    decreases n,
{
    if n <= 0 {
        Scalar::zero()
    } else {
        num.sum(total(num, vs, n - 1), vs[n - 1])
    }
}

/// The value a logarithm is taken of.
pub open spec fn lifted(v: Scalar) -> Scalar {
    scalar::greater(v, (Scalar { bits: LOG_FLOOR_BITS }))
}

/// The magnitudes of the logarithms.
pub open spec fn log_sizes<L: Fn(Scalar) -> Scalar>(log10: L, vs: Seq<Scalar>) -> Seq<Scalar> {
    Seq::new(vs.len(), |i: int| scalar::absolute(numeric::image_of(log10, lifted(vs[i]))))
}

/// The mode that a name stands for; any other name than the four leaves it to
/// the data: a logarithm for positive values over two decades or more.
pub open spec fn mode_for<A: Numeric>(num: A, vs: Seq<Scalar>, name: Seq<char>) -> ResolvedNormMode {
    let lo = least(vs, vs.len() as int);
    let hi = greatest(vs, vs.len() as int);
    if name == "phase"@ {
        ResolvedNormMode::Phase
    } else if name == "complex"@ {
        ResolvedNormMode::Complex
    } else if name == "log"@ {
        ResolvedNormMode::Log
    } else if name == "linear"@ {
        ResolvedNormMode::Linear
    } else if scalar::less(Scalar::zero(), lo) && scalar::at_most(
        (Scalar { bits: HUNDRED_BITS }),
        num.quotient(hi, lo),
    ) {
        ResolvedNormMode::Log
    } else {
        ResolvedNormMode::Linear
    }
}

/// The factor of a logarithmic curve: one over the mean magnitude, or over
/// one where that mean is as good as zero.
pub open spec fn log_factor<A: Numeric, L: Fn(Scalar) -> Scalar>(
    num: A,
    log10: L,
    vs: Seq<Scalar>,
) -> Scalar {
    let n = vs.len() as int;
    let ls = log_sizes(log10, vs);
    let mean = num.quotient(total(num, ls, n), num.whole(n as usize));
    let spread = scalar::greater(
        num.difference(greatest(ls, n), least(ls, n)),
        (Scalar { bits: TINY_BITS }),
    );
    let scale = if scalar::at_most(
        mean,
        num.product((Scalar { bits: CANCEL_BITS }), spread),
    ) {
        Scalar::one()
    } else {
        mean
    };
    num.quotient(Scalar::one(), scalar::greater(scale, (Scalar { bits: TINY_BITS })))
}

/// The factor of a linear curve: one over the magnitude of the mean, over half
/// the spread where the values cancel, and one where neither is positive.
pub open spec fn linear_factor<A: Numeric>(num: A, vs: Seq<Scalar>) -> Scalar {
    let n = vs.len() as int;
    let mean = scalar::absolute(num.quotient(total(num, vs, n), num.whole(n as usize)));
    let spread = num.difference(greatest(vs, n), least(vs, n));
    let scale = if scalar::at_most(
        mean,
        num.product((Scalar { bits: CANCEL_BITS }), spread),
    ) {
        num.quotient(spread, (Scalar { bits: TWO_BITS }))
    } else {
        mean
    };
    if scalar::less(Scalar::zero(), scale) {
        num.quotient(Scalar::one(), scale)
    } else {
        Scalar::one()
    }
}

/// The factor of a curve in a mode.
pub open spec fn factor_for<A: Numeric, L: Fn(Scalar) -> Scalar>(
    num: A,
    log10: L,
    mode: ResolvedNormMode,
    vs: Seq<Scalar>,
) -> Scalar {
    match mode {
        ResolvedNormMode::Phase | ResolvedNormMode::Complex => Scalar::one(),
        ResolvedNormMode::Log => log_factor(num, log10, vs),
        ResolvedNormMode::Linear => linear_factor(num, vs),
    }
}

/// A value in the normalized space.
pub open spec fn normalized_value<A: Numeric, L: Fn(Scalar) -> Scalar>(
    num: A,
    log10: L,
    mode: ResolvedNormMode,
    factor: Scalar,
    v: Scalar,
) -> Scalar {
    match mode {
        ResolvedNormMode::Phase | ResolvedNormMode::Complex => v,
        ResolvedNormMode::Log => num.product(numeric::image_of(log10, lifted(v)), factor),
        ResolvedNormMode::Linear => num.product(v, factor),
    }
}

/// The half-width at a point in raw units: zero where it is missing or
/// negative.
pub open spec fn raw_width(band: Seq<Scalar>, i: int) -> Scalar {
    scalar::greater(
        if i < band.len() {
            band[i]
        } else {
            Scalar::zero()
        },
        Scalar::zero(),
    )
}

/// A half-width `b` around `v` in the normalized space.
pub open spec fn normalized_width<A: Numeric, L: Fn(Scalar) -> Scalar>(
    num: A,
    log10: L,
    mode: ResolvedNormMode,
    factor: Scalar,
    v: Scalar,
    b: Scalar,
) -> Scalar {
    match mode {
        ResolvedNormMode::Log => if scalar::at_most(b, Scalar::zero()) {
            Scalar::zero()
        } else {
            num.product(
                scalar::absolute(
                    num.difference(
                        numeric::image_of(log10, lifted(num.sum(lifted(v), b))),
                        numeric::image_of(log10, lifted(v)),
                    ),
                ),
                factor,
            )
        },
        _ => num.product(b, factor),
    }
}

/// One stored target curve.
#[derive(Debug)]
pub struct TargetEntry {
    pub kind: TargetKind,
    pub resolved_mode: ResolvedNormMode,
    pub norm_factor: Scalar,
    pub normalized_targets: Vec<Scalar>,
    pub tolerances: Vec<Scalar>,
    /// Normalized half-widths; zeros where unused.
    pub band: Vec<Scalar>,
    pub weight: Scalar,
    /// Divisor of the frame's sum.
    pub count_norm: Option<Scalar>,
    /// Constrains the mean over the frame rather than each point.
    pub integral: bool,
}

/// What an entry holds.
#[verifier::ext_equal]
pub struct EntryView {
    pub kind: TargetKind,
    pub resolved_mode: ResolvedNormMode,
    pub norm_factor: Scalar,
    pub normalized_targets: Seq<Scalar>,
    pub tolerances: Seq<Scalar>,
    pub band: Seq<Scalar>,
    pub weight: Scalar,
    pub count_norm: Option<Scalar>,
    pub integral: bool,
}

impl View for TargetEntry {
    type V = EntryView;

    open spec fn view(&self) -> EntryView {
        EntryView {
            kind: self.kind,
            resolved_mode: self.resolved_mode,
            norm_factor: self.norm_factor,
            normalized_targets: self.normalized_targets@,
            tolerances: self.tolerances@,
            band: self.band@,
            weight: self.weight,
            count_norm: self.count_norm,
            integral: self.integral,
        }
    }
}

/// How a target is to be weighed.
#[derive(Clone, Copy, Debug)]
pub struct Weighing {
    pub kind: TargetKind,
    pub weight: Scalar,
    pub count_norm: Option<Scalar>,
    pub integral: bool,
}

/// The entry of a curve whose mode and factor are settled.
pub open spec fn entry_for<A: Numeric, L: Fn(Scalar) -> Scalar>(
    num: A,
    log10: L,
    floor: Scalar,
    raw: Seq<Scalar>,
    tolerances: Seq<Scalar>,
    band: Seq<Scalar>,
    norm: (ResolvedNormMode, Scalar),
    how: Weighing,
) -> EntryView {
    EntryView {
        kind: how.kind,
        resolved_mode: norm.0,
        norm_factor: norm.1,
        normalized_targets: Seq::new(
            raw.len(),
            |i: int| normalized_value(num, log10, norm.0, norm.1, raw[i]),
        ),
        tolerances: Seq::new(tolerances.len(), |i: int| scalar::greater(tolerances[i], floor)),
        band: Seq::new(
            raw.len(),
            |i: int|
                normalized_width(num, log10, norm.0, norm.1, raw[i], raw_width(band, i)),
        ),
        weight: how.weight,
        count_norm: how.count_norm,
        integral: how.integral,
    }
}

/// Least, greatest and sum in one sweep.
fn sweep_values<A: Numeric>(num: &A, vs: &Vec<Scalar>) -> (r: (Scalar, Scalar, Scalar))
    requires
        num.sound(),
    ensures
        r.0 == least(vs@, vs@.len() as int),
        r.1 == greatest(vs@, vs@.len() as int),
        r.2 == total(*num, vs@, vs@.len() as int),
{
    let mut lo: Scalar = Scalar { bits: MAX_BITS };
    let mut hi: Scalar = Scalar { bits: MIN_BITS };
    let mut sum: Scalar = Scalar::zero();
    let mut i: usize = 0;
    while i < vs.len()
        invariant
            num.sound(),
            i <= vs@.len(),
            lo == least(vs@, i as int),
            hi == greatest(vs@, i as int),
            sum == total(*num, vs@, i as int),
        decreases vs.len() - i,
    {
        let v: Scalar = vs[i];
        if v.lt(lo) {
            lo = v;
        }
        if v.gt(hi) {
            hi = v;
        }
        sum = num.plus(sum, v);
        i += 1;
    }
    (lo, hi, sum)
}

fn normalize_value<A: Numeric, L: Fn(Scalar) -> Scalar>(
    num: &A,
    log10: &L,
    mode: ResolvedNormMode,
    factor: Scalar,
    v: Scalar,
) -> (r: Scalar)
    requires
        num.sound(),
        numeric::settled_image(*log10),
    ensures
        r == normalized_value(*num, *log10, mode, factor, v),
{
    match mode {
        ResolvedNormMode::Phase | ResolvedNormMode::Complex => v,
        ResolvedNormMode::Log => {
            let l: Scalar = log10(v.max(Scalar { bits: LOG_FLOOR_BITS }));
            num.times(l, factor)
        },
        ResolvedNormMode::Linear => num.times(v, factor),
    }
}

fn normalize_width<A: Numeric, L: Fn(Scalar) -> Scalar>(
    num: &A,
    log10: &L,
    mode: ResolvedNormMode,
    factor: Scalar,
    v: Scalar,
    b: Scalar,
) -> (r: Scalar)
    requires
        num.sound(),
        numeric::settled_image(*log10),
    ensures
        r == normalized_width(*num, *log10, mode, factor, v, b),
{
    match mode {
        ResolvedNormMode::Log => {
            if b.le(Scalar::zero()) {
                return Scalar::zero();
            }
            let floor: Scalar = Scalar { bits: LOG_FLOOR_BITS };
            let v_pos: Scalar = v.max(floor);
            let upper: Scalar = log10(num.plus(v_pos, b).max(floor));
            let lower: Scalar = log10(v_pos);
            num.times(num.minus(upper, lower).abs(), factor)
        },
        _ => num.times(b, factor),
    }
}

/// Builds the entry of a curve whose mode and factor are settled: values and
/// half-widths normalized, tolerances raised to the floor.
pub fn prepare_entry<A: Numeric, L: Fn(Scalar) -> Scalar>(
    num: &A,
    log10: &L,
    tolerance_floor: Scalar,
    raw_targets: &Vec<Scalar>,
    tolerances: &Vec<Scalar>,
    band: &Vec<Scalar>,
    norm: (ResolvedNormMode, Scalar),
    how: Weighing,
) -> (r: TargetEntry)
    requires
        num.sound(),
        numeric::settled_image(*log10),
    ensures
        r@ == entry_for(
            *num,
            *log10,
            tolerance_floor,
            raw_targets@,
            tolerances@,
            band@,
            norm,
            how,
        ),
{
    let ghost goal = entry_for(
        *num,
        *log10,
        tolerance_floor,
        raw_targets@,
        tolerances@,
        band@,
        norm,
        how,
    );
    let (mode, factor): (ResolvedNormMode, Scalar) = norm;
    let mut values: Vec<Scalar> = Vec::with_capacity(raw_targets.len());
    let mut widths: Vec<Scalar> = Vec::with_capacity(raw_targets.len());
    let mut i: usize = 0;
    while i < raw_targets.len()
        invariant
            num.sound(),
            numeric::settled_image(*log10),
            norm == (mode, factor),
            goal == entry_for(
                *num,
                *log10,
                tolerance_floor,
                raw_targets@,
                tolerances@,
                band@,
                norm,
                how,
            ),
            i <= raw_targets@.len(),
            values@ == goal.normalized_targets.take(i as int),
            widths@ == goal.band.take(i as int),
        decreases raw_targets.len() - i,
    {
        let v: Scalar = raw_targets[i];
        values.push(normalize_value(num, log10, mode, factor, v));
        let given: Scalar = if i < band.len() {
            band[i]
        } else {
            Scalar::zero()
        };
        let b: Scalar = given.max(Scalar::zero());
        assert(b == raw_width(band@, i as int));
        widths.push(normalize_width(num, log10, mode, factor, v, b));
        i += 1;
        assert(values@ =~= goal.normalized_targets.take(i as int));
        assert(widths@ =~= goal.band.take(i as int));
    }
    let mut tols: Vec<Scalar> = Vec::with_capacity(tolerances.len());
    let mut t: usize = 0;
    while t < tolerances.len()
        invariant
            goal.tolerances == Seq::new(
                tolerances@.len(),
                |i: int| scalar::greater(tolerances@[i], tolerance_floor),
            ),
            t <= tolerances@.len(),
            tols@ == goal.tolerances.take(t as int),
        decreases tolerances.len() - t,
    {
        tols.push(tolerances[t].max(tolerance_floor));
        t += 1;
        assert(tols@ =~= goal.tolerances.take(t as int));
    }
    let r: TargetEntry = TargetEntry {
        kind: how.kind,
        resolved_mode: mode,
        norm_factor: factor,
        normalized_targets: values,
        tolerances: tols,
        band: widths,
        weight: how.weight,
        count_norm: how.count_norm,
        integral: how.integral,
    };
    assert(r@ =~= goal);
    r
}

/// A raised tolerance is never below a floor that is a number.
pub proof fn tolerances_reach_the_floor(t: Scalar, floor: Scalar)
    requires
        !floor.nan(),
    ensures
        scalar::at_most(floor, scalar::greater(t, floor)),
{
}

/// A phase is never rescaled: its factor is one.
pub proof fn phases_are_not_scaled<A: Numeric, L: Fn(Scalar) -> Scalar>(
    num: A,
    log10: L,
    vs: Seq<Scalar>,
)
    ensures
        mode_for(num, vs, "phase"@) == ResolvedNormMode::Phase,
        factor_for(num, log10, ResolvedNormMode::Phase, vs) == Scalar::one(),
{
}

// ---------------------------------------------------------------------------
// Storage
// ---------------------------------------------------------------------------
/// The entries of one frame by key.
pub struct TargetMetadata {
    index: ahash::AHashMap<RawKey, usize>,
    entries: Vec<TargetEntry>,
}

impl TargetMetadata {
    pub closed spec fn entries(&self) -> Map<KeyView, EntryView> {
        Map::new(
            |k: KeyView| store::slots_of(self.index).dom().contains(k),
            |k: KeyView| self.entries@[store::slots_of(self.index)[k] as int]@,
        )
    }

    /// Every key leads to an entry of its own.
    pub closed spec fn wf(&self) -> bool {
        let places = store::slots_of(self.index);
        &&& forall|k: KeyView| #[trigger]
            places.dom().contains(k) ==> places[k] < self.entries@.len()
        &&& forall|k: KeyView, l: KeyView|
            (#[trigger] places.dom().contains(k)) && (#[trigger] places.dom().contains(l))
                && places[k] == places[l] ==> k == l
    }

    /// No entries.
    pub fn new() -> (r: Self)
        ensures
            r.wf(),
            r.entries() == no_entries(),
    {
        let r: TargetMetadata = TargetMetadata { index: slots_new(), entries: Vec::new() };
        assert(r.entries() =~= no_entries());
        r
    }

    /// Sets the entry of a key.
    pub fn insert(&mut self, key: &OpticalKey, entry: TargetEntry)
        requires
            old(self).wf(),
        ensures
            final(self).wf(),
            final(self).entries() == old(self).entries().insert(key@, entry@),
    {
        let raw: RawKey = raw_key(key);
        match slots_get(&self.index, &raw) {
            Some(i) => {
                self.entries.set(i, entry);
            },
            None => {
                let i: usize = self.entries.len();
                self.entries.push(entry);
                slots_insert(&mut self.index, raw, i);
            },
        }
        assert(self.entries() =~= old(self).entries().insert(key@, entry@));
    }

    /// The entry of a key.
    pub fn get(&self, key: &OpticalKey) -> (r: Option<&TargetEntry>)
        requires
            self.wf(),
        ensures
            match r {
                Some(e) => self.entries().dom().contains(key@) && e@ == self.entries()[key@],
                None => !self.entries().dom().contains(key@),
            },
    {
        let raw: RawKey = raw_key(key);
        match slots_get(&self.index, &raw) {
            Some(i) => Some(&self.entries[i]),
            None => None,
        }
    }

    /// How many entries there are.
    pub fn len(&self) -> (r: usize)
        ensures
            r == self.entries().dom().len(),
    {
        assert(self.entries().dom() =~= store::slots_of(self.index).dom());
        slots_len(&self.index)
    }
}

/// No entries.
pub open spec fn no_entries() -> Map<KeyView, EntryView> {
    Map::empty()
}

/// Targets on frames of their own, with what was worked out on intake.
pub struct TargetWeaver<A: Numeric> {
    inner: OpticalWeaver<A>,
    places: ahash::AHashMap<u128, usize>,
    metadata: Vec<TargetMetadata>,
    tolerance_floor: Scalar,
}

/// The metadata with one more entry.
pub open spec fn with_entry(
    all: Map<usize, Map<KeyView, EntryView>>,
    uid: usize,
    k: KeyView,
    e: EntryView,
) -> Map<usize, Map<KeyView, EntryView>> {
    let before = if all.dom().contains(uid) {
        all[uid]
    } else {
        no_entries()
    };
    all.insert(uid, before.insert(k, e))
}

impl<A: Numeric> TargetWeaver<A> {
    pub closed spec fn held(&self) -> Holdings {
        self.inner.held()
    }

    pub closed spec fn era(&self) -> usize {
        self.inner.era()
    }

    pub closed spec fn number(&self) -> A {
        self.inner.number()
    }

    pub closed spec fn floor(&self) -> Scalar {
        self.tolerance_floor
    }

    /// The entries by frame number and key.
    pub closed spec fn known(&self) -> Map<usize, Map<KeyView, EntryView>> {
        Map::new(
            |uid: usize| store::places_of(self.places).dom().contains(uid as u128),
            |uid: usize|
                self.metadata@[store::places_of(self.places)[uid as u128] as int].entries(),
        )
    }

    /// The frames are valid and every frame number leads to entries of its own.
    pub closed spec fn wf(&self) -> bool {
        let places = store::places_of(self.places);
        &&& self.inner.wf()
        &&& forall|u: u128| #[trigger]
            places.dom().contains(u) ==> places[u] < self.metadata@.len()
        &&& forall|u: u128, v: u128|
            (#[trigger] places.dom().contains(u)) && (#[trigger] places.dom().contains(v))
                && places[u] == places[v] ==> u == v
        &&& forall|i: int| 0 <= i < self.metadata@.len() ==> (#[trigger] self.metadata@[i]).wf()
    }

    /// An empty store.
    pub fn new(num: A, cache_size: usize, tolerance_floor: Scalar) -> (r: Self)
        requires
            num.sound(),
            cache_size <= CACHE_CAP,
        ensures
            r.wf(),
            r.held() == Holdings::none(),
            r.known() == Map::<usize, Map<KeyView, EntryView>>::empty(),
            r.era() == 0,
            r.number() == num,
            r.floor() == tolerance_floor,
    {
        let r: TargetWeaver<A> = TargetWeaver {
            inner: OpticalWeaver::new(num, cache_size),
            places: places_new(),
            metadata: Vec::new(),
            tolerance_floor,
        };
        assert(r.known() =~= Map::<usize, Map<KeyView, EntryView>>::empty());
        r
    }

    /// The frames.
    pub fn weaver(&self) -> (r: &OpticalWeaver<A>)
        requires
            self.wf(),
        ensures
            r.wf(),
            r.held() == self.held(),
            r.era() == self.era(),
    {
        &self.inner
    }

    /// Makes a frame for one target, never a shared one, and returns its place.
    pub fn create_dedicated_frame(&mut self, uid: usize, wl: &Vec<Scalar>) -> (r: Result<
        usize,
        FrameFault,
    >)
        requires
            old(self).wf(),
            old(self).era() < usize::MAX,
        ensures
            final(self).wf(),
            final(self).known() == old(self).known(),
            final(self).number() == old(self).number(),
            final(self).floor() == old(self).floor(),
            match r {
                Err(e) => {
                    &&& frame::grid_fault(wl@) == Some(e)
                    &&& final(self).held() == old(self).held()
                    &&& final(self).era() == old(self).era()
                },
                Ok(i) => {
                    &&& frame::grid_fault(wl@) is None
                    &&& i == old(self).held().grids.len()
                    &&& final(self).held() == old(self).held().with_frame(uid, wl@)
                    &&& final(self).era() == old(self).era() + 1
                },
            },
    {
        let r: Result<usize, FrameFault> = self.inner.add_frame(uid, wl);
        assert(self.known() =~= old(self).known());
        r
    }

    /// Stores a target curve in its frame.
    pub fn put_in_frame(&mut self, i: usize, key: &OpticalKey, values: Vec<Scalar>) -> (r: Result<
        (),
        FrameFault,
    >)
        requires
            old(self).wf(),
            old(self).era() < usize::MAX,
            i < old(self).held().grids.len(),
        ensures
            final(self).wf(),
            final(self).known() == old(self).known(),
            final(self).number() == old(self).number(),
            final(self).floor() == old(self).floor(),
            final(self).era() == old(self).era() + weaver::change(
                old(self).held(),
                final(self).held(),
                key@,
            ),
            match r {
                Err(e) => {
                    &&& old(self).held().length_fault(i as int, values@.len() as int) == Some(e)
                    &&& final(self).held() == old(self).held()
                },
                Ok(_) => {
                    &&& old(self).held().length_fault(i as int, values@.len() as int) is None
                    &&& final(self).held() == old(self).held().with_curve(
                        i as int,
                        key@,
                        values@,
                    ).with_mapping(key@, seq![i])
                },
            },
    {
        let r: Result<(), FrameFault> = self.inner.put_in_frame(i, key, values);
        assert(self.known() =~= old(self).known());
        r
    }

    /// Resolves the mode and the factor of one curve, shared by all its points.
    pub fn resolve_norm<L: Fn(Scalar) -> Scalar>(
        num: &A,
        log10: &L,
        raw_targets: &Vec<Scalar>,
        mode_str: &str,
    ) -> (r: (ResolvedNormMode, Scalar))
        requires
            num.sound(),
            numeric::settled_image(*log10),
        ensures
            r.0 == mode_for(*num, raw_targets@, mode_str@),
            r.1 == factor_for(*num, *log10, r.0, raw_targets@),
    {
        let (t_min, t_max, t_sum): (Scalar, Scalar, Scalar) = sweep_values(num, raw_targets);
        let mode: ResolvedNormMode = if same_text(mode_str, "phase") {
            ResolvedNormMode::Phase
        } else if same_text(mode_str, "complex") {
            ResolvedNormMode::Complex
        } else if same_text(mode_str, "log") {
            ResolvedNormMode::Log
        } else if same_text(mode_str, "linear") {
            ResolvedNormMode::Linear
        } else if t_min.gt(Scalar::zero()) && num.over(t_max, t_min).ge(
            Scalar { bits: HUNDRED_BITS },
        ) {
            ResolvedNormMode::Log
        } else {
            ResolvedNormMode::Linear
        };
        let factor: Scalar = Self::norm_factor_for(num, log10, mode, raw_targets, t_min, t_max, t_sum);
        (mode, factor)
    }

    /// The factor for a settled mode, given what a sweep of the values found.
    pub fn norm_factor_for<L: Fn(Scalar) -> Scalar>(
        num: &A,
        log10: &L,
        mode: ResolvedNormMode,
        raw_targets: &Vec<Scalar>,
        t_min: Scalar,
        t_max: Scalar,
        t_sum: Scalar,
    ) -> (r: Scalar)
        requires
            num.sound(),
            numeric::settled_image(*log10),
            t_min == least(raw_targets@, raw_targets@.len() as int),
            t_max == greatest(raw_targets@, raw_targets@.len() as int),
            t_sum == total(*num, raw_targets@, raw_targets@.len() as int),
        ensures
            r == factor_for(*num, *log10, mode, raw_targets@),
    {
        let one: Scalar = Scalar::one();
        let tiny: Scalar = Scalar { bits: TINY_BITS };
        let cancel: Scalar = Scalar { bits: CANCEL_BITS };
        let n: usize = raw_targets.len();
        match mode {
            ResolvedNormMode::Phase | ResolvedNormMode::Complex => one,
            ResolvedNormMode::Log => {
                let ghost ls = log_sizes(*log10, raw_targets@);
                let mut sizes: Vec<Scalar> = Vec::with_capacity(n);
                let mut i: usize = 0;
                while i < n
                    invariant
                        numeric::settled_image(*log10),
                        n == raw_targets@.len(),
                        ls == log_sizes(*log10, raw_targets@),
                        i <= n,
                        sizes@ == ls.take(i as int),
                    decreases n - i,
                {
                    let l: Scalar = log10(raw_targets[i].max(Scalar { bits: LOG_FLOOR_BITS }));
                    sizes.push(l.abs());
                    i += 1;
                    assert(sizes@ =~= ls.take(i as int));
                }
                assert(sizes@ =~= ls);
                let (lo, hi, sum): (Scalar, Scalar, Scalar) = sweep_values(num, &sizes);
                let mean: Scalar = num.over(sum, num.count(n));
                let spread: Scalar = num.minus(hi, lo).max(tiny);
                let scale: Scalar = if mean.le(num.times(cancel, spread)) {
                    one
                } else {
                    mean
                };
                num.over(one, scale.max(tiny))
            },
            ResolvedNormMode::Linear => {
                let mean: Scalar = num.over(t_sum, num.count(n)).abs();
                let spread: Scalar = num.minus(t_max, t_min);
                let scale: Scalar = if mean.le(num.times(cancel, spread)) {
                    num.over(spread, Scalar { bits: TWO_BITS })
                } else {
                    mean
                };
                if scale.gt(Scalar::zero()) {
                    num.over(one, scale)
                } else {
                    one
                }
            },
        }
    }

    /// Normalizes a curve by its own values and stores the entry.
    pub fn register_metadata<L: Fn(Scalar) -> Scalar>(
        &mut self,
        num: &A,
        log10: &L,
        uid: usize,
        key: &OpticalKey,
        raw_targets: &Vec<Scalar>,
        tolerances: &Vec<Scalar>,
        mode_str: &str,
        band: &Vec<Scalar>,
        how: Weighing,
    )
        requires
            old(self).wf(),
            num.sound(),
            numeric::settled_image(*log10),
        ensures
            final(self).wf(),
            final(self).held() == old(self).held(),
            final(self).era() == old(self).era(),
            final(self).number() == old(self).number(),
            final(self).floor() == old(self).floor(),
            ({
                let mode = mode_for(*num, raw_targets@, mode_str@);
                let factor = factor_for(*num, *log10, mode, raw_targets@);
                final(self).known() == with_entry(
                    old(self).known(),
                    uid,
                    key@,
                    entry_for(
                        *num,
                        *log10,
                        old(self).floor(),
                        raw_targets@,
                        tolerances@,
                        band@,
                        (mode, factor),
                        how,
                    ),
                )
            }),
    {
        let norm: (ResolvedNormMode, Scalar) = Self::resolve_norm(num, log10, raw_targets, mode_str);
        self.register_metadata_resolved(
            num,
            log10,
            uid,
            key,
            raw_targets,
            tolerances,
            norm,
            band,
            how,
        );
    }

    /// Stores the entry of a curve whose mode and factor are settled, as those
    /// of an angular curve are, which is resolved once over all its angles.
    pub fn register_metadata_resolved<L: Fn(Scalar) -> Scalar>(
        &mut self,
        num: &A,
        log10: &L,
        uid: usize,
        key: &OpticalKey,
        raw_targets: &Vec<Scalar>,
        tolerances: &Vec<Scalar>,
        norm: (ResolvedNormMode, Scalar),
        band: &Vec<Scalar>,
        how: Weighing,
    )
        requires
            old(self).wf(),
            num.sound(),
            numeric::settled_image(*log10),
        ensures
            final(self).wf(),
            final(self).held() == old(self).held(),
            final(self).era() == old(self).era(),
            final(self).number() == old(self).number(),
            final(self).floor() == old(self).floor(),
            final(self).known() == with_entry(
                old(self).known(),
                uid,
                key@,
                entry_for(
                    *num,
                    *log10,
                    old(self).floor(),
                    raw_targets@,
                    tolerances@,
                    band@,
                    norm,
                    how,
                ),
            ),
    {
        let entry: TargetEntry = prepare_entry(
            num,
            log10,
            self.tolerance_floor,
            raw_targets,
            tolerances,
            band,
            norm,
            how,
        );
        let ghost e = entry@;
        match places_get(&self.places, uid as u128) {
            Some(i) => {
                self.metadata[i].insert(key, entry);
            },
            None => {
                let i: usize = self.metadata.len();
                let mut fresh: TargetMetadata = TargetMetadata::new();
                fresh.insert(key, entry);
                self.metadata.push(fresh);
                places_insert(&mut self.places, uid as u128, i);
            },
        }
        assert(self.known() =~= with_entry(old(self).known(), uid, key@, e));
    }

    /// The entries of a frame.
    pub fn metadata(&self, uid: usize) -> (r: Option<&TargetMetadata>)
        requires
            self.wf(),
        ensures
            match r {
                Some(m) => m.wf() && self.known().dom().contains(uid) && m.entries()
                    == self.known()[uid],
                None => !self.known().dom().contains(uid),
            },
    {
        match places_get(&self.places, uid as u128) {
            Some(i) => Some(&self.metadata[i]),
            None => None,
        }
    }
}

} // verus!
