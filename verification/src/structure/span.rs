//! Spans of solver rows and the partition they form.
use vstd::prelude::*;

verus! {

/// A contiguous run of solver rows `start..end` born of one design layer.
/// A leading interface slice shifts the bulk by one row.
#[derive(Clone, Copy, Debug, PartialEq, Eq, Structural)]
pub struct Span {
    pub start: usize,
    pub end: usize,
    /// The design layer the rows belong to.
    pub logical: usize,
    /// The first row is an interface slice.
    pub slice: bool,
    pub bulk_start: usize,
}

impl Span {
    pub open spec fn holds(self, row: int) -> bool {
        self.start <= row < self.end
    }

    /// Non-empty, and the bulk starts right after the slice, if there is one.
    pub open spec fn well_formed(self) -> bool {
        &&& self.start < self.end
        &&& self.bulk_start == self.start + (if self.slice { 1int } else { 0int })
    }

    pub open spec fn singleton_bulk(self) -> bool {
        self.end - self.bulk_start == 1
    }

    pub open spec fn multi_row(self) -> bool {
        self.end - self.start > 1
    }

    /// The same span moved by `by` rows.
    pub open spec fn moved(self, by: int) -> Span {
        Span {
            start: (self.start + by) as usize,
            end: (self.end + by) as usize,
            bulk_start: (self.bulk_start + by) as usize,
            ..self
        }
    }

    /// Exactly one bulk row: the only kind of span a needle may enter.
    pub fn is_singleton_bulk(&self) -> (r: bool)
        requires
            self.well_formed(),
        ensures
            r == self.singleton_bulk(),
    {
        self.end > self.bulk_start && self.end - self.bulk_start == 1
    }
}

/// Where span `i` has to start when the first one starts at `from`.
pub open spec fn begin(spans: Seq<Span>, from: int, i: int) -> int {
    if i == 0 {
        from
    } else {
        spans[i - 1].end as int
    }
}

/// The spans are non-empty runs that follow one another from row `from` up to
/// row `to`.
pub open spec fn laid(spans: Seq<Span>, from: int, to: int) -> bool {
    &&& forall|i: int| 0 <= i < spans.len() ==> (#[trigger] spans[i]).well_formed()
    &&& forall|i: int| 0 <= i < spans.len() ==> spans[i].start == #[trigger] begin(spans, from, i)
    &&& begin(spans, from, spans.len() as int) == to
}

/// `spans` is a contiguous, ordered partition of the rows `0..n` into
/// non-empty runs.
pub open spec fn partition(spans: Seq<Span>, n: int) -> bool {
    laid(spans, 0, n)
}

pub(crate) proof fn laid_bounds(spans: Seq<Span>, from: int, to: int, i: int)
    requires
        laid(spans, from, to),
        0 <= i < spans.len(),
    ensures
        from <= spans[i].start < spans[i].end <= to,
    decreases spans.len(),
{
    assert(spans[i].start == begin(spans, from, i));
    if i > 0 {
        laid_take(spans, from, to, i);
        laid_bounds(spans.take(i), from, spans[i - 1].end as int, i - 1);
    }
    if i + 1 < spans.len() {
        laid_ordered(spans, from, to, i, spans.len() - 1);
    }
}

pub(crate) proof fn laid_ordered(spans: Seq<Span>, from: int, to: int, i: int, j: int)
    requires
        laid(spans, from, to),
        0 <= i < j < spans.len(),
    ensures
        spans[i].end <= spans[j].start,
    decreases j - i,
{
    assert(spans[j].start == begin(spans, from, j));
    if i + 1 < j {
        laid_ordered(spans, from, to, i, j - 1);
    }
}

pub(crate) proof fn laid_take(spans: Seq<Span>, from: int, to: int, k: int)
    requires
        laid(spans, from, to),
        0 <= k <= spans.len(),
    ensures
        laid(spans.take(k), from, begin(spans, from, k)),
{
    let t = spans.take(k);
    assert forall|i: int| 0 <= i < t.len() implies t[i].start == #[trigger] begin(t, from, i) by {
        assert(spans[i].start == begin(spans, from, i));
    }
}

pub(crate) proof fn laid_skip(spans: Seq<Span>, from: int, to: int, k: int)
    requires
        laid(spans, from, to),
        0 <= k <= spans.len(),
    ensures
        laid(spans.skip(k), begin(spans, from, k), to),
{
    let t = spans.skip(k);
    let m = begin(spans, from, k);
    assert forall|i: int| 0 <= i < t.len() implies t[i].start == #[trigger] begin(t, m, i) by {
        assert(spans[i + k].start == begin(spans, from, i + k));
    }
}

pub(crate) proof fn laid_concat(a: Seq<Span>, b: Seq<Span>, from: int, mid: int, to: int)
    requires
        laid(a, from, mid),
        laid(b, mid, to),
    ensures
        laid(a + b, from, to),
{
    let t = a + b;
    assert forall|i: int| 0 <= i < t.len() implies t[i].start == #[trigger] begin(t, from, i) by {
        if i < a.len() {
            assert(a[i].start == begin(a, from, i));
        } else {
            assert(b[i - a.len()].start == begin(b, mid, i - a.len()));
        }
    }
}

/// The spans moved by `by` rows.
pub open spec fn moved_all(spans: Seq<Span>, by: int) -> Seq<Span> {
    spans.map_values(|s: Span| s.moved(by))
}

pub(crate) proof fn laid_moved(spans: Seq<Span>, from: int, to: int, by: int)
    requires
        laid(spans, from, to),
        0 <= from + by,
        to + by <= usize::MAX,
        0 <= from,
    ensures
        laid(moved_all(spans, by), from + by, to + by),
{
    let t = moved_all(spans, by);
    assert forall|i: int| 0 <= i < t.len() implies {
        &&& (#[trigger] t[i]).well_formed()
        &&& t[i].start == spans[i].start + by
        &&& t[i].end == spans[i].end + by
    } by {
        laid_bounds(spans, from, to, i);
        assert(spans[i].well_formed());
    }
    assert forall|i: int| 0 <= i < t.len() implies t[i].start == #[trigger] begin(
        t,
        from + by,
        i,
    ) by {
        assert(spans[i].start == begin(spans, from, i));
        if i > 0 {
            assert(t[i - 1].end == spans[i - 1].end + by);
        }
    }
}

/// In a partition, spans are laid out in order of their rows.
pub proof fn partition_is_ordered(spans: Seq<Span>, n: int, i: int, j: int)
    requires
        partition(spans, n),
        0 <= i < j < spans.len(),
    ensures
        spans[i].end <= spans[j].start,
        spans[j].end <= n,
{
    laid_ordered(spans, 0, n, i, j);
    laid_bounds(spans, 0, n, j);
}

/// Every row of a partition lies in exactly one span.
pub proof fn partition_covers(spans: Seq<Span>, n: int, row: int)
    requires
        partition(spans, n),
        0 <= row < n,
    ensures
        exists|k: int| 0 <= k < spans.len() && (#[trigger] spans[k]).holds(row),
        forall|a: int, b: int|
            0 <= a < spans.len() && 0 <= b < spans.len() && (#[trigger] spans[a]).holds(row) && (
            #[trigger] spans[b]).holds(row) ==> a == b,
{
    let k = cover_index(spans, row, spans.len() as int);
    cover_index_holds(spans, n, row, spans.len() as int);
    assert(spans[k].holds(row));
    assert forall|a: int, b: int|
        0 <= a < spans.len() && 0 <= b < spans.len() && (#[trigger] spans[a]).holds(row) && (
        #[trigger] spans[b]).holds(row) implies a == b by {
        if a < b {
            partition_is_ordered(spans, n, a, b);
        } else if b < a {
            partition_is_ordered(spans, n, b, a);
        }
    }
}

spec fn cover_index(spans: Seq<Span>, row: int, upto: int) -> int
    decreases upto,
{
    if upto <= 0 {
        0
    } else if spans[upto - 1].start <= row {
        upto - 1
    } else {
        cover_index(spans, row, upto - 1)
    }
}

proof fn cover_index_holds(spans: Seq<Span>, n: int, row: int, upto: int)
    requires
        partition(spans, n),
        0 <= upto <= spans.len(),
        0 <= row < begin(spans, 0, upto),
    ensures
        0 <= cover_index(spans, row, upto) < upto,
        spans[cover_index(spans, row, upto)].holds(row),
    decreases upto,
{
    assert(upto > 0);
    assert(spans[upto - 1].start == begin(spans, 0, upto - 1));
    if spans[upto - 1].start > row {
        cover_index_holds(spans, n, row, upto - 1);
    }
}

/// Index of the span that contains `row`: the number of spans that end at or
/// before it.
pub fn span_index_of_row(spans: &Vec<Span>, row: usize) -> (r: usize)
    requires
        exists|n: int| partition(spans@, n),
    ensures
        r <= spans.len(),
        forall|j: int| 0 <= j < r ==> (#[trigger] spans@[j]).end <= row,
        forall|j: int| r <= j < spans.len() ==> (#[trigger] spans@[j]).end > row,
        r < spans.len() ==> spans@[r as int].holds(row as int),
        r == spans.len() ==> begin(spans@, 0, spans.len() as int) <= row,
{
    let ghost n = choose|n: int| partition(spans@, n);
    let mut lo: usize = 0;
    let mut hi: usize = spans.len();
    while lo < hi
        invariant
            partition(spans@, n),
            lo <= hi <= spans.len(),
            forall|j: int| 0 <= j < lo ==> (#[trigger] spans@[j]).end <= row,
            forall|j: int| hi <= j < spans.len() ==> (#[trigger] spans@[j]).end > row,
        decreases hi - lo,
    {
        let mid: usize = lo + (hi - lo) / 2;
        if spans[mid].end <= row {
            proof {
                assert forall|j: int| 0 <= j < mid + 1 implies (#[trigger] spans@[j]).end <= row by {
                    if j < mid {
                        partition_is_ordered(spans@, n, j, mid as int);
                    }
                }
            }
            lo = mid + 1;
        } else {
            proof {
                assert forall|j: int| mid <= j < spans.len() implies (#[trigger] spans@[j]).end
                    > row by {
                    if j > mid {
                        partition_is_ordered(spans@, n, mid as int, j);
                    }
                }
            }
            hi = mid;
        }
    }
    proof {
        if lo < spans.len() {
            assert(spans@[lo as int].start == begin(spans@, 0, lo as int));
            if lo > 0 {
                assert(spans@[lo - 1].end <= row);
            }
        }
    }
    lo
}

/// The span that holds `row`.
pub open spec fn owner(spans: Seq<Span>, row: int) -> int {
    choose|k: int| 0 <= k < spans.len() && (#[trigger] spans[k]).holds(row)
}

pub(crate) proof fn owner_is(spans: Seq<Span>, n: int, row: int, k: int)
    requires
        partition(spans, n),
        0 <= row < n,
        0 <= k < spans.len(),
        spans[k].holds(row),
    ensures
        owner(spans, row) == k,
{
    partition_covers(spans, n, row);
    assert(spans[owner(spans, row)].holds(row));
}

} // verus!
