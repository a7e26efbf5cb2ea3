//! Column-major enumeration of Fortran-style array indices across multiple
//! dimensions, with per-dimension start, end and stride, and the conversions
//! between coordinate tuples and linear indices in the same ordering.

use vstd::prelude::*;

verus! {

use crate::error::F90nmlError;

/// One dimension's indexing information.
#[derive(Debug, Clone, PartialEq)]
pub struct IndexBound {
    /// Starting index (`None` means implicit)
    pub start: Option<i32>,
    /// Ending index (`None` means implicit)
    pub end: Option<i32>,
    /// Stride (`None` means 1)
    pub stride: Option<i32>,
}

/// The start a bound denotes once a default is supplied.
pub open spec fn spec_effective_start(b: IndexBound, default: i32) -> i32 {
    match b.start {
        Some(s) => s,
        None => default,
    }
}

/// The stride a bound denotes; an absent stride means 1.
pub open spec fn spec_effective_stride(b: IndexBound) -> i32 {
    match b.stride {
        Some(s) => s,
        None => 1,
    }
}

/// The element count of a bound, given defaults for both endpoints.
pub open spec fn spec_bound_size(b: IndexBound, default_start: i32, default_end: Option<i32>) ->
    Option<int> {
    let start = spec_effective_start(b, default_start) as int;
    let stride = spec_effective_stride(b) as int;
    if stride == 0 {
        None
    } else {
        match (b.end, default_end) {
            (Some(e), _) => Some(spec_range_size(start, e as int, stride)),
            (None, Some(e)) => Some(spec_range_size(start, e as int, stride)),
            (None, None) => None,
        }
    }
}

/// How many points `start, start+stride, ...` fall in the closed range
/// ending at `end`; zero when the range is empty.
pub open spec fn spec_range_size(start: int, end: int, stride: int) -> int {
    if stride > 0 && end >= start {
        (end - start) / stride + 1
    } else if stride < 0 && end <= start {
        (start - end) / (-stride) + 1
    } else {
        0
    }
}

impl IndexBound {
    /// A bound with the given start, end and stride.
    pub fn new(start: Option<i32>, end: Option<i32>, stride: Option<i32>) -> (r: IndexBound)
        ensures
            r == (IndexBound { start, end, stride }),
    {
        IndexBound { start, end, stride }
    }

    /// A simple range from start to end with the default stride.
    pub fn range(start: i32, end: i32) -> (r: IndexBound)
        ensures
            r == (IndexBound { start: Some(start), end: Some(end), stride: None }),
    {
        IndexBound { start: Some(start), end: Some(end), stride: None }
    }

    /// A single index.
    pub fn single(index: i32) -> (r: IndexBound)
        ensures
            r == (IndexBound { start: Some(index), end: Some(index), stride: None }),
    {
        IndexBound { start: Some(index), end: Some(index), stride: None }
    }

    /// A fully implicit range (`:`).
    pub fn implicit() -> (r: IndexBound)
        ensures
            r == (IndexBound { start: None, end: None, stride: None }),
    {
        IndexBound { start: None, end: None, stride: None }
    }

    /// The effective start index, falling back to the default.
    pub fn effective_start(&self, default: i32) -> (r: i32)
        ensures
            r == spec_effective_start(*self, default),
    {
        match self.start {
            Some(s) => s,
            None => default,
        }
    }

    /// The effective stride; an absent stride means 1.
    pub fn effective_stride(&self) -> (r: i32)
        ensures
            r == spec_effective_stride(*self),
    {
        match self.stride {
            Some(s) => s,
            None => 1,
        }
    }

    /// The number of elements this dimension spans, or `None` when the
    /// stride is zero or no end is known.
    pub fn size(&self, default_start: i32, default_end: Option<i32>) -> (r: Option<usize>)
        ensures
            r is Some <==> (spec_bound_size(*self, default_start, default_end) matches Some(n)
                && n <= usize::MAX as int),
            r is Some ==> r->0 as int == spec_bound_size(*self, default_start, default_end)->0,
    {
        let start = self.effective_start(default_start);
        let stride = self.effective_stride();
        if stride == 0 {
            return None;
        }
        let end: i32 = match (self.end, default_end) {
            (Some(e), _) => e,
            (None, Some(e)) => e,
            (None, None) => {
                return None;
            },
        };
        let s64 = start as i64;
        let e64 = end as i64;
        let st64 = stride as i64;
        if stride > 0 && end >= start {
            let diff = (e64 - s64) as u64;
            let sdiv = st64 as u64;
            let q = diff / sdiv;
            proof {
                assert(q <= diff) by (nonlinear_arith)
                    requires
                        sdiv >= 1 && q == diff / sdiv,
                ;
            }
            if q + 1 <= usize::MAX as u64 {
                Some((q + 1) as usize)
            } else {
                None
            }
        } else if stride < 0 && end <= start {
            let diff = (s64 - e64) as u64;
            let sdiv = (-st64) as u64;
            let q = diff / sdiv;
            proof {
                assert(q <= diff) by (nonlinear_arith)
                    requires
                        sdiv >= 1 && q == diff / sdiv,
                ;
            }
            if q + 1 <= usize::MAX as u64 {
                Some((q + 1) as usize)
            } else {
                None
            }
        } else {
            Some(0)
        }
    }
}

/// Whether a cursor at `cur` can take one more step of `step` without
/// passing `end`.
pub open spec fn spec_can_step(cur: int, step: int, end: int) -> bool {
    (step > 0 && cur + step <= end) || (step < 0 && cur + step >= end)
}

/// One column-major advance, carrying from `rank` upward: the first rank
/// that can still step does so; ranks that cannot are reset to their start.
/// Returns the new cursor and whether every rank carried (exhaustion).
pub open spec fn spec_advance_from(
    cur: Seq<i32>,
    start: Seq<i32>,
    end: Seq<i32>,
    step: Seq<i32>,
    rank: int,
) -> (Seq<i32>, bool)
    decreases cur.len() - rank,
{
    if rank < 0 || rank >= cur.len() {
        (cur, true)
    } else if spec_can_step(cur[rank] as int, step[rank] as int, end[rank] as int) {
        (cur.update(rank, (cur[rank] + step[rank]) as i32), false)
    } else {
        spec_advance_from(cur.update(rank, start[rank]), start, end, step, rank + 1)
    }
}

/// Column-major multidimensional index iterator for Fortran-style arrays.
#[derive(Debug, Clone)]
pub struct FIndex {
    /// The bounds each dimension was built from
    bounds: Vec<IndexBound>,
    /// Current position in each dimension
    current: Vec<i32>,
    /// Starting position of each dimension
    start: Vec<i32>,
    /// Ending position of each dimension
    end: Vec<i32>,
    /// Stride of each dimension
    step: Vec<i32>,
    /// Origin of each dimension, for linear-index conversions
    first: Vec<i32>,
    /// Whether the enumeration is exhausted
    exhausted: bool,
}

impl FIndex {
    /// All per-dimension vectors have one entry per bound.
    pub closed spec fn wf(&self) -> bool {
        &&& self.current@.len() == self.bounds@.len()
        &&& self.start@.len() == self.bounds@.len()
        &&& self.end@.len() == self.bounds@.len()
        &&& self.step@.len() == self.bounds@.len()
        &&& self.first@.len() == self.bounds@.len()
    }

    /// The current cursor.
    pub closed spec fn spec_current(&self) -> Seq<i32> {
        self.current@
    }

    /// The per-dimension starts.
    pub closed spec fn spec_start(&self) -> Seq<i32> {
        self.start@
    }

    /// The per-dimension ends.
    pub closed spec fn spec_end(&self) -> Seq<i32> {
        self.end@
    }

    /// The per-dimension strides.
    pub closed spec fn spec_step(&self) -> Seq<i32> {
        self.step@
    }

    /// The per-dimension origins.
    pub closed spec fn spec_first(&self) -> Seq<i32> {
        self.first@
    }

    /// The number of dimensions.
    pub closed spec fn spec_dims(&self) -> int {
        self.bounds@.len() as int
    }

    /// Whether the enumeration is exhausted.
    pub closed spec fn spec_exhausted(&self) -> bool {
        self.exhausted
    }

    /// Build an iterator from per-dimension bounds. Every dimension starts
    /// at its effective start; the origin of each dimension is that start,
    /// capped at the global origin when one is given.
    pub fn new(bounds: Vec<IndexBound>, global_start: Option<i32>) -> (r: FIndex)
        ensures
            r.wf(),
            r.spec_dims() == bounds@.len(),
            r.spec_start().len() == bounds@.len(),
            r.spec_end().len() == bounds@.len(),
            r.spec_step().len() == bounds@.len(),
            r.spec_first().len() == bounds@.len(),
            r.spec_current().len() == bounds@.len(),
            !r.spec_exhausted(),
            forall|i: int|
                0 <= i < bounds@.len() ==> {
                    let ds = (match global_start {
                        Some(gs) => gs,
                        None => 1,
                    });
                    &&& r.spec_start()[i] == spec_effective_start(#[trigger] bounds@[i], ds)
                    &&& r.spec_end()[i] == (match bounds@[i].end {
                        Some(e) => e,
                        None => ds,
                    })
                    &&& r.spec_step()[i] == spec_effective_stride(bounds@[i])
                    &&& r.spec_first()[i] == (match global_start {
                        Some(gs) => if spec_effective_start(bounds@[i], ds) < gs {
                            spec_effective_start(bounds@[i], ds)
                        } else {
                            gs
                        },
                        None => spec_effective_start(bounds@[i], ds),
                    })
                },
            r.spec_current() == r.spec_start(),
    {
        let default_start: i32 = match global_start {
            Some(gs) => gs,
            None => 1,
        };
        let mut start: Vec<i32> = Vec::new();
        let mut end: Vec<i32> = Vec::new();
        let mut step: Vec<i32> = Vec::new();
        let mut first: Vec<i32> = Vec::new();
        let mut i: usize = 0;
        while i < bounds.len()
            invariant
                i <= bounds@.len(),
                start@.len() == i && end@.len() == i && step@.len() == i && first@.len() == i,
                forall|j: int|
                    0 <= j < i ==> {
                        &&& start@[j] == spec_effective_start(#[trigger] bounds@[j], default_start)
                        &&& end@[j] == (match bounds@[j].end {
                            Some(e) => e,
                            None => default_start,
                        })
                        &&& step@[j] == spec_effective_stride(bounds@[j])
                        &&& first@[j] == (match global_start {
                            Some(gs) => if spec_effective_start(bounds@[j], default_start) < gs {
                                spec_effective_start(bounds@[j], default_start)
                            } else {
                                gs
                            },
                            None => spec_effective_start(bounds@[j], default_start),
                        })
                    },
            decreases bounds@.len() - i,
        {
            let b = &bounds[i];
            let es = b.effective_start(default_start);
            start.push(es);
            end.push(match b.end {
                Some(e) => e,
                None => default_start,
            });
            step.push(b.effective_stride());
            first.push(match global_start {
                Some(gs) => if es < gs {
                    es
                } else {
                    gs
                },
                None => es,
            });
            i += 1;
        }
        let current = copy_i32s(&start);
        FIndex { bounds, current, start, end, step, first, exhausted: false }
    }

    /// An iterator over a one-dimensional range.
    pub fn simple_1d(start: i32, end: i32) -> (r: FIndex)
        ensures
            r.wf(),
            r.spec_dims() == 1,
            !r.spec_exhausted(),
            r.spec_start() == seq![start],
            r.spec_end() == seq![end],
            r.spec_step() == seq![1i32],
            r.spec_first() == seq![start],
            r.spec_current() == seq![start],
    {
        let mut bounds: Vec<IndexBound> = Vec::new();
        bounds.push(IndexBound::range(start, end));
        let r = FIndex::new(bounds, None);
        proof {
            assert(bounds@[0] == (IndexBound { start: Some(start), end: Some(end), stride: None }));
            assert(r.spec_start() =~= seq![start]);
            assert(r.spec_end() =~= seq![end]);
            assert(r.spec_step() =~= seq![1i32]);
            assert(r.spec_first() =~= seq![start]);
            assert(r.spec_current() =~= seq![start]);
        }
        r
    }

    /// An iterator over the given number of fully implicit dimensions,
    /// each running from the conventional origin 1.
    pub fn implicit(dimensions: usize) -> (r: FIndex)
        ensures
            r.wf(),
            r.spec_dims() == dimensions,
            !r.spec_exhausted(),
            r.spec_start() =~= Seq::new(dimensions as nat, |i: int| 1i32),
            r.spec_end() =~= Seq::new(dimensions as nat, |i: int| 1i32),
            r.spec_step() =~= Seq::new(dimensions as nat, |i: int| 1i32),
            r.spec_first() =~= Seq::new(dimensions as nat, |i: int| 1i32),
            r.spec_current() =~= Seq::new(dimensions as nat, |i: int| 1i32),
    {
        let mut bounds: Vec<IndexBound> = Vec::new();
        let mut i: usize = 0;
        while i < dimensions
            invariant
                i <= dimensions,
                bounds@.len() == i,
                forall|j: int| 0 <= j < i ==> #[trigger] bounds@[j] == (IndexBound {
                    start: None,
                    end: None,
                    stride: None,
                }),
            decreases dimensions - i,
        {
            bounds.push(IndexBound::implicit());
            i += 1;
        }
        let r = FIndex::new(bounds, Some(1));
        proof {
            assert forall|i: int| 0 <= i < dimensions implies {
                &&& r.spec_start()[i] == 1i32
                &&& r.spec_end()[i] == 1i32
                &&& r.spec_step()[i] == 1i32
                &&& r.spec_first()[i] == 1i32
                &&& r.spec_current()[i] == 1i32
            } by {
                assert(bounds@[i] == (IndexBound { start: None, end: None, stride: None }));
            }
        }
        r
    }

    /// The current index tuple.
    pub fn current(&self) -> (r: &Vec<i32>)
        ensures
            r@ == self.spec_current(),
    {
        &self.current
    }

    /// The per-dimension origins.
    pub fn start_indices(&self) -> (r: &Vec<i32>)
        ensures
            r@ == self.spec_first(),
    {
        &self.first
    }

    /// Whether the enumeration is exhausted.
    pub fn is_exhausted(&self) -> (r: bool)
        ensures
            r == self.spec_exhausted(),
    {
        self.exhausted
    }

    /// Rewind to the first index tuple.
    pub fn reset(&mut self)
        requires
            old(self).wf(),
        ensures
            final(self).wf(),
            final(self).spec_current() == old(self).spec_start(),
            !final(self).spec_exhausted(),
            final(self).spec_start() == old(self).spec_start(),
            final(self).spec_end() == old(self).spec_end(),
            final(self).spec_step() == old(self).spec_step(),
            final(self).spec_first() == old(self).spec_first(),
            final(self).spec_dims() == old(self).spec_dims(),
    {
        self.current = copy_i32s(&self.start);
        self.exhausted = false;
    }

    /// Yield the current tuple and move to the next one in column-major
    /// order: the leftmost dimension steps fastest, and carries reset it
    /// to its start. Returns `None` once exhausted.
    pub fn advance(&mut self) -> (r: Option<Vec<i32>>)
        requires
            old(self).wf(),
        ensures
            final(self).wf(),
            final(self).spec_start() == old(self).spec_start(),
            final(self).spec_end() == old(self).spec_end(),
            final(self).spec_step() == old(self).spec_step(),
            final(self).spec_first() == old(self).spec_first(),
            final(self).spec_dims() == old(self).spec_dims(),
            old(self).spec_exhausted() ==> r is None && *final(self) == *old(self),
            !old(self).spec_exhausted() ==> {
                let (next, done) = spec_advance_from(
                    old(self).spec_current(),
                    old(self).spec_start(),
                    old(self).spec_end(),
                    old(self).spec_step(),
                    0,
                );
                &&& r matches Some(v) && v@ == old(self).spec_current()
                &&& final(self).spec_current() == next
                &&& final(self).spec_exhausted() == done
            },
    {
        if self.exhausted {
            return None;
        }
        let result = copy_i32s(&self.current);
        let ghost cur0 = self.current@;
        let mut rank: usize = 0;
        let mut stepped: bool = false;
        while rank < self.current.len() && !stepped
            invariant
                self.wf(),
                rank <= self.current@.len(),
                self.start@ == old(self).start@,
                self.end@ == old(self).end@,
                self.step@ == old(self).step@,
                self.first@ == old(self).first@,
                self.bounds@ == old(self).bounds@,
                self.exhausted == old(self).exhausted,
                self.current@.len() == cur0.len(),
                !stepped ==> spec_advance_from(cur0, self.start@, self.end@, self.step@, 0)
                    == spec_advance_from(self.current@, self.start@, self.end@, self.step@,
                rank as int),
                stepped ==> spec_advance_from(cur0, self.start@, self.end@, self.step@, 0) == (
                self.current@,
                false,
                ),
            decreases self.current@.len() - rank + (if stepped { 0int } else { 1int }),
        {
            let cur = self.current[rank];
            let step = self.step[rank];
            let end = self.end[rank];
            let next64 = cur as i64 + step as i64;
            if (step > 0 && next64 <= end as i64) || (step < 0 && next64 >= end as i64) {
                self.current.set(rank, next64 as i32);
                stepped = true;
            } else {
                let s = self.start[rank];
                self.current.set(rank, s);
                rank += 1;
            }
        }
        if !stepped {
            self.exhausted = true;
        }
        Some(result)
    }
}

/// Copy a vector of machine integers.
fn copy_i32s(s: &Vec<i32>) -> (r: Vec<i32>)
    ensures
        r@ == s@,
{
    let mut r: Vec<i32> = Vec::new();
    let mut i: usize = 0;
    while i < s.len()
        invariant
            i <= s@.len(),
            r@ == s@.subrange(0, i as int),
        decreases s@.len() - i,
    {
        r.push(s[i]);
        i += 1;
        proof {
            assert(r@ =~= s@.subrange(0, i as int));
        }
    }
    proof {
        assert(r@ =~= s@);
    }
    r
}

/// Column-major linear position of a coordinate tuple: the leftmost
/// coordinate varies fastest.
pub open spec fn spec_linear(indices: Seq<i32>, first: Seq<i32>, dims: Seq<usize>) -> int
    decreases indices.len(),
{
    if indices.len() == 0 {
        0
    } else {
        (indices[0] - first[0]) + dims[0] * spec_linear(indices.skip(1), first.skip(1), dims.skip(1))
    }
}

/// Every coordinate lies in `[origin, origin + extent)`.
pub open spec fn spec_in_bounds(indices: Seq<i32>, first: Seq<i32>, dims: Seq<usize>) -> bool {
    forall|i: int|
        0 <= i < indices.len() ==> 0 <= #[trigger] indices[i] - first[i] < (dims[i]) as int
}

/// Product of the first `k` extents.
pub open spec fn spec_prod_prefix(dims: Seq<usize>, k: int) -> int
    decreases k,
{
    if k <= 0 {
        1
    } else {
        spec_prod_prefix(dims, k - 1) * dims[k - 1]
    }
}

/// All prefix products of the extents stay within the machine.
pub open spec fn spec_dims_fit(dims: Seq<usize>) -> bool {
    forall|k: int| 0 <= k <= dims.len() ==> #[trigger] spec_prod_prefix(dims, k) <= usize::MAX as int
}

/// An in-bounds tuple's linear position is non-negative and below the
/// product of the extents.
pub proof fn lemma_linear_bound(indices: Seq<i32>, first: Seq<i32>, dims: Seq<usize>)
    requires
        indices.len() == dims.len(),
        indices.len() <= first.len(),
        spec_in_bounds(indices, first, dims),
    ensures
        0 <= spec_linear(indices, first, dims) < spec_prod_prefix(dims, dims.len() as int) + 1,
        dims.len() > 0 ==> spec_linear(indices, first, dims) < spec_prod_prefix(
            dims,
            dims.len() as int,
        ),
    decreases indices.len(),
{
    if indices.len() == 0 {
    } else {
        let it = indices.skip(1);
        let ft = first.skip(1);
        let dt = dims.skip(1);
        assert(spec_in_bounds(it, ft, dt)) by {
            assert forall|j: int| 0 <= j < it.len() implies 0 <= #[trigger] it[j] - ft[j] < (
            dt[j]) as int by {
                assert(it[j] == indices[j + 1]);
                assert(ft[j] == first[j + 1]);
                assert(dt[j] == dims[j + 1]);
                assert(0 <= indices[j + 1] - first[j + 1] < (dims[j + 1]) as int);
            }
        }
        lemma_linear_bound(it, ft, dt);
        let rest = spec_linear(it, ft, dt);
        let d0 = dims[0] as int;
        let z0 = indices[0] - first[0];
        lemma_prod_prefix_skip(dims, dims.len() as int);
        if dt.len() > 0 {
            assert(z0 + d0 * rest < d0 * spec_prod_prefix(dt, dt.len() as int))
                by (nonlinear_arith)
                requires
                    0 <= z0 < d0,
                    0 <= rest < spec_prod_prefix(dt, dt.len() as int),
            ;
        } else {
            assert(rest == 0);
        }
    }
}

/// The product of all extents equals the first extent times the product
/// of the remaining ones.
pub proof fn lemma_prod_prefix_skip(dims: Seq<usize>, k: int)
    requires
        1 <= k <= dims.len(),
    ensures
        spec_prod_prefix(dims, k) == dims[0] * spec_prod_prefix(dims.skip(1), k - 1),
    decreases k,
{
    if k == 1 {
        assert(spec_prod_prefix(dims, 0) == 1);
        assert(spec_prod_prefix(dims.skip(1), 0) == 1);
        assert(spec_prod_prefix(dims, 1) == 1 * dims[0]);
    } else {
        lemma_prod_prefix_skip(dims, k - 1);
        let dt = dims.skip(1);
        assert(dt[k - 2] == dims[k - 1]);
        assert(spec_prod_prefix(dims, k) == spec_prod_prefix(dims, k - 1) * dims[k - 1]);
        assert((dims[0] * spec_prod_prefix(dt, k - 2)) * dims[k - 1] == dims[0] * (
        spec_prod_prefix(dt, k - 2) * dims[k - 1])) by (nonlinear_arith);
    }
}

/// Column-major coordinates of a linear position, dimension by dimension.
pub open spec fn spec_unlinear(linear: int, dims: Seq<usize>, first: Seq<i32>) -> Seq<i32>
    decreases dims.len(),
{
    if dims.len() == 0 {
        Seq::empty()
    } else {
        seq![(linear % (dims[0] as int) + first[0]) as i32] + spec_unlinear(
            linear / (dims[0] as int),
            dims.skip(1),
            first.skip(1),
        )
    }
}

impl FIndex {
    /// Column-major linear index of a coordinate tuple against the given
    /// extents, measured from this iterator's origins. Fails when the
    /// tuple and the extents disagree in rank, a coordinate is out of
    /// bounds, or the extents overflow the machine.
    pub fn to_linear_index(&self, indices: &Vec<i32>, dimensions: &Vec<usize>) -> (r: Result<
        usize,
        F90nmlError,
    >)
        requires
            self.wf(),
            indices@.len() <= self.spec_first().len(),
        ensures
            r is Ok ==> indices@.len() == dimensions@.len() && spec_in_bounds(
                indices@,
                self.spec_first(),
                dimensions@,
            ) && r->Ok_0 == spec_linear(indices@, self.spec_first(), dimensions@),
            r is Err ==> !(indices@.len() == dimensions@.len() && spec_in_bounds(
                indices@,
                self.spec_first(),
                dimensions@,
            ) && spec_dims_fit(dimensions@)),
            r is Err ==> r->Err_0 matches F90nmlError::InvalidIndex { .. },
    {
        if indices.len() != dimensions.len() {
            return Err(F90nmlError::invalid_index(
                "array",
                "",
                "Index and array dimensions disagree",
            ));
        }
        let ghost firstv = self.spec_first();
        let mut linear: usize = 0;
        let mut multiplier: usize = 1;
        proof {
            assert(indices@.skip(0) =~= indices@);
            assert(firstv.skip(0) =~= firstv);
            assert(dimensions@.skip(0) =~= dimensions@);
            assert(spec_prod_prefix(dimensions@, 0) == 1);
        }
        let mut i: usize = 0;
        while i < indices.len()
            invariant
                self.wf(),
                indices@.len() == dimensions@.len(),
                indices@.len() <= firstv.len(),
                firstv == self.spec_first(),
                i <= indices@.len(),
                multiplier == spec_prod_prefix(dimensions@, i as int),
                forall|j: int|
                    0 <= j < i ==> 0 <= #[trigger] indices@[j] - firstv[j] < (
                    dimensions@[j]) as int,
                spec_linear(indices@, firstv, dimensions@) == linear + multiplier * spec_linear(
                    indices@.skip(i as int),
                    firstv.skip(i as int),
                    dimensions@.skip(i as int),
                ),
                linear <= multiplier - 1,
            decreases indices@.len() - i,
        {
            let idx = indices[i];
            let dim = dimensions[i];
            let f = self.first[i];
            let zero_based64: i64 = idx as i64 - f as i64;
            if zero_based64 < 0 || zero_based64 as u64 >= dim as u64 {
                proof {
                    assert(!(0 <= indices@[i as int] - firstv[i as int] < (
                    dimensions@[i as int]) as int));
                    assert(!spec_in_bounds(indices@, firstv, dimensions@));
                }
                return Err(F90nmlError::invalid_index("array", "", "Index out of bounds"));
            }
            let zero_based = zero_based64 as usize;
            proof {
                lemma_step_bound(indices@, firstv, dimensions@, i as int, linear as int,
                    multiplier as int);
            }
            let scaled = match zero_based.checked_mul(multiplier) {
                Some(v) => v,
                None => {
                    proof {
                        lemma_unfit(dimensions@, i as int, zero_based as int, multiplier as int);
                    }
                    return Err(F90nmlError::invalid_index("array", "", "Array extent overflow"));
                },
            };
            let linear2 = match linear.checked_add(scaled) {
                Some(v) => v,
                None => {
                    proof {
                        lemma_unfit(dimensions@, i as int, zero_based as int, multiplier as int);
                    }
                    return Err(F90nmlError::invalid_index("array", "", "Array extent overflow"));
                },
            };
            let multiplier2 = match multiplier.checked_mul(dim) {
                Some(v) => v,
                None => {
                    proof {
                        lemma_prod_unfit(dimensions@, i as int, multiplier as int);
                    }
                    return Err(F90nmlError::invalid_index("array", "", "Array extent overflow"));
                },
            };
            linear = linear2;
            multiplier = multiplier2;
            i += 1;
            proof {
                assert(0 <= indices@[i - 1] - firstv[i - 1] < (dimensions@[i - 1]) as int);
            }
        }
        proof {
            assert(indices@.skip(i as int).len() == 0);
            assert(spec_linear(indices@.skip(i as int), firstv.skip(i as int), dimensions@.skip(
                i as int,
            )) == 0);
            assert(spec_in_bounds(indices@, firstv, dimensions@)) by {
                assert forall|j: int| 0 <= j < indices@.len() implies 0 <= #[trigger] indices@[j]
                    - firstv[j] < (dimensions@[j]) as int by {
                    assert(0 <= indices@[j] - firstv[j] < (dimensions@[j]) as int);
                }
            }
        }
        Ok(linear)
    }

    /// Column-major coordinates of a linear index against the given
    /// extents, measured from this iterator's origins.
    pub fn from_linear_index(&self, linear: usize, dimensions: &Vec<usize>) -> (r: Vec<i32>)
        requires
            self.wf(),
            dimensions@.len() <= self.spec_first().len(),
            forall|i: int| 0 <= i < dimensions@.len() ==> 1 <= (#[trigger] dimensions@[i]) as int,
            forall|i: int|
                0 <= i < dimensions@.len() ==> self.spec_first()[i] + (
                #[trigger] dimensions@[i]) as int <= i32::MAX as int + 1,
        ensures
            r@ == spec_unlinear(
                linear as int,
                dimensions@,
                self.spec_first().subrange(0, dimensions@.len() as int),
            ),
    {
        let ghost firstv = self.spec_first().subrange(0, dimensions@.len() as int);
        let mut r: Vec<i32> = Vec::new();
        let mut remaining: usize = linear;
        proof {
            assert(dimensions@.skip(0) =~= dimensions@);
            assert(firstv.skip(0) =~= firstv);
        }
        let mut i: usize = 0;
        while i < dimensions.len()
            invariant
                self.wf(),
                dimensions@.len() <= self.spec_first().len(),
                firstv == self.spec_first().subrange(0, dimensions@.len() as int),
                forall|k: int| 0 <= k < dimensions@.len() ==> 1 <= (#[trigger] dimensions@[k]) as int,
                forall|k: int|
                    0 <= k < dimensions@.len() ==> self.spec_first()[k] + (
                    #[trigger] dimensions@[k]) as int <= i32::MAX as int + 1,
                i <= dimensions@.len(),
                r@.len() == i,
                spec_unlinear(linear as int, dimensions@, firstv) =~= r@ + spec_unlinear(
                    remaining as int,
                    dimensions@.skip(i as int),
                    firstv.skip(i as int),
                ),
            decreases dimensions@.len() - i,
        {
            let dim = dimensions[i];
            let idx = remaining % dim;
            let f = self.first[i];
            let coord64: i64 = idx as i64 + f as i64;
            proof {
                assert(idx < dim);
                assert(coord64 <= i32::MAX as i64);
                assert(coord64 >= i32::MIN as i64);
            }
            r.push(coord64 as i32);
            remaining = remaining / dim;
            i += 1;
            proof {
                let dt = dimensions@.skip(i - 1);
                let ft = firstv.skip(i - 1);
                assert(dt[0] == dimensions@[i - 1] && ft[0] == firstv[i - 1]);
                assert(dt.skip(1) =~= dimensions@.skip(i as int));
                assert(ft.skip(1) =~= firstv.skip(i as int));
                assert(spec_unlinear(linear as int, dimensions@, firstv) =~= r@ + spec_unlinear(
                    remaining as int,
                    dimensions@.skip(i as int),
                    firstv.skip(i as int),
                ));
            }
        }
        proof {
            assert(r@ =~= spec_unlinear(linear as int, dimensions@, firstv));
        }
        r
    }
}

/// Unfolds one column-major step of `spec_linear`.
proof fn lemma_step_bound(
    indices: Seq<i32>,
    first: Seq<i32>,
    dims: Seq<usize>,
    i: int,
    linear: int,
    multiplier: int,
)
    requires
        indices.len() == dims.len(),
        indices.len() <= first.len(),
        0 <= i < indices.len(),
        0 <= indices[i] - first[i] < dims[i] as int,
        multiplier >= 1,
        0 <= linear <= multiplier - 1,
        spec_linear(indices, first, dims) == linear + multiplier * spec_linear(
            indices.skip(i),
            first.skip(i),
            dims.skip(i),
        ),
    ensures
        spec_linear(indices, first, dims) == (linear + (indices[i] - first[i]) * multiplier) + (
        multiplier * dims[i] as int) * spec_linear(
            indices.skip(i + 1),
            first.skip(i + 1),
            dims.skip(i + 1),
        ),
        linear + (indices[i] - first[i]) * multiplier <= multiplier * dims[i] as int - 1,
{
    let it = indices.skip(i);
    let ft = first.skip(i);
    let dt = dims.skip(i);
    assert(it[0] == indices[i] && ft[0] == first[i] && dt[0] == dims[i]);
    assert(it.skip(1) =~= indices.skip(i + 1));
    assert(ft.skip(1) =~= first.skip(i + 1));
    assert(dt.skip(1) =~= dims.skip(i + 1));
    let z0 = indices[i] - first[i];
    let d0 = dims[i] as int;
    let rest = spec_linear(indices.skip(i + 1), first.skip(i + 1), dims.skip(i + 1));
    assert(spec_linear(it, ft, dt) == z0 + d0 * rest);
    assert(linear + multiplier * (z0 + d0 * rest) == (linear + z0 * multiplier) + (multiplier * d0)
        * rest) by (nonlinear_arith);
    assert(linear + z0 * multiplier <= multiplier * d0 - 1) by (nonlinear_arith)
        requires
            0 <= linear <= multiplier - 1,
            0 <= z0 <= d0 - 1,
            multiplier >= 1,
    ;
}

/// When a step overflows the machine, the extents do not fit.
proof fn lemma_unfit(dims: Seq<usize>, i: int, zero_based: int, multiplier: int)
    requires
        0 <= i < dims.len(),
        multiplier == spec_prod_prefix(dims, i),
        multiplier >= 1,
        0 <= zero_based < dims[i] as int,
        zero_based * multiplier > usize::MAX as int - (multiplier - 1),
    ensures
        !spec_dims_fit(dims),
{
    assert(spec_prod_prefix(dims, i + 1) == multiplier * dims[i] as int);
    assert(multiplier * dims[i] as int >= zero_based * multiplier + multiplier) by (nonlinear_arith)
        requires
            multiplier >= 1,
            0 <= zero_based < dims[i] as int,
    ;
    assert(spec_prod_prefix(dims, i + 1) > usize::MAX as int);
}

/// When the running product overflows the machine, the extents do not fit.
proof fn lemma_prod_unfit(dims: Seq<usize>, i: int, multiplier: int)
    requires
        0 <= i < dims.len(),
        multiplier == spec_prod_prefix(dims, i),
        multiplier * dims[i] as int > usize::MAX as int,
    ensures
        !spec_dims_fit(dims),
{
    assert(spec_prod_prefix(dims, i + 1) == multiplier * dims[i] as int);
}

/// One component of an index expression: `None` when the text is not a
/// valid component, `Some(None)` when it is empty (absent), `Some(Some(v))`
/// when it is an integer that fits.
pub open spec fn spec_index_component(part: Seq<char>) -> Option<Option<i32>> {
    if part.len() == 0 {
        Some(None)
    } else if crate::digits::spec_signed_digits(part) && i32::MIN
        <= crate::digits::spec_signed_val(part) && crate::digits::spec_signed_val(part)
        <= i32::MAX {
        Some(Some(crate::digits::spec_signed_val(part) as i32))
    } else {
        None
    }
}

/// The bound denoted by an index expression `start:end:stride` with any
/// component optional, a bare integer as a single index, and a zero stride
/// rejected; `None` when the text is not an index expression.
pub open spec fn spec_parse_index(s: Seq<char>) -> Option<IndexBound> {
    let ps = crate::text::spec_split(crate::text::spec_trim(s), ':');
    if ps.len() == 1 {
        match spec_index_component(ps[0]) {
            Some(Some(v)) => Some(IndexBound { start: Some(v), end: Some(v), stride: None }),
            _ => None,
        }
    } else if ps.len() == 2 {
        match (spec_index_component(ps[0]), spec_index_component(ps[1])) {
            (Some(a), Some(b)) => Some(IndexBound { start: a, end: b, stride: None }),
            _ => None,
        }
    } else if ps.len() == 3 {
        match (
            spec_index_component(ps[0]),
            spec_index_component(ps[1]),
            spec_index_component(ps[2]),
        ) {
            (Some(a), Some(b), Some(c)) => if c == Some(0i32) {
                None
            } else {
                Some(IndexBound { start: a, end: b, stride: c })
            },
            _ => None,
        }
    } else {
        None
    }
}

/// Parse one component of an index expression.
fn index_component(part: &Vec<char>) -> (r: Option<Option<i32>>)
    ensures
        r == spec_index_component(part@),
{
    if part.len() == 0 {
        Some(None)
    } else {
        match crate::digits::chars_to_i32(part.as_slice()) {
            Some(v) => Some(Some(v)),
            None => None,
        }
    }
}

/// Parse a Fortran array-index expression such as "5", "1:10", "1:10:2"
/// or ":" into a bound. Whitespace around the expression is ignored.
pub fn parse_index_string(index_str: &str) -> (r: Result<IndexBound, F90nmlError>)
    ensures
        r is Ok <==> spec_parse_index(index_str@) is Some,
        r is Ok ==> Some(r->Ok_0) == spec_parse_index(index_str@),
        r is Err ==> r->Err_0 matches F90nmlError::InvalidIndex { .. },
{
    let chars = crate::text::str_to_chars(index_str);
    let trimmed = crate::text::trim_chars(chars.as_slice());
    let parts = crate::text::split_chars(trimmed.as_slice(), ':');
    proof {
        assert(parts.deep_view() == crate::text::spec_split(crate::text::spec_trim(index_str@),
            ':'));
    }
    if parts.len() == 1 {
        proof {
            assert(parts.deep_view()[0] == parts@[0]@);
        }
        match index_component(&parts[0]) {
            Some(Some(v)) => Ok(IndexBound::single(v)),
            _ => Err(F90nmlError::invalid_index("array", index_str, "Invalid integer index")),
        }
    } else if parts.len() == 2 {
        proof {
            assert(parts.deep_view()[0] == parts@[0]@);
            assert(parts.deep_view()[1] == parts@[1]@);
        }
        let a = index_component(&parts[0]);
        let b = index_component(&parts[1]);
        match (a, b) {
            (Some(a), Some(b)) => Ok(IndexBound::new(a, b, None)),
            _ => Err(F90nmlError::invalid_index("array", index_str, "Invalid index range")),
        }
    } else if parts.len() == 3 {
        proof {
            assert(parts.deep_view()[0] == parts@[0]@);
            assert(parts.deep_view()[1] == parts@[1]@);
            assert(parts.deep_view()[2] == parts@[2]@);
        }
        let a = index_component(&parts[0]);
        let b = index_component(&parts[1]);
        let c = index_component(&parts[2]);
        match (a, b, c) {
            (Some(a), Some(b), Some(c)) => {
                if c == Some(0i32) {
                    Err(F90nmlError::invalid_index("array", index_str, "Stride cannot be zero"))
                } else {
                    Ok(IndexBound::new(a, b, c))
                }
            },
            _ => Err(F90nmlError::invalid_index("array", index_str, "Invalid index range")),
        }
    } else {
        Err(F90nmlError::invalid_index(
            "array",
            index_str,
            "Too many colons in index specification",
        ))
    }
}

} // verus!
