//! Pure shape arithmetic for N-dimensional tensors: row-major strides,
//! index validation, index flattening, and derivation of nested
//! (trailing-axis) shapes.

use vstd::prelude::*;

use crate::common::{TensorBounds, TensorError, TensorIndex, TensorResult};

verus! {

/// The product of all axis bounds of `s` (1 for the empty sequence).
pub open spec fn seq_product(s: Seq<usize>) -> nat
    decreases s.len(),
{
    if s.len() == 0 {
        1
    } else {
        (s[0] as nat) * seq_product(s.skip(1))
    }
}

/// How many elements a shape with bounds `s` addresses.  A rank-0 shape is
/// the empty tensor and addresses no element.
pub open spec fn shape_count(s: Seq<usize>) -> nat {
    if s.len() == 0 {
        0
    } else {
        seq_product(s)
    }
}

/// The row-major buffer offset of `index` within `bounds`; `index` may be a
/// prefix of a full index, in which case this is the offset of the first
/// element of the sub-tensor it selects.
pub open spec fn flatten_index(bounds: Seq<usize>, index: Seq<usize>) -> nat
    decreases index.len(),
{
    if index.len() == 0 {
        0
    } else {
        (index[0] as nat) * seq_product(bounds.skip(1)) + flatten_index(
            bounds.skip(1),
            index.skip(1),
        )
    }
}

/// A full index: one entry per axis, each strictly below its bound.  The
/// rank-0 shape is the empty tensor and addresses no element, so no index
/// is valid for it.
pub open spec fn valid_index(bounds: Seq<usize>, index: Seq<usize>) -> bool {
    &&& bounds.len() > 0
    &&& index.len() == bounds.len()
    &&& valid_prefix(bounds, index)
}

/// A leading partial index: at most one entry per axis, each strictly below
/// its bound.
pub open spec fn valid_prefix(bounds: Seq<usize>, index: Seq<usize>) -> bool {
    &&& index.len() <= bounds.len()
    &&& forall|k: int| 0 <= k < index.len() ==> index[k] < bounds[k]
}

/// Every suffix product of `s` fits in a `usize`, so stride and element
/// counts can be computed without overflow.
pub open spec fn bounds_fit(s: Seq<usize>) -> bool {
    forall|k: int| 0 <= k <= s.len() ==> #[trigger] seq_product(s.skip(k)) <= usize::MAX
}

/// Unfolds one step of `seq_product` at position `k`.
proof fn lemma_product_step(s: Seq<usize>, k: int)
    requires
        0 <= k < s.len(),
    ensures
        seq_product(s.skip(k)) == (s[k] as nat) * seq_product(s.skip(k + 1)),
{
    assert(s.skip(k).skip(1) =~= s.skip(k + 1));
    assert(s.skip(k)[0] == s[k]);
}

/// The flattened offset of a valid leading index, plus the element count of
/// the trailing axes it leaves, never exceeds the shape's own element count.
pub proof fn lemma_flatten_le(bounds: Seq<usize>, index: Seq<usize>)
    requires
        valid_prefix(bounds, index),
    ensures
        flatten_index(bounds, index) + seq_product(bounds.skip(index.len() as int)) <= seq_product(
            bounds,
        ),
    decreases index.len(),
{
    if index.len() == 0 {
        assert(bounds.skip(0) =~= bounds);
    } else {
        let b1 = bounds.skip(1);
        let i1 = index.skip(1);
        assert(valid_prefix(b1, i1)) by {
            assert(forall|k: int|
                0 <= k < i1.len() ==> i1[k] == index[k + 1] && b1[k] == bounds[k + 1]);
        }
        lemma_flatten_le(b1, i1);
        assert(b1.skip(index.len() - 1) =~= bounds.skip(index.len() as int));
        let p1 = seq_product(b1);
        let i0 = index[0] as nat;
        let b0 = bounds[0] as nat;
        assert(flatten_index(b1, i1) + seq_product(b1.skip(index.len() - 1)) <= p1);
        assert(i0 * p1 + p1 <= b0 * p1) by (nonlinear_arith)
            requires
                i0 < b0,
        ;
        assert(seq_product(bounds) == b0 * p1);
    }
}

/// A valid full index flattens to an offset strictly below the element
/// count.
pub proof fn lemma_flatten_in_range(bounds: Seq<usize>, index: Seq<usize>)
    requires
        valid_index(bounds, index),
    ensures
        flatten_index(bounds, index) < shape_count(bounds),
{
    lemma_flatten_le(bounds, index);
    assert(bounds.skip(index.len() as int) =~= Seq::<usize>::empty());
}

/// Flattening a longer leading index adds the contribution of its last
/// entry to the flattening of the rest.
pub proof fn lemma_flatten_snoc(bounds: Seq<usize>, index: Seq<usize>, x: usize)
    requires
        index.len() < bounds.len(),
    ensures
        flatten_index(bounds, index.push(x)) == flatten_index(bounds, index) + (x as nat)
            * seq_product(bounds.skip(index.len() + 1 as int)),
    decreases index.len(),
{
    if index.len() == 0 {
        let p = index.push(x);
        assert(p.skip(1) =~= Seq::<usize>::empty());
        assert(p[0] == x);
        assert(flatten_index(bounds.skip(1), p.skip(1)) == 0);
        assert(flatten_index(bounds, p) == (x as nat) * seq_product(bounds.skip(1)) + 0);
    } else {
        let b1 = bounds.skip(1);
        let i1 = index.skip(1);
        lemma_flatten_snoc(b1, i1, x);
        assert(index.push(x).skip(1) =~= i1.push(x));
        assert(b1.skip(index.len() as int) =~= bounds.skip(index.len() + 1 as int));
    }
}

/// The product of a one-entry bounds sequence.
pub proof fn lemma_product_1(c: usize)
    ensures
        seq_product(seq![c]) == c,
{
    assert(seq![c].skip(1) =~= Seq::<usize>::empty());
    assert(seq_product(seq![c].skip(1)) == 1);
    assert(seq![c].len() == 1);
    assert(seq![c][0] == c);
    assert(seq_product(seq![c]) == (seq![c][0] as nat) * seq_product(seq![c].skip(1)));
}

/// The product of a two-entry bounds sequence.
pub proof fn lemma_product_2(r: usize, c: usize)
    ensures
        seq_product(seq![r, c]) == (r as nat) * (c as nat),
{
    assert(seq![r, c].skip(1) =~= seq![c]);
    lemma_product_1(c);
}

/// The product of a three-entry bounds sequence.
pub proof fn lemma_product_3(d: usize, r: usize, c: usize)
    ensures
        seq_product(seq![d, r, c]) == (d as nat) * ((r as nat) * (c as nat)),
{
    assert(seq![d, r, c].skip(1) =~= seq![r, c]);
    lemma_product_2(r, c);
}

/// The row-major offset of `[i]` in a rank-1 shape `[n]` is `i` itself.
pub proof fn lemma_flatten_1(n: usize, i: usize)
    ensures
        flatten_index(seq![n], seq![i]) == i,
{
    let b = seq![n];
    let x = seq![i];
    assert(b.skip(1) =~= Seq::<usize>::empty());
    assert(x.skip(1) =~= Seq::<usize>::empty());
    assert(flatten_index(b.skip(1), x.skip(1)) == 0);
    assert(seq_product(b.skip(1)) == 1);
}

/// The row-major offset of `[i, j]` in a rank-2 shape `[r, c]` is
/// `i * c + j`.
pub proof fn lemma_flatten_2(r: usize, c: usize, i: usize, j: usize)
    ensures
        flatten_index(seq![r, c], seq![i, j]) == (i as nat) * (c as nat) + j,
{
    let b = seq![r, c];
    let x = seq![i, j];
    assert(b.skip(1) =~= seq![c]);
    assert(x.skip(1) =~= seq![j]);
    lemma_flatten_1(c, j);
    lemma_product_1(c);
}

/// The row-major offset of `[d, i, j]` in a rank-3 shape `[dep, r, c]` is
/// `d * (r * c) + i * c + j`.
pub proof fn lemma_flatten_3(dep: usize, r: usize, c: usize, d: usize, i: usize, j: usize)
    ensures
        flatten_index(seq![dep, r, c], seq![d, i, j]) == (d as nat) * ((r as nat) * (c as nat)) + (
        i as nat) * (c as nat) + j,
{
    let b = seq![dep, r, c];
    let x = seq![d, i, j];
    assert(b.skip(1) =~= seq![r, c]);
    assert(x.skip(1) =~= seq![i, j]);
    lemma_flatten_2(r, c, i, j);
    lemma_product_2(r, c);
}

/// Row-major layout data for an N-dimensional tensor: the axis bounds, the
/// derived strides (`offsets`), the absolute start offset of the view in
/// its backing buffer, and the number of addressed elements.
pub struct TensorShape {
    shape: TensorBounds,
    offsets: TensorBounds,
    absolute_offset: usize,
    count: usize,
}

impl TensorShape {
    /// The axis bounds, outer axis first.
    pub closed spec fn bounds(&self) -> Seq<usize> {
        self.shape@
    }

    /// The absolute offset of this view's first element in its buffer.
    pub closed spec fn offset(&self) -> nat {
        self.absolute_offset as nat
    }

    /// The strides are derived from the bounds, the count is their product,
    /// and the addressed range's end fits in a `usize`.
    pub closed spec fn wf(&self) -> bool {
        &&& self.offsets@.len() == self.shape@.len()
        &&& (forall|k: int|
            0 <= k < self.shape@.len() ==> self.offsets@[k] as nat == seq_product(
                #[trigger] self.shape@.skip(k + 1),
            ))
        &&& self.count as nat == shape_count(self.shape@)
        &&& bounds_fit(self.shape@)
        &&& self.absolute_offset + self.count <= usize::MAX
    }

    /// Computes the element count and the stride of every axis for `shape`.
    fn get_shape_parameters(shape: &TensorBounds) -> (r: (usize, TensorBounds))
        requires
            bounds_fit(shape@),
        ensures
            r.1@.len() == shape@.len(),
            forall|k: int|
                0 <= k < shape@.len() ==> r.1@[k] as nat == seq_product(
                    #[trigger] shape@.skip(k + 1),
                ),
            r.0 as nat == shape_count(shape@),
    {
        let n = shape.len();
        if n == 0 {
            return (0, Vec::new());
        }
        let mut rev: Vec<usize> = Vec::new();
        let mut acc: usize = 1;
        let mut k: usize = n;
        while k > 0
            invariant
                k <= n,
                n == shape@.len(),
                bounds_fit(shape@),
                rev@.len() == n - k,
                acc as nat == seq_product(shape@.skip(k as int)),
                forall|j: int|
                    0 <= j < rev@.len() ==> rev@[j] as nat == seq_product(
                        #[trigger] shape@.skip(n - j),
                    ),
            decreases k,
        {
            rev.push(acc);
            proof {
                lemma_product_step(shape@, k - 1);
                assert(seq_product(shape@.skip(k - 1)) <= usize::MAX);
            }
            acc = shape[k - 1] * acc;
            k = k - 1;
        }
        proof {
            assert(shape@.skip(0) =~= shape@);
        }
        let mut offsets: TensorBounds = Vec::new();
        while rev.len() > 0
            invariant
                n == shape@.len(),
                offsets@.len() + rev@.len() == n,
                forall|j: int|
                    0 <= j < rev@.len() ==> rev@[j] as nat == seq_product(
                        #[trigger] shape@.skip(n - j),
                    ),
                forall|j: int|
                    0 <= j < offsets@.len() ==> offsets@[j] as nat == seq_product(
                        #[trigger] shape@.skip(j + 1),
                    ),
            decreases rev@.len(),
        {
            let ghost before = rev@.len() as int;
            let x = rev.pop().unwrap();
            proof {
                assert(x as nat == seq_product(shape@.skip(offsets@.len() + 1 as int))) by {
                    assert(x as nat == seq_product(shape@.skip(n - (before - 1))));
                    assert(n - (before - 1) == offsets@.len() + 1 as int);
                }
            }
            offsets.push(x);
        }
        (acc, offsets)
    }

    /// Builds the shape for the given bounds, rooted at offset 0 of its
    /// buffer.
    pub fn new(shape: TensorBounds) -> (r: Self)
        requires
            bounds_fit(shape@),
        ensures
            r.wf(),
            r.bounds() == shape@,
            r.offset() == 0,
    {
        proof {
            assert(seq_product(shape@.skip(0)) <= usize::MAX);
            assert(shape@.skip(0) =~= shape@);
        }
        Self::new_with_offset(shape, 0)
    }

    /// Builds a shape for the given bounds viewing its buffer from
    /// `absolute_offset` on.
    fn new_with_offset(shape: TensorBounds, absolute_offset: usize) -> (r: Self)
        requires
            bounds_fit(shape@),
            absolute_offset + shape_count(shape@) <= usize::MAX,
        ensures
            r.wf(),
            r.bounds() == shape@,
            r.offset() == absolute_offset as nat,
    {
        let (count, offsets) = Self::get_shape_parameters(&shape);
        Self { shape, offsets, absolute_offset, count }
    }

    /// How many elements this shape addresses.
    pub fn count(&self) -> (r: usize)
        requires
            self.wf(),
        ensures
            r as nat == shape_count(self.bounds()),
    {
        self.count
    }

    /// The number of axes.
    pub fn rank(&self) -> (r: usize)
        ensures
            r == self.bounds().len(),
    {
        self.shape.len()
    }

    /// True iff `index` has one entry per axis, each strictly below its
    /// bound; no index is valid for the empty (rank-0) shape.
    pub fn is_valid_index(&self, index: &TensorIndex) -> (r: bool)
        ensures
            r == valid_index(self.bounds(), index@),
    {
        let n = self.shape.len();
        if n == 0 || index.len() != n {
            return false;
        }
        let mut k: usize = 0;
        while k < n
            invariant
                n == self.bounds().len(),
                index@.len() == n,
                k <= n,
                forall|j: int| 0 <= j < k ==> index@[j] < self.bounds()[j],
            decreases n - k,
        {
            if index[k] >= self.shape[k] {
                return false;
            }
            k = k + 1;
        }
        true
    }

    /// The row-major buffer offset of `index` relative to this view's
    /// start; `index` may be a leading prefix of a full index.  Callers
    /// must have validated the index first.
    pub fn buffer_index(&self, index: &TensorIndex) -> (r: usize)
        requires
            self.wf(),
            valid_prefix(self.bounds(), index@),
        ensures
            r as nat == flatten_index(self.bounds(), index@),
    {
        let n = index.len();
        let mut acc: usize = 0;
        let mut k: usize = 0;
        proof {
            assert(index@.take(0) =~= Seq::<usize>::empty());
        }
        while k < n
            invariant
                self.wf(),
                valid_prefix(self.bounds(), index@),
                n == index@.len(),
                k <= n,
                acc as nat == flatten_index(self.bounds(), index@.take(k as int)),
            decreases n - k,
        {
            proof {
                assert(index@.take(k as int).push(index@[k as int]) =~= index@.take(k + 1));
                lemma_flatten_snoc(self.bounds(), index@.take(k as int), index@[k as int]);
                assert(valid_prefix(self.bounds(), index@.take(k + 1)));
                lemma_flatten_le(self.bounds(), index@.take(k + 1));
                assert(seq_product(self.bounds().skip(0)) <= usize::MAX);
                assert(self.bounds().skip(0) =~= self.bounds());
            }
            acc = acc + self.offsets[k] * index[k];
            k = k + 1;
        }
        proof {
            assert(index@.take(n as int) =~= index@);
        }
        acc
    }

    /// True iff both shapes have the same rank and identical bounds on
    /// every axis.
    pub fn is_same_shape(&self, other: &TensorShape) -> (r: bool)
        ensures
            r == (self.bounds() == other.bounds()),
    {
        let n = self.shape.len();
        if n != other.shape.len() {
            return false;
        }
        let mut k: usize = 0;
        while k < n
            invariant
                n == self.bounds().len(),
                n == other.bounds().len(),
                k <= n,
                forall|j: int| 0 <= j < k ==> self.bounds()[j] == other.bounds()[j],
            decreases n - k,
        {
            if self.shape[k] != other.shape[k] {
                return false;
            }
            k = k + 1;
        }
        proof {
            assert(self.bounds() =~= other.bounds());
        }
        true
    }

    /// The bound of axis `k`.
    pub fn dim(&self, k: usize) -> (r: usize)
        requires
            k < self.bounds().len(),
        ensures
            r == self.bounds()[k as int],
    {
        self.shape[k]
    }

    /// A copy of the axis bounds as a fresh vector.
    pub fn clone_bounds(&self) -> (r: TensorBounds)
        requires
            self.wf(),
        ensures
            r@ == self.bounds(),
            bounds_fit(r@),
    {
        let n = self.shape.len();
        let mut out: TensorBounds = Vec::new();
        let mut k: usize = 0;
        while k < n
            invariant
                k <= n,
                n == self.bounds().len(),
                out@ =~= self.bounds().take(k as int),
            decreases n - k,
        {
            out.push(self.shape[k]);
            proof {
                assert(self.bounds().take(k as int).push(self.bounds()[k as int]) =~= self.bounds().take(
                    k + 1,
                ));
            }
            k = k + 1;
        }
        proof {
            assert(out@ =~= self.bounds());
        }
        out
    }

    /// The absolute range of buffer positions this view addresses, as a
    /// half-open pair.
    pub fn absolute_bounds(&self) -> (r: (usize, usize))
        requires
            self.wf(),
        ensures
            r.0 as nat == self.offset(),
            r.1 as nat == self.offset() + shape_count(self.bounds()),
    {
        (self.absolute_offset, self.absolute_offset + self.count)
    }

    /// True iff both shapes have the same number of axes.
    pub fn is_same_rank(&self, other: &TensorShape) -> (r: bool)
        ensures
            r == (self.bounds().len() == other.bounds().len()),
    {
        self.shape.len() == other.shape.len()
    }

    /// The shape of the sub-tensor selected by the leading index `index`:
    /// the trailing axes it leaves, offset by its flattened position.
    /// Fails with `IncorrectShape` when no trailing axis would remain.
    pub fn nested_shape(&self, index: &TensorIndex) -> (r: TensorResult<Self>)
        requires
            self.wf(),
            index@.len() < self.bounds().len() ==> valid_prefix(self.bounds(), index@),
        ensures
            match r {
                Ok(s) => {
                    &&& index@.len() < self.bounds().len()
                    &&& s.wf()
                    &&& s.bounds() == self.bounds().skip(index@.len() as int)
                    &&& s.offset() == self.offset() + flatten_index(self.bounds(), index@)
                },
                Err(e) => {
                    &&& e == TensorError::IncorrectShape
                    &&& index@.len() >= self.bounds().len()
                },
            },
    {
        let len = index.len();
        let n = self.shape.len();
        if len < n {
            let mut new_shape: TensorBounds = Vec::new();
            let mut j: usize = len;
            while j < n
                invariant
                    len <= j <= n,
                    n == self.bounds().len(),
                    new_shape@ =~= self.bounds().subrange(len as int, j as int),
                decreases n - j,
            {
                new_shape.push(self.shape[j]);
                proof {
                    assert(self.bounds().subrange(len as int, j as int).push(
                        self.bounds()[j as int],
                    ) =~= self.bounds().subrange(len as int, j + 1));
                }
                j = j + 1;
            }
            proof {
                assert(new_shape@ =~= self.bounds().skip(len as int));
                lemma_flatten_le(self.bounds(), index@);
                assert forall|k: int| 0 <= k <= new_shape@.len() implies #[trigger] seq_product(
                    new_shape@.skip(k),
                ) <= usize::MAX by {
                    assert(new_shape@.skip(k) =~= self.bounds().skip(len + k));
                    assert(seq_product(self.bounds().skip(len + k)) <= usize::MAX);
                }
                assert(self.bounds().skip(0) =~= self.bounds());
                assert(seq_product(self.bounds().skip(0)) <= usize::MAX);
            }
            let off = self.buffer_index(index);
            let new_offset = self.absolute_offset + off;
            Ok(Self::new_with_offset(new_shape, new_offset))
        } else {
            Err(TensorError::IncorrectShape)
        }
    }
}

/// Flattening a concatenated index splits into the prefix's flattening and
/// the suffix's flattening within the trailing axes.
pub proof fn lemma_flatten_concat(bounds: Seq<usize>, prefix: Seq<usize>, rest: Seq<usize>)
    requires
        prefix.len() + rest.len() <= bounds.len(),
    ensures
        flatten_index(bounds, prefix + rest) == flatten_index(bounds, prefix) + flatten_index(
            bounds.skip(prefix.len() as int),
            rest,
        ),
    decreases prefix.len(),
{
    if prefix.len() == 0 {
        assert(prefix + rest =~= rest);
        assert(bounds.skip(0) =~= bounds);
    } else {
        let b1 = bounds.skip(1);
        let p1 = prefix.skip(1);
        lemma_flatten_concat(b1, p1, rest);
        assert((prefix + rest).skip(1) =~= p1 + rest);
        assert((prefix + rest)[0] == prefix[0]);
        assert(b1.skip(prefix.len() - 1) =~= bounds.skip(prefix.len() as int));
    }
}

} // verus!
